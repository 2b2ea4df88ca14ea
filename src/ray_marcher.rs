use vstd::prelude::*;
use crate::hit::{MaterialType, RayResult};
use crate::ray::{Rational, RationalPoint, Ray};
use crate::scene::SceneData;
use crate::vector::{abs_int, vadd, vscale, IVec, Vector3, COORD_LIMIT};
use vstd::arithmetic::div_mod::lemma_fundamental_div_mod_converse;

verus! {

/// Lattice length of a unit direction, and the number of fine steps in one
/// lattice step: the marcher evaluates distances at `origin * DIR_UNIT + dir * t`.
pub const DIR_UNIT: i64 = 4096;

/// Largest marching distance a marcher may be given.
pub const MARCH_LIMIT: i64 = 1048576;

/// Largest magnitude of a fine point coordinate the distance functions accept.
pub const FINE_LIMIT: i64 = 0x1000_0000_0000;

/// A distance to the scene with the surface found there.
#[derive(Clone, Copy, Debug, PartialEq, Eq, Structural)]
pub struct SDFResult {
    pub dist: i64,
    pub color: Vector3,
    pub emit: Vector3,
    pub t: MaterialType,
}

/// A primitive of a distance-field scene, in lattice units.
#[derive(Clone, Copy, Debug, PartialEq, Eq, Structural)]
pub enum Shape {
    Sphere { center: Vector3, radius: i64 },
    /// The slab `|y - height| <= thickness`.
    Plane { height: i64, thickness: i64 },
    /// The cube `|x|, |y|, |z| <= half` about the origin.
    Cube { half: i64 },
}

/// A primitive with its surface.
#[derive(Clone, Copy, Debug, PartialEq, Eq, Structural)]
pub struct SdfObject {
    pub shape: Shape,
    pub color: Vector3,
    pub emit: Vector3,
    pub t: MaterialType,
}

/// Sphere tracing against a scene of primitives.
#[derive(Debug)]
pub struct RayMarcher {
    pub max_steps: u32,
    pub max_distance: i64,
    pub epsilon: i64,
    pub scene: Vec<SdfObject>,
}

/// `r` is the integer square root of `n`.
pub open spec fn is_isqrt(n: int, r: int) -> bool {
    0 <= r && r * r <= n < (r + 1) * (r + 1)
}

/// The integer square root, `floor(sqrt(n))`.
pub open spec fn isqrt_spec(n: int) -> int {
    choose|r: int| is_isqrt(n, r)
}

proof fn lemma_isqrt_unique(n: int, a: int, b: int)
    requires
        is_isqrt(n, a),
        is_isqrt(n, b),
    ensures
        a == b,
{
    if a < b {
        assert((a + 1) * (a + 1) <= b * b) by (nonlinear_arith)
            requires
                0 <= a < b,
        ;
    }
    if b < a {
        assert((b + 1) * (b + 1) <= a * a) by (nonlinear_arith)
            requires
                0 <= b < a,
        ;
    }
}

/// The integer square root by bisection.
pub fn isqrt(n: u128) -> (r: u128)
    requires
        n < 0x4000_0000_0000_0000_0000_0000,
    ensures
        is_isqrt(n as int, r as int),
        r == isqrt_spec(n as int),
        r <= 0x8000_0000_0000,
{
    let mut lo: u128 = 0;
    let mut hi: u128 = 0x8000_0000_0000;
    assert(hi * hi == 0x4000_0000_0000_0000_0000_0000);
    while hi - lo > 1
        invariant
            lo < hi <= 0x8000_0000_0000,
            lo * lo <= n,
            n < hi * hi,
        decreases hi - lo,
    {
        let mid = lo + (hi - lo) / 2;
        assert(mid * mid <= 0x4000_0000_0000_0000_0000_0000) by (nonlinear_arith)
            requires
                mid <= 0x8000_0000_0000,
        ;
        if mid * mid <= n {
            lo = mid;
        } else {
            hi = mid;
        }
    }
    assert(is_isqrt(n as int, lo as int));
    proof {
        let r = isqrt_spec(n as int);
        assert(is_isqrt(n as int, r));
        lemma_isqrt_unique(n as int, lo as int, r);
    }
    lo
}

pub open spec fn sphere_dist_spec(p: IVec, pos: IVec, radius: int) -> int {
    let d = crate::vector::vsub(p, pos);
    isqrt_spec(crate::vector::vdot(d, d)) - radius
}

pub open spec fn plane_dist_spec(p: IVec, height: int, thickness: int) -> int {
    abs_int(p.1 - height) - thickness
}

pub open spec fn pos_part(a: int) -> int {
    if a > 0 {
        a
    } else {
        0
    }
}

pub open spec fn box_dist_spec(p: IVec, b: int) -> int {
    let q: IVec = (abs_int(p.0) - b, abs_int(p.1) - b, abs_int(p.2) - b);
    let outside = isqrt_spec(pos_part(q.0) * pos_part(q.0) + pos_part(q.1) * pos_part(q.1) + pos_part(q.2) * pos_part(q.2));
    let m = if q.0 >= q.1 && q.0 >= q.2 {
        q.0
    } else if q.1 >= q.2 {
        q.1
    } else {
        q.2
    };
    outside + if m < 0 {
        m
    } else {
        0
    }
}

/// Proof that a square of a bounded value is bounded.
proof fn lemma_square_bound(a: int, b: int)
    requires
        abs_int(a) <= b,
    ensures
        0 <= a * a <= b * b,
{
    crate::vector::lemma_mul_bound(a, a, b, b);
    assert(a * a >= 0) by (nonlinear_arith);
}

impl SDFResult {
    pub fn new(dist: i64, color: Vector3, emit: Vector3, t: MaterialType) -> (r: Self)
        ensures
            r == (SDFResult { dist, color, emit, t }),
    {
        SDFResult { dist, color, emit, t }
    }

    pub open spec fn union_spec(self, a: Self) -> Self {
        if self.dist < a.dist {
            self
        } else {
            a
        }
    }

    /// The nearer of two surfaces; the second on a tie.
    pub fn union(self, a: Self) -> (r: Self)
        ensures
            r == self.union_spec(a),
    {
        if self.dist < a.dist {
            self
        } else {
            a
        }
    }

    /// Distance from `p` to the sphere about `pos`, rounded down.
    pub fn sphere_dist(p: Vector3, pos: Vector3, radius: i64) -> (r: i64)
        requires
            p.bounded(FINE_LIMIT as int),
            pos.bounded(FINE_LIMIT as int),
            abs_int(radius as int) <= FINE_LIMIT,
        ensures
            r == sphere_dist_spec(p@, pos@, radius as int),
    {
        let d = p.subtract(pos);
        let ghost b: int = 2 * FINE_LIMIT;
        proof {
            lemma_square_bound(d.x as int, b);
            lemma_square_bound(d.y as int, b);
            lemma_square_bound(d.z as int, b);
        }
        let n = d.length_squared();
        let s = isqrt(n as u128);
        s as i64 - radius
    }

    /// Distance from `p` to the horizontal slab of the given half thickness.
    pub fn plane_dist(p: Vector3, height: i64, thickness: i64) -> (r: i64)
        requires
            abs_int(p.y as int) <= FINE_LIMIT,
            abs_int(height as int) <= FINE_LIMIT,
            abs_int(thickness as int) <= FINE_LIMIT,
        ensures
            r == plane_dist_spec(p@, height as int, thickness as int),
    {
        let d = p.y - height;
        (if d < 0 {
            -d
        } else {
            d
        }) - thickness
    }

    /// Distance from `p` to the cube of half side `b` about the origin.
    pub fn box_dist(p: Vector3, b: i64) -> (r: i64)
        requires
            p.bounded(FINE_LIMIT as int),
            0 <= b <= FINE_LIMIT,
        ensures
            r == box_dist_spec(p@, b as int),
    {
        let a = p.abs();
        let q = a.subtract(Vector3::from_single(b));
        let qx: i128 = if q.x > 0 { q.x as i128 } else { 0 };
        let qy: i128 = if q.y > 0 { q.y as i128 } else { 0 };
        let qz: i128 = if q.z > 0 { q.z as i128 } else { 0 };
        proof {
            lemma_square_bound(qx as int, FINE_LIMIT as int);
            lemma_square_bound(qy as int, FINE_LIMIT as int);
            lemma_square_bound(qz as int, FINE_LIMIT as int);
        }
        let outside = isqrt((qx * qx + qy * qy + qz * qz) as u128);
        let m = if q.x >= q.y && q.x >= q.z {
            q.x
        } else if q.y >= q.z {
            q.y
        } else {
            q.z
        };
        outside as i64 + if m < 0 {
            m
        } else {
            0
        }
    }
}

/// `floor(a / b)` for a positive `b`.
fn floor_div(a: i64, b: i64) -> (r: i64)
    requires
        b > 0,
        a > i64::MIN,
    ensures
        r == a as int / b as int,
{
    if a >= 0 {
        a / b
    } else {
        let m = -a;
        let q = (m as i128 + b as i128 - 1) / b as i128;
        proof {
            let k = m as int + b as int - 1;
            vstd::arithmetic::div_mod::lemma_fundamental_div_mod(k, b as int);
            vstd::arithmetic::div_mod::lemma_mod_pos_bound(k, b as int);
            let rr = k % (b as int);
            assert(q == k / (b as int));
            assert(b * q == q * b) by (nonlinear_arith);
            assert(q * b == k - rr);
            assert(0 <= q * b - m < b);
            assert(a == (-q) * b + (q * b - m)) by (nonlinear_arith)
                requires
                    a == -m,
            ;
            lemma_fundamental_div_mod_converse(a as int, b as int, -q, q * b - m);
            assert(q >= 0) by (nonlinear_arith)
                requires
                    q * b == k - rr,
                    k - rr >= 0,
                    b > 0,
            ;
            assert(q <= m) by (nonlinear_arith)
                requires
                    q * b <= m + b - 1,
                    b >= 1,
                    q >= 0,
                    m >= 1,
            ;
        }
        -(q as i64)
    }
}

/// The magnitude bound a distance function keeps for points within `bp`.
pub open spec fn dist_bound(bp: int) -> int {
    2 * bp + 0x4000_0000
}

proof fn lemma_isqrt_le(n: int, b: int)
    requires
        0 <= b,
        0 <= n <= b * b,
    ensures
        0 <= isqrt_spec(n) <= b,
{
    let r = isqrt_spec(n);
    assert(is_isqrt(n, r)) by {
        lemma_isqrt_exists(n, b);
    }
    if r > b {
        assert(r * r > b * b) by (nonlinear_arith)
            requires
                r > b,
                b >= 0,
        ;
    }
}

proof fn lemma_isqrt_exists(n: int, b: int)
    requires
        0 <= b,
        0 <= n <= b * b,
    ensures
        exists|r: int| is_isqrt(n, r),
    decreases b,
{
    if n < b * b {
        if b > 0 {
            assert((b - 1) * (b - 1) <= n || n < (b - 1) * (b - 1));
            if (b - 1) * (b - 1) <= n {
                assert(((b - 1) + 1) * ((b - 1) + 1) == b * b);
                assert(is_isqrt(n, b - 1));
            } else {
                assert(0 <= n <= (b - 1) * (b - 1));
                lemma_isqrt_exists(n, b - 1);
            }
        } else {
            assert(b * b == 0) by (nonlinear_arith)
                requires
                    b == 0,
            ;
        }
    } else {
        assert(n < (b + 1) * (b + 1)) by (nonlinear_arith)
            requires
                n == b * b,
                b >= 0,
        ;
        assert(is_isqrt(n, b));
    }
}

impl SdfObject {
    /// Parameters within `COORD_LIMIT`, a cube's half side not negative.
    pub open spec fn wf(self) -> bool {
        match self.shape {
            Shape::Sphere { center, radius } => center.bounded(COORD_LIMIT as int) && abs_int(radius as int) <= COORD_LIMIT,
            Shape::Plane { height, thickness } => abs_int(height as int) <= COORD_LIMIT && abs_int(thickness as int) <= COORD_LIMIT,
            Shape::Cube { half } => 0 <= half <= COORD_LIMIT,
        }
    }

    /// The distance at the fine point `p`, in fine units.
    pub open spec fn dist_spec(self, p: IVec) -> int {
        let u = DIR_UNIT as int;
        match self.shape {
            Shape::Sphere { center, radius } => sphere_dist_spec(p, vscale(center@, u), radius * u),
            Shape::Plane { height, thickness } => plane_dist_spec(p, height * u, thickness * u),
            Shape::Cube { half } => box_dist_spec(p, half * u),
        }
    }

    pub open spec fn eval_spec(self, p: IVec) -> SDFResult {
        SDFResult { dist: self.dist_spec(p) as i64, color: self.color, emit: self.emit, t: self.t }
    }

    /// The object's distance and surface at the fine point `p`.
    pub fn eval(&self, p: Vector3) -> (r: SDFResult)
        requires
            self.wf(),
            p.bounded(FINE_LIMIT as int),
        ensures
            r == self.eval_spec(p@),
            r.dist == self.dist_spec(p@),
    {
        let dist = match self.shape {
            Shape::Sphere { center, radius } => SDFResult::sphere_dist(p, center.multiply(DIR_UNIT), radius * DIR_UNIT),
            Shape::Plane { height, thickness } => SDFResult::plane_dist(p, height * DIR_UNIT, thickness * DIR_UNIT),
            Shape::Cube { half } => SDFResult::box_dist(p, half * DIR_UNIT),
        };
        SDFResult { dist, color: self.color, emit: self.emit, t: self.t }
    }
}

/// A distance stays within `dist_bound` for points within `bp`.
proof fn lemma_dist_bound(o: SdfObject, p: IVec, bp: int)
    requires
        o.wf(),
        crate::vector::vbounded(p, bp),
        0 <= bp <= FINE_LIMIT,
    ensures
        abs_int(o.dist_spec(p)) <= dist_bound(bp),
{
    let u = DIR_UNIT as int;
    let c = COORD_LIMIT as int;
    match o.shape {
        Shape::Sphere { center, radius } => {
            let d = crate::vector::vsub(p, vscale(center@, u));
            let e = bp + c * u;
            crate::vector::lemma_mul_bound(center.x as int, u, c, u);
            crate::vector::lemma_mul_bound(center.y as int, u, c, u);
            crate::vector::lemma_mul_bound(center.z as int, u, c, u);
            crate::vector::lemma_mul_bound(radius as int, u, c, u);
            lemma_square_bound(d.0, e);
            lemma_square_bound(d.1, e);
            lemma_square_bound(d.2, e);
            assert(3 * (e * e) <= (2 * e) * (2 * e)) by (nonlinear_arith);
            lemma_isqrt_le(crate::vector::vdot(d, d), 2 * e);
        },
        Shape::Plane { height, thickness } => {
            crate::vector::lemma_mul_bound(height as int, u, c, u);
            crate::vector::lemma_mul_bound(thickness as int, u, c, u);
        },
        Shape::Cube { half } => {
            crate::vector::lemma_mul_bound(half as int, u, c, u);
            let b = half * u;
            let q: IVec = (abs_int(p.0) - b, abs_int(p.1) - b, abs_int(p.2) - b);
            lemma_square_bound(pos_part(q.0), bp);
            lemma_square_bound(pos_part(q.1), bp);
            lemma_square_bound(pos_part(q.2), bp);
            assert(3 * (bp * bp) <= (2 * bp) * (2 * bp)) by (nonlinear_arith);
            lemma_isqrt_le(
                pos_part(q.0) * pos_part(q.0) + pos_part(q.1) * pos_part(q.1) + pos_part(q.2) * pos_part(q.2),
                2 * bp,
            );
        },
    }
}

/// The distance to the nearest object, the later one on a tie.
pub open spec fn scene_sdf(objs: Seq<SdfObject>, p: IVec) -> SDFResult
    decreases objs.len(),
{
    if objs.len() <= 1 {
        objs[0].eval_spec(p)
    } else {
        scene_sdf(objs.drop_last(), p).union_spec(objs.last().eval_spec(p))
    }
}

/// The fine point of a ray at distance `t`: `origin * DIR_UNIT + dir * t`.
pub open spec fn fine_at(ray: Ray, t: int) -> IVec {
    vadd(vscale(ray.origin@, DIR_UNIT as int), vscale(ray.dir@, t))
}

proof fn lemma_scene_bound(objs: Seq<SdfObject>, p: IVec, bp: int)
    requires
        objs.len() >= 1,
        forall|i: int| 0 <= i < objs.len() ==> (#[trigger] objs[i]).wf(),
        crate::vector::vbounded(p, bp),
        0 <= bp <= FINE_LIMIT,
    ensures
        abs_int(scene_sdf(objs, p).dist as int) <= dist_bound(bp),
    decreases objs.len(),
{
    lemma_dist_bound(objs[0], p, bp);
    lemma_dist_bound(objs.last(), p, bp);
    if objs.len() > 1 {
        assert forall|i: int| 0 <= i < objs.drop_last().len() implies (#[trigger] objs.drop_last()[i]).wf() by {
            assert(objs.drop_last()[i] == objs[i]);
        }
        lemma_scene_bound(objs.drop_last(), p, bp);
    }
}

impl RayMarcher {
    /// At least one object, each well formed; limits within `MARCH_LIMIT`.
    pub open spec fn wf(self) -> bool {
        &&& self.scene@.len() >= 1
        &&& forall|i: int| 0 <= i < self.scene@.len() ==> (#[trigger] self.scene@[i]).wf()
        &&& 0 <= self.max_distance <= MARCH_LIMIT
        &&& 1 <= self.epsilon <= MARCH_LIMIT
    }

    pub open spec fn get_sdf_spec(self, p: IVec, refraction: bool) -> SDFResult {
        let v = scene_sdf(self.scene@, p);
        if refraction {
            SDFResult { dist: -v.dist as i64, ..v }
        } else {
            v
        }
    }

    pub open spec fn normal_spec(self, p: IVec, refraction: bool) -> Vector3 {
        let e = self.epsilon * DIR_UNIT;
        Vector3 {
            x: (self.get_sdf_spec((p.0 + e, p.1, p.2), refraction).dist - self.get_sdf_spec((p.0 - e, p.1, p.2), refraction).dist) as i64,
            y: (self.get_sdf_spec((p.0, p.1 + e, p.2), refraction).dist - self.get_sdf_spec((p.0, p.1 - e, p.2), refraction).dist) as i64,
            z: (self.get_sdf_spec((p.0, p.1, p.2 + e), refraction).dist - self.get_sdf_spec((p.0, p.1, p.2 - e), refraction).dist) as i64,
        }
    }

    pub open spec fn hit_spec(self, ray: Ray, refraction: bool, t: int, s: SDFResult) -> RayResult {
        let f = fine_at(ray, t);
        RayResult {
            pos: RationalPoint { x: f.0 as i128, y: f.1 as i128, z: f.2 as i128, w: DIR_UNIT as i128 },
            param: Rational { num: t as i128, den: DIR_UNIT as i128 },
            color: s.color,
            normal: self.normal_spec(f, refraction),
            emit: s.emit,
            material: s.t,
        }
    }

    /// Sphere tracing from distance `dist` with `steps` steps left.
    pub open spec fn march_spec(self, ray: Ray, refraction: bool, dist: int, steps: nat) -> Option<RayResult>
        decreases steps,
    {
        if steps == 0 || dist > self.max_distance {
            None
        } else {
            let s = self.get_sdf_spec(fine_at(ray, dist), refraction);
            let nd = dist + (s.dist as int) / (DIR_UNIT as int);
            if s.dist < self.epsilon * DIR_UNIT {
                Some(self.hit_spec(ray, refraction, nd, s))
            } else {
                self.march_spec(ray, refraction, nd, (steps - 1) as nat)
            }
        }
    }

    /// A hit of the march has the parameter denominator `DIR_UNIT`.
    pub proof fn lemma_march_param(self, ray: Ray, refraction: bool, dist: int, steps: nat)
        ensures
            self.march_spec(ray, refraction, dist, steps) matches Some(h) ==> h.param.den == DIR_UNIT,
        decreases steps,
    {
        if steps > 0 && dist <= self.max_distance {
            let s = self.get_sdf_spec(fine_at(ray, dist), refraction);
            let nd = dist + (s.dist as int) / (DIR_UNIT as int);
            self.lemma_march_param(ray, refraction, nd, (steps - 1) as nat);
        }
    }

    /// The nearest object at a fine point, its distance negated when tracing
    /// from inside a solid.
    pub fn get_sdf(&self, p: Vector3, refraction: bool) -> (r: SDFResult)
        requires
            self.wf(),
            p.bounded(FINE_LIMIT as int),
        ensures
            r == self.get_sdf_spec(p@, refraction),
            abs_int(r.dist as int) <= dist_bound(FINE_LIMIT as int),
    {
        let mut v = self.scene[0].eval(p);
        proof {
            lemma_dist_bound(self.scene@[0], p@, FINE_LIMIT as int);
            assert(self.scene@.subrange(0, 1).drop_last().len() == 0);
        }
        let mut i: usize = 1;
        while i < self.scene.len()
            invariant
                self.wf(),
                p.bounded(FINE_LIMIT as int),
                1 <= i <= self.scene@.len(),
                v == scene_sdf(self.scene@.subrange(0, i as int), p@),
                abs_int(v.dist as int) <= dist_bound(FINE_LIMIT as int),
            decreases self.scene@.len() - i,
        {
            let w = self.scene[i].eval(p);
            proof {
                lemma_dist_bound(self.scene@[i as int], p@, FINE_LIMIT as int);
                let pre = self.scene@.subrange(0, i as int + 1);
                assert(pre.drop_last() == self.scene@.subrange(0, i as int));
                assert(pre.last() == self.scene@[i as int]);
            }
            v = v.union(w);
            i = i + 1;
        }
        proof {
            assert(self.scene@.subrange(0, self.scene@.len() as int) == self.scene@);
        }
        if refraction {
            v.dist = -v.dist;
        }
        v
    }

    /// The fine point at distance `t` along the ray.
    fn fine_point(ray: &Ray, t: i64) -> (r: Vector3)
        requires
            ray.origin.bounded(COORD_LIMIT as int),
            ray.dir.bounded(COORD_LIMIT as int),
            abs_int(t as int) <= 0x800_0000,
        ensures
            r@ == fine_at(*ray, t as int),
            r.bounded(0x800_1000_0000),
            abs_int(t as int) <= MARCH_LIMIT ==> r.bounded(0x20_0000_0000),
    {
        proof {
            let c = COORD_LIMIT as int;
            let u = DIR_UNIT as int;
            crate::vector::lemma_mul_bound(ray.origin.x as int, u, c, u);
            crate::vector::lemma_mul_bound(ray.origin.y as int, u, c, u);
            crate::vector::lemma_mul_bound(ray.origin.z as int, u, c, u);
            crate::vector::lemma_mul_bound(ray.dir.x as int, t as int, c, 0x800_0000);
            crate::vector::lemma_mul_bound(ray.dir.y as int, t as int, c, 0x800_0000);
            crate::vector::lemma_mul_bound(ray.dir.z as int, t as int, c, 0x800_0000);
            if abs_int(t as int) <= MARCH_LIMIT {
                crate::vector::lemma_mul_bound(ray.dir.x as int, t as int, c, MARCH_LIMIT as int);
                crate::vector::lemma_mul_bound(ray.dir.y as int, t as int, c, MARCH_LIMIT as int);
                crate::vector::lemma_mul_bound(ray.dir.z as int, t as int, c, MARCH_LIMIT as int);
            }
        }
        ray.origin.multiply(DIR_UNIT).add(ray.dir.multiply(t))
    }

    /// Sphere tracing: steps along the ray by the distance to the scene until
    /// that distance drops below `epsilon` (a hit, at the point reached), the
    /// marched distance exceeds `max_distance`, or `max_steps` steps are used.
    /// Distances are measured in units of `|dir| / DIR_UNIT`, so a unit
    /// direction is scaled to `DIR_UNIT`; the result's parameter is the
    /// marched distance over `DIR_UNIT`. The march begins at the origin.
    pub fn resolve(&self, ray: &Ray, refraction: bool, _scene: &SceneData) -> (r: Option<RayResult>)
        requires
            self.wf(),
            ray.origin.bounded(COORD_LIMIT as int),
            ray.dir.bounded(COORD_LIMIT as int),
        ensures
            r == self.march_spec(*ray, refraction, 0, self.max_steps as nat),
            r matches Some(h) ==> h.param.den == DIR_UNIT && abs_int(h.param.num as int) <= 0x800_0000,
    {
        let mut dist: i64 = 0;
        let mut i: u32 = 0;
        while i < self.max_steps
            invariant
                self.wf(),
                ray.origin.bounded(COORD_LIMIT as int),
                ray.dir.bounded(COORD_LIMIT as int),
                0 <= dist <= MARCH_LIMIT + 0x420_0000,
                i <= self.max_steps,
                self.march_spec(*ray, refraction, dist as int, (self.max_steps - i) as nat)
                    == self.march_spec(*ray, refraction, 0, self.max_steps as nat),
            decreases self.max_steps - i,
        {
            if dist > self.max_distance {
                return None;
            }
            let p = Self::fine_point(ray, dist);
            let s = self.get_sdf(p, refraction);
            proof {
                lemma_scene_bound(self.scene@, p@, 0x20_0000_0000);
            }
            let step = floor_div(s.dist, DIR_UNIT);
            proof {
                assert(-0x420_0000 <= step <= 0x420_0000) by (nonlinear_arith)
                    requires
                        step == s.dist as int / 4096,
                        -0x40_4000_0000 <= s.dist <= 0x40_4000_0000,
                ;
            }
            let nd = dist + step;
            if s.dist < self.epsilon * DIR_UNIT {
                let f = Self::fine_point(ray, nd);
                let normal = self.get_normal(f, refraction);
                return Some(
                    RayResult {
                        pos: RationalPoint { x: f.x as i128, y: f.y as i128, z: f.z as i128, w: DIR_UNIT as i128 },
                        param: Rational { num: nd as i128, den: DIR_UNIT as i128 },
                        color: s.color,
                        normal,
                        emit: s.emit,
                        material: s.t,
                    },
                );
            }
            proof {
                assert(step >= 0) by (nonlinear_arith)
                    requires
                        step == s.dist as int / 4096,
                        s.dist >= 4096,
                ;
            }
            dist = nd;
            i = i + 1;
        }
        None
    }

    /// The direction of steepest distance increase at a fine point, by
    /// central differences over `epsilon`; not normalised.
    pub fn get_normal(&self, pos: Vector3, refraction: bool) -> (r: Vector3)
        requires
            self.wf(),
            pos.bounded((FINE_LIMIT - MARCH_LIMIT * DIR_UNIT) as int),
        ensures
            r == self.normal_spec(pos@, refraction),
    {
        let e = self.epsilon * DIR_UNIT;
        let x_delta = self.get_sdf(Vector3::new(pos.x + e, pos.y, pos.z), refraction).dist
            - self.get_sdf(Vector3::new(pos.x - e, pos.y, pos.z), refraction).dist;
        let y_delta = self.get_sdf(Vector3::new(pos.x, pos.y + e, pos.z), refraction).dist
            - self.get_sdf(Vector3::new(pos.x, pos.y - e, pos.z), refraction).dist;
        let z_delta = self.get_sdf(Vector3::new(pos.x, pos.y, pos.z + e), refraction).dist
            - self.get_sdf(Vector3::new(pos.x, pos.y, pos.z - e), refraction).dist;
        Vector3::new(x_delta, y_delta, z_delta)
    }
}

} // verus!
