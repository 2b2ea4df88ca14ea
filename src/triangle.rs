use vstd::prelude::*;
use crate::aabb::AABB;
use crate::hit::MaterialType;
use crate::ray::{Rational, RationalPoint, Ray};
use crate::vector::{
    abs_int, lemma_cross_bound, lemma_dot_bound, vadd, vcross, vdot, vscale, vsub, IVec, Vector3,
    COORD_LIMIT,
};

verus! {

/// A triangle with its face normal `(v1 - v0) x (v2 - v0)` and the sum of its
/// vertices (three times its centroid, which orders triangles along an axis
/// as the centroid does).
#[derive(Clone, Copy, Debug, PartialEq, Eq, Structural)]
pub struct Triangle {
    pub v0: Vector3,
    pub v1: Vector3,
    pub v2: Vector3,
    pub normal: Vector3,
    pub centroid: Vector3,
    pub color: Vector3,
    pub emit: Vector3,
    pub t: MaterialType,
}

/// Where a ray crosses a triangle: the point, its ray parameter, and the
/// barycentric coordinates `u`, `v` of the point.
#[derive(Clone, Copy, Debug, PartialEq, Eq, Structural)]
pub struct TriangleHit {
    pub pos: RationalPoint,
    pub param: Rational,
    pub u: Rational,
    pub v: Rational,
}

/// The Möller–Trumbore test on exact integers, for the triangle `a, b, c` and
/// the line `o + t * d`: `(det, u, v, t)` scaled by `det`.
pub open spec fn mt_terms(a: IVec, b: IVec, c: IVec, o: IVec, d: IVec) -> (int, int, int, int) {
    let e1 = vsub(b, a);
    let e2 = vsub(c, a);
    let p = vcross(d, e2);
    let det = vdot(e1, p);
    let tv = vsub(o, a);
    let q = vcross(tv, e1);
    (det, vdot(tv, p), vdot(d, q), vdot(e2, q))
}

/// The line crosses the front face of the triangle.
pub open spec fn mt_hits(a: IVec, b: IVec, c: IVec, o: IVec, d: IVec) -> bool {
    let (det, u, v, t) = mt_terms(a, b, c, o, d);
    det > 0 && 0 <= u && u <= det && 0 <= v && u + v <= det
}

impl Triangle {
    /// Vertices within `COORD_LIMIT`, normal and centroid as documented.
    pub open spec fn wf(self) -> bool {
        &&& self.v0.bounded(COORD_LIMIT as int)
        &&& self.v1.bounded(COORD_LIMIT as int)
        &&& self.v2.bounded(COORD_LIMIT as int)
        &&& self.normal@ == vcross(vsub(self.v1@, self.v0@), vsub(self.v2@, self.v0@))
        &&& self.centroid@ == vadd(vadd(self.v0@, self.v1@), self.v2@)
    }

    pub open spec fn trace_spec(self, ray: Ray) -> Option<TriangleHit> {
        let (det, u, v, t) = mt_terms(self.v0@, self.v1@, self.v2@, ray.origin@, ray.dir@);
        if mt_hits(self.v0@, self.v1@, self.v2@, ray.origin@, ray.dir@) {
            let param = Rational { num: t as i128, den: det as i128 };
            Some(
                TriangleHit {
                    pos: ray.point_at(param),
                    param,
                    u: Rational { num: u as i128, den: det as i128 },
                    v: Rational { num: v as i128, den: det as i128 },
                },
            )
        } else {
            None
        }
    }

    pub open spec fn bounds_spec(self) -> AABB {
        AABB {
            min: Vector3 {
                x: min3(self.v0.x, self.v1.x, self.v2.x),
                y: min3(self.v0.y, self.v1.y, self.v2.y),
                z: min3(self.v0.z, self.v1.z, self.v2.z),
            },
            max: Vector3 {
                x: max3(self.v0.x, self.v1.x, self.v2.x),
                y: max3(self.v0.y, self.v1.y, self.v2.y),
                z: max3(self.v0.z, self.v1.z, self.v2.z),
            },
        }
    }

    pub fn new(v0: Vector3, v1: Vector3, v2: Vector3, color: Vector3, emit: Vector3, t: MaterialType) -> (r: Self)
        requires
            v0.bounded(COORD_LIMIT as int),
            v1.bounded(COORD_LIMIT as int),
            v2.bounded(COORD_LIMIT as int),
        ensures
            r.wf(),
            r.v0 == v0 && r.v1 == v1 && r.v2 == v2,
            r.color == color && r.emit == emit && r.t == t,
    {
        let v0v1 = v1.subtract(v0);
        let v0v2 = v2.subtract(v0);
        let normal = v0v1.cross(v0v2);
        let centroid = v0.add(v1).add(v2);
        Triangle { v0, v1, v2, normal, centroid, color, emit, t }
    }

    /// Möller–Trumbore: where the ray's line crosses the front face of the
    /// triangle, with the barycentric coordinates of the crossing. Back faces
    /// and lines parallel to the plane give `None`. The parameter of the
    /// crossing is not compared with the ray's start.
    pub fn trace(&self, ray: &Ray) -> (r: Option<TriangleHit>)
        requires
            self.wf(),
            ray.wf(),
        ensures
            r == self.trace_spec(*ray),
            r.is_some() == mt_hits(self.v0@, self.v1@, self.v2@, ray.origin@, ray.dir@),
    {
        let ghost c: int = COORD_LIMIT as int;
        let v0v1 = self.v1.subtract(self.v0);
        let v0v2 = self.v2.subtract(self.v0);
        let pvec = ray.dir.cross(v0v2);
        proof {
            lemma_cross_bound(ray.dir@, v0v2@, c, 2 * c);
            lemma_dot_bound(v0v1@, pvec@, 2 * c, 4 * c * c);
        }
        let det = v0v1.dot(pvec);
        if det <= 0 {
            return None;
        }
        let tvec = ray.origin.subtract(self.v0);
        proof {
            lemma_dot_bound(tvec@, pvec@, 2 * c, 4 * c * c);
        }
        let u = tvec.dot(pvec);
        if u < 0 || u > det {
            return None;
        }
        let qvec = tvec.cross(v0v1);
        proof {
            lemma_cross_bound(tvec@, v0v1@, 2 * c, 2 * c);
            lemma_dot_bound(ray.dir@, qvec@, c, 8 * c * c);
            lemma_dot_bound(v0v2@, qvec@, 2 * c, 8 * c * c);
        }
        let v = ray.dir.dot(qvec);
        if v < 0 || u + v > det {
            return None;
        }
        let t = v0v2.dot(qvec);
        let param = Rational { num: t, den: det };
        let pos = ray.point_at_param(param);
        Some(TriangleHit { pos, param, u: Rational { num: u, den: det }, v: Rational { num: v, den: det } })
    }

    /// The tight box around the three vertices.
    pub fn bounds(&self) -> (r: AABB)
        ensures
            r == self.bounds_spec(),
            r.wf(),
    {
        AABB {
            min: Vector3 {
                x: min3_exec(self.v0.x, self.v1.x, self.v2.x),
                y: min3_exec(self.v0.y, self.v1.y, self.v2.y),
                z: min3_exec(self.v0.z, self.v1.z, self.v2.z),
            },
            max: Vector3 {
                x: max3_exec(self.v0.x, self.v1.x, self.v2.x),
                y: max3_exec(self.v0.y, self.v1.y, self.v2.y),
                z: max3_exec(self.v0.z, self.v1.z, self.v2.z),
            },
        }
    }
}

/// Bounds on the terms of the test for inputs within `c`.
pub proof fn lemma_mt_bounds(a: IVec, b: IVec, cc: IVec, o: IVec, d: IVec, c: int)
    requires
        c >= 0,
        crate::vector::vbounded(a, c),
        crate::vector::vbounded(b, c),
        crate::vector::vbounded(cc, c),
        crate::vector::vbounded(o, c),
        crate::vector::vbounded(d, c),
    ensures
        abs_int(mt_terms(a, b, cc, o, d).0) <= 24 * (c * (c * c)),
        abs_int(mt_terms(a, b, cc, o, d).1) <= 24 * (c * (c * c)),
        abs_int(mt_terms(a, b, cc, o, d).2) <= 24 * (c * (c * c)),
        abs_int(mt_terms(a, b, cc, o, d).3) <= 48 * (c * (c * c)),
{
    let e1 = vsub(b, a);
    let e2 = vsub(cc, a);
    let p = vcross(d, e2);
    let tv = vsub(o, a);
    let q = vcross(tv, e1);
    lemma_cross_bound(d, e2, c, 2 * c);
    lemma_cross_bound(tv, e1, 2 * c, 2 * c);
    lemma_dot_bound(e1, p, 2 * c, 2 * (c * (2 * c)));
    lemma_dot_bound(tv, p, 2 * c, 2 * (c * (2 * c)));
    lemma_dot_bound(d, q, c, 2 * ((2 * c) * (2 * c)));
    lemma_dot_bound(e2, q, 2 * c, 2 * ((2 * c) * (2 * c)));
    assert(3 * (2 * c * (2 * (c * (2 * c)))) == 24 * (c * (c * c))) by (nonlinear_arith);
    assert(3 * (c * (2 * ((2 * c) * (2 * c)))) == 24 * (c * (c * c))) by (nonlinear_arith);
    assert(3 * (2 * c * (2 * ((2 * c) * (2 * c)))) == 48 * (c * (c * c))) by (nonlinear_arith);
}

/// Scaling a ray's direction by `k >= 1` keeps the crossing point of a
/// triangle and divides its ray parameter by `k`; the barycentric
/// coordinates stay, and a miss stays a miss.
pub proof fn lemma_trace_scale_invariant(tri: Triangle, ray: Ray, scaled: Ray, k: int)
    requires
        tri.wf(),
        ray.wf(),
        scaled.wf(),
        k >= 1,
        scaled.origin == ray.origin,
        scaled.dir@ == vscale(ray.dir@, k),
    ensures
        tri.trace_spec(scaled).is_some() == tri.trace_spec(ray).is_some(),
        tri.trace_spec(ray) matches Some(h1) ==> tri.trace_spec(scaled) matches Some(h2) && {
            &&& h1.pos.same_point(h2.pos)
            &&& h2.param.num * k * h1.param.den == h1.param.num * h2.param.den
            &&& h1.u.eq_value(h2.u)
            &&& h1.v.eq_value(h2.v)
        },
{
    let c = COORD_LIMIT as int;
    let (a, b, cc, o, d) = (tri.v0@, tri.v1@, tri.v2@, ray.origin@, ray.dir@);
    let kd = scaled.dir@;
    let e1 = vsub(b, a);
    let e2 = vsub(cc, a);
    let tv = vsub(o, a);
    let p = vcross(d, e2);
    let q = vcross(tv, e1);
    let (det, u, v, t) = mt_terms(a, b, cc, o, d);
    let (det2, u2, v2, t2) = mt_terms(a, b, cc, o, kd);
    lemma_cross_scale(d, e2, k);
    lemma_dot_scale(e1, p, k);
    lemma_dot_scale(tv, p, k);
    lemma_dot_scale_left(d, q, k);
    assert(t2 == t);
    assert(det2 > 0 <==> det > 0) by (nonlinear_arith)
        requires
            det2 == det * k,
            k >= 1,
    ;
    assert(u2 <= det2 <==> u <= det) by (nonlinear_arith)
        requires
            det2 == det * k,
            u2 == u * k,
            k >= 1,
    ;
    assert(0 <= u2 <==> 0 <= u) by (nonlinear_arith)
        requires
            u2 == u * k,
            k >= 1,
    ;
    assert(0 <= v2 <==> 0 <= v) by (nonlinear_arith)
        requires
            v2 == v * k,
            k >= 1,
    ;
    assert(u2 + v2 <= det2 <==> u + v <= det) by (nonlinear_arith)
        requires
            det2 == det * k,
            u2 == u * k,
            v2 == v * k,
            k >= 1,
    ;
    if tri.trace_spec(ray).is_some() {
        lemma_mt_bounds(a, b, cc, o, d, c);
        lemma_mt_bounds(a, b, cc, o, kd, c);
        let h1 = tri.trace_spec(ray).unwrap();
        let h2 = tri.trace_spec(scaled).unwrap();
        assert(h1.param.den == det && h1.param.num == t);
        assert(h2.param.den == det2 && h2.param.num == t);
        crate::vector::lemma_mul_bound(o.0, det, c, 24 * (c * (c * c)));
        crate::vector::lemma_mul_bound(o.1, det, c, 24 * (c * (c * c)));
        crate::vector::lemma_mul_bound(o.2, det, c, 24 * (c * (c * c)));
        crate::vector::lemma_mul_bound(d.0, t, c, 48 * (c * (c * c)));
        crate::vector::lemma_mul_bound(d.1, t, c, 48 * (c * (c * c)));
        crate::vector::lemma_mul_bound(d.2, t, c, 48 * (c * (c * c)));
        crate::vector::lemma_mul_bound(o.0, det2, c, 24 * (c * (c * c)));
        crate::vector::lemma_mul_bound(o.1, det2, c, 24 * (c * (c * c)));
        crate::vector::lemma_mul_bound(o.2, det2, c, 24 * (c * (c * c)));
        crate::vector::lemma_mul_bound(kd.0, t, c, 48 * (c * (c * c)));
        crate::vector::lemma_mul_bound(kd.1, t, c, 48 * (c * (c * c)));
        crate::vector::lemma_mul_bound(kd.2, t, c, 48 * (c * (c * c)));
        assert((o.0 * det + d.0 * t) * det2 == (o.0 * det2 + kd.0 * t) * det) by (nonlinear_arith)
            requires
                det2 == det * k,
                kd.0 == d.0 * k,
        ;
        assert((o.1 * det + d.1 * t) * det2 == (o.1 * det2 + kd.1 * t) * det) by (nonlinear_arith)
            requires
                det2 == det * k,
                kd.1 == d.1 * k,
        ;
        assert((o.2 * det + d.2 * t) * det2 == (o.2 * det2 + kd.2 * t) * det) by (nonlinear_arith)
            requires
                det2 == det * k,
                kd.2 == d.2 * k,
        ;
        assert(t * k * det == t * det2) by (nonlinear_arith)
            requires
                det2 == det * k,
        ;
        assert(u * det2 == u2 * det) by (nonlinear_arith)
            requires
                det2 == det * k,
                u2 == u * k,
        ;
        assert(v * det2 == v2 * det) by (nonlinear_arith)
            requires
                det2 == det * k,
                v2 == v * k,
        ;
    }
}

proof fn lemma_scale_diff(a: int, b: int, c: int, d: int, k: int)
    ensures
        (a * k) * b - (c * k) * d == (a * b - c * d) * k,
{
    assert((a * k) * b == (a * b) * k) by (nonlinear_arith);
    assert((c * k) * d == (c * d) * k) by (nonlinear_arith);
    assert((a * b) * k - (c * d) * k == (a * b - c * d) * k) by (nonlinear_arith);
}

proof fn lemma_cross_scale(a: IVec, b: IVec, k: int)
    ensures
        vcross(vscale(a, k), b) == vscale(vcross(a, b), k),
{
    lemma_scale_diff(a.1, b.2, a.2, b.1, k);
    lemma_scale_diff(a.2, b.0, a.0, b.2, k);
    lemma_scale_diff(a.0, b.1, a.1, b.0, k);
}

proof fn lemma_dot_scale(a: IVec, b: IVec, k: int)
    ensures
        vdot(a, vscale(b, k)) == vdot(a, b) * k,
{
    assert(a.0 * (b.0 * k) == (a.0 * b.0) * k) by (nonlinear_arith);
    assert(a.1 * (b.1 * k) == (a.1 * b.1) * k) by (nonlinear_arith);
    assert(a.2 * (b.2 * k) == (a.2 * b.2) * k) by (nonlinear_arith);
    assert((a.0 * b.0) * k + (a.1 * b.1) * k + (a.2 * b.2) * k == (a.0 * b.0 + a.1 * b.1 + a.2
        * b.2) * k) by (nonlinear_arith);
}

proof fn lemma_dot_scale_left(a: IVec, b: IVec, k: int)
    ensures
        vdot(vscale(a, k), b) == vdot(a, b) * k,
{
    assert((a.0 * k) * b.0 == (a.0 * b.0) * k) by (nonlinear_arith);
    assert((a.1 * k) * b.1 == (a.1 * b.1) * k) by (nonlinear_arith);
    assert((a.2 * k) * b.2 == (a.2 * b.2) * k) by (nonlinear_arith);
    assert((a.0 * b.0) * k + (a.1 * b.1) * k + (a.2 * b.2) * k == (a.0 * b.0 + a.1 * b.1 + a.2
        * b.2) * k) by (nonlinear_arith);
}

pub open spec fn min3(a: i64, b: i64, c: i64) -> i64 {
    if a <= b && a <= c {
        a
    } else if b <= c {
        b
    } else {
        c
    }
}

pub open spec fn max3(a: i64, b: i64, c: i64) -> i64 {
    if a >= b && a >= c {
        a
    } else if b >= c {
        b
    } else {
        c
    }
}

fn min3_exec(a: i64, b: i64, c: i64) -> (r: i64)
    ensures
        r == min3(a, b, c),
{
    if a <= b && a <= c {
        a
    } else if b <= c {
        b
    } else {
        c
    }
}

fn max3_exec(a: i64, b: i64, c: i64) -> (r: i64)
    ensures
        r == max3(a, b, c),
{
    if a >= b && a >= c {
        a
    } else if b >= c {
        b
    } else {
        c
    }
}

} // verus!
