use vstd::prelude::*;
use crate::aabb::AABB;
use crate::hit::{MaterialType, RayResult};
use crate::ray::{Rational, Ray};
use crate::scene::SceneData;
use crate::triangle::{lemma_mt_bounds, Triangle};
use crate::ray_marcher::RayMarcher;
use crate::vector::{Vector3, COORD_LIMIT};

verus! {

/// Colour value of full intensity.
pub const COLOR_ONE: i64 = 255;

/// The intersectable objects, composed by delegation.
#[derive(Debug)]
pub enum Resolver {
    /// A box that forwards only the rays that meet it.
    Bounded(AABBRayResolver),
    /// One triangle.
    Triangle(TriangleResolver),
    /// The nearest hit among several children.
    Multi(MultiRayResolver),
    /// Hits every ray where it starts.
    Dummy(Dummy),
    /// Sphere tracing against a distance-field scene.
    Marcher(RayMarcher),
}

/// Forwards a ray to `inner` when the ray meets `aabb`, starting it where it
/// meets the box.
#[derive(Debug)]
pub struct AABBRayResolver {
    pub aabb: AABB,
    pub inner: Box<Resolver>,
}

/// Resolves rays against one triangle.
#[derive(Debug)]
pub struct TriangleResolver {
    pub triangle: Triangle,
}

/// Resolves rays against every child and keeps the nearest hit.
#[derive(Debug)]
pub struct MultiRayResolver {
    pub inner: Vec<Resolver>,
}

/// Reports a white, diffuse hit at the start of every ray, facing the ray.
#[derive(Clone, Copy, Debug, PartialEq, Eq, Structural)]
pub struct Dummy {}

/// The hit of a triangle resolver for a crossing of its triangle.
pub open spec fn triangle_result(t: Triangle, ray: Ray) -> Option<RayResult> {
    match t.trace_spec(ray) {
        Some(h) => Some(
            RayResult {
                pos: h.pos,
                param: h.param,
                color: t.color,
                normal: t.normal,
                emit: t.emit,
                material: t.t,
            },
        ),
        None => None,
    }
}

pub open spec fn dummy_result(ray: Ray) -> RayResult {
    RayResult {
        pos: ray.point_at(ray.start),
        param: ray.start,
        color: Vector3 { x: COLOR_ONE, y: COLOR_ONE, z: COLOR_ONE },
        normal: Vector3 {
            x: (0 - ray.dir.x) as i64,
            y: (0 - ray.dir.y) as i64,
            z: (0 - ray.dir.z) as i64,
        },
        emit: Vector3 { x: 0, y: 0, z: 0 },
        material: MaterialType::Diffuse,
    }
}

/// The nearer of two optional hits; on equal parameters the first.
pub open spec fn nearer(a: Option<RayResult>, b: Option<RayResult>) -> Option<RayResult> {
    match (a, b) {
        (None, x) => x,
        (Some(p), None) => Some(p),
        (Some(p), Some(c)) => if c.param.lt_spec(p.param) {
            Some(c)
        } else {
            Some(p)
        },
    }
}

/// The nearest hit among the children, the first on ties.
pub open spec fn nearest_of(cs: Seq<Resolver>, ray: Ray, refraction: bool) -> Option<RayResult>
    decreases cs,
{
    if cs.len() == 0 {
        None
    } else {
        nearer(nearest_of(cs.drop_last(), ray, refraction), cs.last().resolve_spec(ray, refraction))
    }
}

/// Every child well formed.
pub open spec fn all_wf(cs: Seq<Resolver>) -> bool
    decreases cs,
{
    cs.len() == 0 || (all_wf(cs.drop_last()) && cs.last().wf())
}

proof fn lemma_all_wf_index(cs: Seq<Resolver>, i: int)
    requires
        all_wf(cs),
        0 <= i < cs.len(),
    ensures
        cs[i].wf(),
    decreases cs.len(),
{
    if i < cs.len() - 1 {
        assert(cs.drop_last()[i] == cs[i]);
        lemma_all_wf_index(cs.drop_last(), i);
    }
}

#[verifier::spinoff_prover]
#[verifier::rlimit(80)]
proof fn lemma_nearest_of(cs: Seq<Resolver>, ray: Ray, refraction: bool)
    requires
        forall|i: int|
            0 <= i < cs.len() ==> (#[trigger] cs[i].resolve_spec(ray, refraction) matches Some(g) ==> g.param.wf()),
    ensures
        nearest_of(cs, ray, refraction).is_none() <==> forall|i: int|
            0 <= i < cs.len() ==> (#[trigger] cs[i].resolve_spec(ray, refraction)).is_none(),
        nearest_of(cs, ray, refraction) matches Some(h) ==> exists|i: int|
            {
                &&& 0 <= i < cs.len()
                &&& #[trigger] cs[i].resolve_spec(ray, refraction) == Some(h)
                &&& forall|j: int|
                    0 <= j < i ==> (#[trigger] cs[j].resolve_spec(ray, refraction) matches Some(g) ==> h.param.lt_spec(
                        g.param,
                    ))
            },
        nearest_of(cs, ray, refraction) matches Some(h) ==> forall|j: int|
            0 <= j < cs.len() ==> (#[trigger] cs[j].resolve_spec(ray, refraction) matches Some(g) ==> h.param.le_spec(
                g.param,
            )),
    decreases cs.len(),
{
    if cs.len() > 0 {
        let p = cs.drop_last();
        let n = cs.len() - 1;
        assert forall|i: int| 0 <= i < p.len() implies (#[trigger] p[i].resolve_spec(ray, refraction) matches Some(
            g,
        ) ==> g.param.wf()) by {
            assert(p[i] == cs[i]);
        }
        lemma_nearest_of(p, ray, refraction);
        assert forall|i: int| 0 <= i < p.len() implies p[i] == cs[i] by {}
        let prev = nearest_of(p, ray, refraction);
        let cur = cs[n].resolve_spec(ray, refraction);
        assert(cs.last() == cs[n]);
        if prev.is_none() {
            assert forall|i: int| 0 <= i < p.len() implies (#[trigger] cs[i].resolve_spec(ray, refraction)).is_none() by {
                assert(p[i].resolve_spec(ray, refraction).is_none());
            }
            if let Some(h) = cur {
                assert forall|j: int| 0 <= j < cs.len() implies (#[trigger] cs[j].resolve_spec(ray, refraction) matches Some(
                    g,
                ) ==> h.param.le_spec(g.param)) by {
                    if j < n {
                        assert(p[j].resolve_spec(ray, refraction).is_none());
                    }
                }
                assert(cs[n].resolve_spec(ray, refraction) == Some(h));
            }
        } else {
            let ph = prev.unwrap();
            let i0 = choose|i: int|
                {
                    &&& 0 <= i < p.len()
                    &&& #[trigger] p[i].resolve_spec(ray, refraction) == Some(ph)
                    &&& forall|j: int|
                        0 <= j < i ==> (#[trigger] p[j].resolve_spec(ray, refraction) matches Some(g) ==> ph.param.lt_spec(
                            g.param,
                        ))
                };
            match cur {
                Some(c) => {
                    if c.param.lt_spec(ph.param) {
                        assert forall|j: int| 0 <= j < cs.len() implies (#[trigger] cs[j].resolve_spec(ray, refraction) matches Some(
                            g,
                        ) ==> c.param.le_spec(g.param)) by {
                            if j < n {
                                if let Some(g) = cs[j].resolve_spec(ray, refraction) {
                                    assert(p[j].resolve_spec(ray, refraction) == Some(g));
                                    crate::ray::lemma_le_trans(c.param, ph.param, g.param);
                                }
                            }
                        }
                        assert forall|j: int| 0 <= j < n implies (#[trigger] cs[j].resolve_spec(ray, refraction) matches Some(
                            g,
                        ) ==> c.param.lt_spec(g.param)) by {
                            if let Some(g) = cs[j].resolve_spec(ray, refraction) {
                                assert(p[j].resolve_spec(ray, refraction) == Some(g));
                                lemma_lt_le_trans(c.param, ph.param, g.param);
                            }
                        }
                        assert(cs[n].resolve_spec(ray, refraction) == Some(c));
                    } else {
                        assert(cs[i0].resolve_spec(ray, refraction) == Some(ph));
                        assert forall|j: int| 0 <= j < cs.len() implies (#[trigger] cs[j].resolve_spec(ray, refraction) matches Some(
                            g,
                        ) ==> ph.param.le_spec(g.param)) by {
                            if j < n {
                                assert(p[j].resolve_spec(ray, refraction) == cs[j].resolve_spec(ray, refraction));
                            }
                        }
                        assert forall|j: int| 0 <= j < i0 implies (#[trigger] cs[j].resolve_spec(ray, refraction) matches Some(
                            g,
                        ) ==> ph.param.lt_spec(g.param)) by {
                            assert(p[j].resolve_spec(ray, refraction) == cs[j].resolve_spec(ray, refraction));
                        }
                    }
                },
                None => {
                    assert(cs[i0].resolve_spec(ray, refraction) == Some(ph));
                    assert forall|j: int| 0 <= j < cs.len() implies (#[trigger] cs[j].resolve_spec(ray, refraction) matches Some(
                        g,
                    ) ==> ph.param.le_spec(g.param)) by {
                        if j < n {
                            assert(p[j].resolve_spec(ray, refraction) == cs[j].resolve_spec(ray, refraction));
                        }
                    }
                    assert forall|j: int| 0 <= j < i0 implies (#[trigger] cs[j].resolve_spec(ray, refraction) matches Some(
                        g,
                    ) ==> ph.param.lt_spec(g.param)) by {
                        assert(p[j].resolve_spec(ray, refraction) == cs[j].resolve_spec(ray, refraction));
                    }
                },
            }
        }
    }
}

/// The hit of a well-formed resolver has a positive parameter denominator.
pub proof fn lemma_hit_param_wf(r: Resolver, ray: Ray, refraction: bool)
    requires
        r.wf(),
        ray.wf(),
    ensures
        r.resolve_spec(ray, refraction) matches Some(h) ==> h.param.wf(),
    decreases r, 1nat,
{
    match r {
        Resolver::Bounded(b) => {
            crate::aabb::lemma_trace_meaning(b.aabb, ray);
            if let Some(t) = b.aabb.trace_spec(ray) {
                lemma_trace_start_bounds(b.aabb, ray);
                lemma_hit_param_wf(*b.inner, Ray { origin: ray.origin, dir: ray.dir, start: t }, refraction);
            }
        },
        Resolver::Triangle(t) => {
            let tri = t.triangle;
            lemma_mt_bounds(tri.v0@, tri.v1@, tri.v2@, ray.origin@, ray.dir@, COORD_LIMIT as int);
        },
        Resolver::Multi(m) => {
            lemma_nearest_of_wf(m.inner@, ray, refraction);
        },
        Resolver::Dummy(_) => {},
        Resolver::Marcher(m) => {
            m.lemma_march_param(ray, refraction, 0, m.max_steps as nat);
        },
    }
}

proof fn lemma_trace_start_bounds(b: AABB, ray: Ray)
    requires
        b.wf(),
        b.bounded(),
        ray.wf(),
    ensures
        b.trace_spec(ray) matches Some(t) ==> (Ray { origin: ray.origin, dir: ray.dir, start: t }).wf(),
{
    crate::aabb::lemma_trace_bounds(b, ray);
}

proof fn lemma_nearest_of_wf(cs: Seq<Resolver>, ray: Ray, refraction: bool)
    requires
        all_wf(cs),
        ray.wf(),
    ensures
        nearest_of(cs, ray, refraction) matches Some(h) ==> h.param.wf(),
        forall|i: int|
            0 <= i < cs.len() ==> (#[trigger] cs[i].resolve_spec(ray, refraction) matches Some(g) ==> g.param.wf()),
    decreases cs, 0nat,
{
    if cs.len() > 0 {
        lemma_nearest_of_wf(cs.drop_last(), ray, refraction);
        lemma_hit_param_wf(cs.last(), ray, refraction);
        assert forall|i: int| 0 <= i < cs.len() implies (#[trigger] cs[i].resolve_spec(ray, refraction) matches Some(
            g,
        ) ==> g.param.wf()) by {
            if i < cs.len() - 1 {
                assert(cs.drop_last()[i] == cs[i]);
            }
        }
    }
}

/// The nearest hit of a well-formed group: `None` exactly when no child is
/// hit; otherwise the hit of some child, no farther along the ray than any
/// other child's hit and strictly nearer than those of the children before it.
pub proof fn lemma_multi_nearest(m: MultiRayResolver, ray: Ray, refraction: bool)
    requires
        Resolver::Multi(m).wf(),
        ray.wf(),
    ensures
        nearest_of(m.inner@, ray, refraction).is_none() <==> forall|i: int|
            0 <= i < m.inner@.len() ==> (#[trigger] m.inner@[i].resolve_spec(ray, refraction)).is_none(),
        nearest_of(m.inner@, ray, refraction) matches Some(h) ==> exists|i: int|
            {
                &&& 0 <= i < m.inner@.len()
                &&& #[trigger] m.inner@[i].resolve_spec(ray, refraction) == Some(h)
                &&& forall|j: int|
                    0 <= j < i ==> (#[trigger] m.inner@[j].resolve_spec(ray, refraction) matches Some(g)
                        ==> h.param.lt_spec(g.param))
            },
        nearest_of(m.inner@, ray, refraction) matches Some(h) ==> forall|j: int|
            0 <= j < m.inner@.len() ==> (#[trigger] m.inner@[j].resolve_spec(ray, refraction) matches Some(g)
                ==> h.param.le_spec(g.param)),
{
    lemma_nearest_of_wf(m.inner@, ray, refraction);
    lemma_nearest_of(m.inner@, ray, refraction);
}

/// `a < b` and `b <= c` give `a < c`.
proof fn lemma_lt_le_trans(a: Rational, b: Rational, c: Rational)
    requires
        a.wf(),
        b.wf(),
        c.wf(),
        a.lt_spec(b),
        b.le_spec(c),
    ensures
        a.lt_spec(c),
{
    let (an, ad, bn, bd, cn, cd) = (a.num as int, a.den as int, b.num as int, b.den as int, c.num as int, c.den as int);
    assert(an * bd * cd < bn * ad * cd) by (nonlinear_arith)
        requires
            an * bd < bn * ad,
            cd > 0,
    ;
    assert(bn * cd * ad <= cn * bd * ad) by (nonlinear_arith)
        requires
            bn * cd <= cn * bd,
            ad > 0,
    ;
    assert(an * cd < cn * ad) by (nonlinear_arith)
        requires
            an * bd * cd < bn * ad * cd,
            bn * cd * ad <= cn * bd * ad,
            bd > 0,
    ;
}

/// Every hit of every child, child by child.
pub open spec fn all_hits_of(cs: Seq<Resolver>, ray: Ray, refraction: bool) -> Seq<RayResult>
    decreases cs,
{
    if cs.len() == 0 {
        Seq::empty()
    } else {
        all_hits_of(cs.drop_last(), ray, refraction) + cs.last().all_hits_spec(ray, refraction)
    }
}

/// A hit parameter small enough to compare exactly.
pub open spec fn small_hit(r: Option<RayResult>) -> bool {
    r matches Some(h) ==> h.param.small()
}

impl Resolver {
    /// Every box well formed and within `BOX_LIMIT`, every triangle well formed.
    pub open spec fn wf(self) -> bool
        decreases self,
    {
        match self {
            Resolver::Bounded(b) => b.aabb.wf() && b.aabb.bounded() && b.inner.wf(),
            Resolver::Triangle(t) => t.triangle.wf(),
            Resolver::Multi(m) => all_wf(m.inner@),
            Resolver::Dummy(_) => true,
            Resolver::Marcher(m) => m.wf(),
        }
    }

    /// The hit of a ray, if any.
    pub open spec fn resolve_spec(self, ray: Ray, refraction: bool) -> Option<RayResult>
        decreases self,
    {
        match self {
            Resolver::Bounded(b) => match b.aabb.trace_spec(ray) {
                Some(t) => b.inner.resolve_spec(Ray { origin: ray.origin, dir: ray.dir, start: t }, refraction),
                None => None,
            },
            Resolver::Triangle(t) => triangle_result(t.triangle, ray),
            Resolver::Multi(m) => nearest_of(m.inner@, ray, refraction),
            Resolver::Dummy(_) => Some(dummy_result(ray)),
            Resolver::Marcher(m) => m.march_spec(ray, refraction, 0, m.max_steps as nat),
        }
    }

    /// Every crossing of a ray: a box passes on the crossings of its contents
    /// when the ray meets it, a group concatenates its children's crossings.
    pub open spec fn all_hits_spec(self, ray: Ray, refraction: bool) -> Seq<RayResult>
        decreases self,
    {
        match self {
            Resolver::Bounded(b) => match b.aabb.trace_spec(ray) {
                Some(t) => b.inner.all_hits_spec(Ray { origin: ray.origin, dir: ray.dir, start: t }, refraction),
                None => Seq::empty(),
            },
            Resolver::Triangle(t) => match triangle_result(t.triangle, ray) {
                Some(h) => seq![h],
                None => Seq::empty(),
            },
            Resolver::Multi(m) => all_hits_of(m.inner@, ray, refraction),
            Resolver::Dummy(_) => seq![dummy_result(ray)],
            Resolver::Marcher(m) => match m.march_spec(ray, refraction, 0, m.max_steps as nat) {
                Some(h) => seq![h],
                None => Seq::empty(),
            },
        }
    }

    /// Every crossing of the ray, unordered by distance; for callers that
    /// count crossings, such as a test of whether a point is inside a solid.
    pub fn resolve_all(&self, ray: &Ray, refraction: bool, scene: &SceneData) -> (r: Vec<RayResult>)
        requires
            self.wf(),
            ray.wf(),
        ensures
            r@ == self.all_hits_spec(*ray, refraction),
        decreases self,
    {
        match self {
            Resolver::Bounded(b) => match b.aabb.trace(ray) {
                Some(t) => {
                    let inner_ray = ray.with_start(t);
                    b.inner.resolve_all(&inner_ray, refraction, scene)
                },
                None => Vec::new(),
            },
            Resolver::Triangle(t) => match t.resolve(ray, refraction, scene) {
                Some(h) => vec![h],
                None => Vec::new(),
            },
            Resolver::Multi(m) => {
                let mut all: Vec<RayResult> = Vec::new();
                let mut i: usize = 0;
                while i < m.inner.len()
                    invariant
                        i <= m.inner@.len(),
                        *self == Resolver::Multi(*m),
                        self.wf(),
                        ray.wf(),
                        all@ == all_hits_of(m.inner@.subrange(0, i as int), *ray, refraction),
                    decreases m.inner@.len() - i,
                {
                    proof {
                        let pre = m.inner@.subrange(0, i as int + 1);
                        assert(pre.drop_last() == m.inner@.subrange(0, i as int));
                        assert(pre.last() == m.inner@[i as int]);
                        assert(decreases_to!(*self => self->Multi_0));
                        assert(decreases_to!(*m => m.inner));
                        assert(decreases_to!(m.inner => m.inner@));
                        assert(decreases_to!(m.inner@ => m.inner@[i as int]));
                        lemma_child_wf(*m, i as int);
                    }
                    let mut part = m.inner[i].resolve_all(ray, refraction, scene);
                    all.append(&mut part);
                    i = i + 1;
                }
                proof {
                    assert(m.inner@.subrange(0, m.inner@.len() as int) == m.inner@);
                }
                all
            },
            Resolver::Dummy(d) => vec![d.resolve(ray, refraction, scene)],
            Resolver::Marcher(m) => match m.resolve(ray, refraction, scene) {
                Some(h) => vec![h],
                None => Vec::new(),
            },
        }
    }

    /// Resolves a ray: the hit it makes, or `None` when it hits nothing.
    pub fn resolve(&self, ray: &Ray, refraction: bool, scene: &SceneData) -> (r: Option<RayResult>)
        requires
            self.wf(),
            ray.wf(),
        ensures
            r == self.resolve_spec(*ray, refraction),
            small_hit(r),
        decreases self,
    {
        match self {
            Resolver::Bounded(b) => b.resolve(ray, refraction, scene),
            Resolver::Triangle(t) => t.resolve(ray, refraction, scene),
            Resolver::Multi(m) => m.resolve(ray, refraction, scene),
            Resolver::Dummy(d) => Some(d.resolve(ray, refraction, scene)),
            Resolver::Marcher(m) => m.resolve(ray, refraction, scene),
        }
    }
}

impl AABBRayResolver {
    pub fn new(aabb: AABB, inner: Resolver) -> (r: Self)
        ensures
            r.aabb == aabb,
            *r.inner == inner,
    {
        AABBRayResolver { aabb, inner: Box::new(inner) }
    }

    /// Culls the ray against the box, then resolves it against the contents
    /// from the parameter where it meets the box.
    pub fn resolve(&self, ray: &Ray, refraction: bool, scene: &SceneData) -> (r: Option<RayResult>)
        requires
            Resolver::Bounded(*self).wf(),
            ray.wf(),
        ensures
            r == Resolver::Bounded(*self).resolve_spec(*ray, refraction),
            small_hit(r),
        decreases Resolver::Bounded(*self), 0nat,
    {
        match self.aabb.trace(ray) {
            Some(t) => {
                let inner_ray = ray.with_start(t);
                self.inner.resolve(&inner_ray, refraction, scene)
            },
            None => None,
        }
    }
}

impl TriangleResolver {
    /// The triangle's crossing, with its colour, normal, emission and material.
    pub fn resolve(&self, ray: &Ray, _refraction: bool, _scene: &SceneData) -> (r: Option<RayResult>)
        requires
            self.triangle.wf(),
            ray.wf(),
        ensures
            r == triangle_result(self.triangle, *ray),
            small_hit(r),
    {
        match self.triangle.trace(ray) {
            Some(h) => {
                proof {
                    let tri = self.triangle;
                    lemma_mt_bounds(tri.v0@, tri.v1@, tri.v2@, ray.origin@, ray.dir@, COORD_LIMIT as int);
                }
                Some(
                    RayResult::new(
                        h.pos,
                        h.param,
                        self.triangle.color,
                        self.triangle.normal,
                        self.triangle.emit,
                        self.triangle.t,
                    ),
                )
            },
            None => None,
        }
    }
}

impl MultiRayResolver {
    /// Resolves the ray against every child and keeps the hit of smallest ray
    /// parameter, which is the nearest along the ray; the first on ties.
    pub fn resolve(&self, ray: &Ray, refraction: bool, scene: &SceneData) -> (r: Option<RayResult>)
        requires
            Resolver::Multi(*self).wf(),
            ray.wf(),
        ensures
            r == nearest_of(self.inner@, *ray, refraction),
            small_hit(r),
        decreases Resolver::Multi(*self), 0nat,
    {
        let mut best: Option<RayResult> = None;
        let mut i: usize = 0;
        while i < self.inner.len()
            invariant
                i <= self.inner@.len(),
                Resolver::Multi(*self).wf(),
                ray.wf(),
                best == nearest_of(self.inner@.subrange(0, i as int), *ray, refraction),
                small_hit(best),
            decreases self.inner@.len() - i,
        {
            let ghost prefix = self.inner@.subrange(0, i as int + 1);
            assert(prefix.drop_last() == self.inner@.subrange(0, i as int));
            assert(prefix.last() == self.inner@[i as int]);
            proof {
                let whole = Resolver::Multi(*self);
                assert(decreases_to!(whole => whole->Multi_0));
                assert(whole->Multi_0 == *self);
                assert(decreases_to!(*self => self.inner));
                assert(decreases_to!(self.inner => self.inner@));
                assert(decreases_to!(self.inner@ => self.inner@[i as int]));
                lemma_child_wf(*self, i as int);
            }
            let cur = self.inner[i].resolve(ray, refraction, scene);
            best = match (best, cur) {
                (None, x) => x,
                (Some(p), None) => Some(p),
                (Some(p), Some(c)) => if c.param.lt(&p.param) {
                    Some(c)
                } else {
                    Some(p)
                },
            };
            i = i + 1;
        }
        assert(self.inner@.subrange(0, self.inner@.len() as int) == self.inner@);
        best
    }
}

proof fn lemma_child_wf(m: MultiRayResolver, i: int)
    requires
        Resolver::Multi(m).wf(),
        0 <= i < m.inner@.len(),
    ensures
        m.inner@[i].wf(),
{
    lemma_all_wf_index(m.inner@, i);
}

impl Dummy {
    pub fn resolve(&self, ray: &Ray, _refraction: bool, _scene: &SceneData) -> (r: RayResult)
        requires
            ray.wf(),
        ensures
            r == dummy_result(*ray),
            r.param.small(),
    {
        let pos = ray.point_at_param(ray.start);
        RayResult::new(
            pos,
            ray.start,
            Vector3::from_single(COLOR_ONE),
            Vector3::zero().subtract(ray.dir),
            Vector3::zero(),
            MaterialType::Diffuse,
        )
    }
}

} // verus!
