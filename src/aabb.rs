use vstd::prelude::*;
use crate::ray::{lemma_le_trans, Rational, Ray, START_LIMIT};
use crate::vector::{abs_int, Components, Vector3, COORD_LIMIT};

verus! {

/// Largest magnitude of a box corner coordinate that `AABB::trace` accepts:
/// twice `COORD_LIMIT`, room for the margins of the hierarchy's leaves.
pub const BOX_LIMIT: i64 = 131072;

/// An axis-aligned box `[min, max]`.
#[derive(Clone, Copy, Debug, PartialEq, Eq, Structural)]
pub struct AABB {
    pub min: Vector3,
    pub max: Vector3,
}

/// The parameters at which a ray lies between the two planes of one axis, or,
/// combined over axes, inside a box.
#[derive(Clone, Copy, Debug, PartialEq, Eq, Structural)]
pub enum Slab {
    /// Every parameter.
    Unbounded,
    /// No parameter.
    Empty,
    /// The parameters in `[lo, hi]`.
    Interval(Rational, Rational),
}

impl Slab {
    pub open spec fn contains(self, t: Rational) -> bool {
        match self {
            Slab::Unbounded => true,
            Slab::Empty => false,
            Slab::Interval(lo, hi) => lo.le_spec(t) && t.le_spec(hi),
        }
    }

    /// Positive denominators, `lo <= hi`, and small enough to compare.
    pub open spec fn ok(self) -> bool {
        match self {
            Slab::Interval(lo, hi) => {
                &&& lo.wf() && hi.wf() && lo.le_spec(hi)
                &&& 0 < lo.den <= COORD_LIMIT && 0 < hi.den <= COORD_LIMIT
                &&& abs_int(lo.num as int) <= 2 * BOX_LIMIT
                &&& abs_int(hi.num as int) <= 2 * BOX_LIMIT
            },
            _ => true,
        }
    }

    pub open spec fn combine_spec(self, o: Slab) -> Slab {
        match (self, o) {
            (Slab::Empty, _) => Slab::Empty,
            (_, Slab::Empty) => Slab::Empty,
            (Slab::Unbounded, x) => x,
            (x, Slab::Unbounded) => x,
            (Slab::Interval(l1, h1), Slab::Interval(l2, h2)) => {
                if h2.lt_spec(l1) || h1.lt_spec(l2) {
                    Slab::Empty
                } else {
                    Slab::Interval(
                        if l1.lt_spec(l2) {
                            l2
                        } else {
                            l1
                        },
                        if h2.lt_spec(h1) {
                            h2
                        } else {
                            h1
                        },
                    )
                }
            },
        }
    }

    /// The intersection of two slabs.
    pub fn combine(self, o: Slab) -> (r: Slab)
        requires
            self.ok(),
            o.ok(),
        ensures
            r == self.combine_spec(o),
            r.ok(),
    {
        match (self, o) {
            (Slab::Empty, _) => Slab::Empty,
            (_, Slab::Empty) => Slab::Empty,
            (Slab::Unbounded, x) => x,
            (x, Slab::Unbounded) => x,
            (Slab::Interval(l1, h1), Slab::Interval(l2, h2)) => {
                if h2.lt(&l1) || h1.lt(&l2) {
                    Slab::Empty
                } else {
                    let lo = if l1.lt(&l2) {
                        l2
                    } else {
                        l1
                    };
                    let hi = if h2.lt(&h1) {
                        h2
                    } else {
                        h1
                    };
                    proof {
                        lemma_combine_ok(self, o);
                    }
                    Slab::Interval(lo, hi)
                }
            },
        }
    }
}

impl AABB {
    /// `min <= max` on every axis.
    pub open spec fn wf(self) -> bool {
        self.min.x <= self.max.x && self.min.y <= self.max.y && self.min.z <= self.max.z
    }

    pub open spec fn contains_box(self, o: AABB) -> bool {
        self.min.x <= o.min.x && o.max.x <= self.max.x && self.min.y <= o.min.y && o.max.y
            <= self.max.y && self.min.z <= o.min.z && o.max.z <= self.max.z
    }

    /// The ray's point at parameter `t` lies between the box's planes of axis `c`.
    pub open spec fn axis_contains(self, ray: Ray, c: Components, t: Rational) -> bool {
        &&& self.min.component(c) * t.den <= ray.origin.component(c) * t.den
            + ray.dir.component(c) * t.num
        &&& ray.origin.component(c) * t.den + ray.dir.component(c) * t.num
            <= self.max.component(c) * t.den
    }

    /// The ray's point at parameter `t` lies in the box.
    pub open spec fn contains_at(self, ray: Ray, t: Rational) -> bool {
        &&& self.axis_contains(ray, Components::X, t)
        &&& self.axis_contains(ray, Components::Y, t)
        &&& self.axis_contains(ray, Components::Z, t)
    }

    /// The ray meets the box at or after its start parameter.
    pub open spec fn entered_by(self, ray: Ray) -> bool {
        exists|t: Rational| t.wf() && ray.start.le_spec(t) && #[trigger] self.contains_at(ray, t)
    }

    pub open spec fn axis_slab_spec(self, ray: Ray, c: Components) -> Slab {
        let lo = self.min.component(c);
        let hi = self.max.component(c);
        let o = ray.origin.component(c);
        let d = ray.dir.component(c);
        if d > 0 {
            Slab::Interval(
                Rational { num: (lo - o) as i128, den: d as i128 },
                Rational { num: (hi - o) as i128, den: d as i128 },
            )
        } else if d < 0 {
            Slab::Interval(
                Rational { num: (o - hi) as i128, den: -d as i128 },
                Rational { num: (o - lo) as i128, den: -d as i128 },
            )
        } else if lo <= o && o <= hi {
            Slab::Unbounded
        } else {
            Slab::Empty
        }
    }

    pub open spec fn box_slab(self, ray: Ray) -> Slab {
        self.axis_slab_spec(ray, Components::X).combine_spec(
            self.axis_slab_spec(ray, Components::Y),
        ).combine_spec(self.axis_slab_spec(ray, Components::Z))
    }

    /// The parameter at which a ray enters the box, or leaves it when the ray
    /// starts inside; none when the ray misses the box from its start onwards.
    pub open spec fn trace_spec(self, ray: Ray) -> Option<Rational> {
        match self.box_slab(ray) {
            Slab::Empty => None,
            Slab::Unbounded => Some(ray.start),
            Slab::Interval(lo, hi) => {
                if hi.lt_spec(ray.start) {
                    None
                } else if lo.lt_spec(ray.start) {
                    Some(hi)
                } else {
                    Some(lo)
                }
            },
        }
    }

    /// Within `BOX_LIMIT` on every axis.
    pub open spec fn bounded(self) -> bool {
        self.min.bounded(BOX_LIMIT as int) && self.max.bounded(BOX_LIMIT as int)
    }

    fn axis_slab(&self, ray: &Ray, c: Components) -> (r: Slab)
        requires
            self.wf(),
            self.bounded(),
            ray.wf(),
        ensures
            r == self.axis_slab_spec(*ray, c),
            r.ok(),
    {
        let lo = self.min.get_component(c);
        let hi = self.max.get_component(c);
        let o = ray.origin.get_component(c);
        let d = ray.dir.get_component(c);
        if d > 0 {
            let r = Slab::Interval(
                Rational { num: (lo - o) as i128, den: d as i128 },
                Rational { num: (hi - o) as i128, den: d as i128 },
            );
            proof {
                assert((lo - o) * d <= (hi - o) * d) by (nonlinear_arith)
                    requires
                        lo <= hi,
                        d > 0,
                ;
            }
            r
        } else if d < 0 {
            let r = Slab::Interval(
                Rational { num: (o - hi) as i128, den: -d as i128 },
                Rational { num: (o - lo) as i128, den: -d as i128 },
            );
            proof {
                assert((o - hi) * -d <= (o - lo) * -d) by (nonlinear_arith)
                    requires
                        lo <= hi,
                        d < 0,
                ;
            }
            r
        } else if lo <= o && o <= hi {
            Slab::Unbounded
        } else {
            Slab::Empty
        }
    }

    /// The slab test: the parameter at which the ray enters the box (or, when
    /// it starts inside, leaves it), or `None` when the ray's half-line from
    /// its start never meets the box.
    pub fn trace(&self, ray: &Ray) -> (r: Option<Rational>)
        requires
            self.wf(),
            self.bounded(),
            ray.wf(),
        ensures
            r == self.trace_spec(*ray),
            r.is_none() <==> !self.entered_by(*ray),
            r matches Some(t) ==> t.wf() && ray.start.le_spec(t) && self.contains_at(*ray, t),
            r matches Some(t) ==> 0 < t.den <= COORD_LIMIT && abs_int(t.num as int) <= START_LIMIT,
    {
        let sx = self.axis_slab(ray, Components::X);
        let sy = self.axis_slab(ray, Components::Y);
        let sz = self.axis_slab(ray, Components::Z);
        let s = sx.combine(sy).combine(sz);
        proof {
            lemma_trace_meaning(*self, *ray);
            lemma_axis_slab_ok(*self, *ray, Components::X);
            lemma_axis_slab_ok(*self, *ray, Components::Y);
            lemma_axis_slab_ok(*self, *ray, Components::Z);
        }
        match s {
            Slab::Empty => None,
            Slab::Unbounded => Some(ray.start),
            Slab::Interval(lo, hi) => {
                if hi.lt(&ray.start) {
                    None
                } else if lo.lt(&ray.start) {
                    Some(hi)
                } else {
                    Some(lo)
                }
            },
        }
    }

    pub open spec fn union_spec(self, other: AABB) -> AABB {
        AABB {
            min: Vector3 {
                x: if self.min.x <= other.min.x { self.min.x } else { other.min.x },
                y: if self.min.y <= other.min.y { self.min.y } else { other.min.y },
                z: if self.min.z <= other.min.z { self.min.z } else { other.min.z },
            },
            max: Vector3 {
                x: if self.max.x >= other.max.x { self.max.x } else { other.max.x },
                y: if self.max.y >= other.max.y { self.max.y } else { other.max.y },
                z: if self.max.z >= other.max.z { self.max.z } else { other.max.z },
            },
        }
    }

    /// The smallest box holding both boxes.
    pub fn union(&self, other: &AABB) -> (r: AABB)
        requires
            self.wf(),
            other.wf(),
        ensures
            r == self.union_spec(*other),
            r.wf(),
            r.contains_box(*self),
            r.contains_box(*other),
            r.min.x == (if self.min.x <= other.min.x { self.min.x } else { other.min.x }),
            r.min.y == (if self.min.y <= other.min.y { self.min.y } else { other.min.y }),
            r.min.z == (if self.min.z <= other.min.z { self.min.z } else { other.min.z }),
            r.max.x == (if self.max.x >= other.max.x { self.max.x } else { other.max.x }),
            r.max.y == (if self.max.y >= other.max.y { self.max.y } else { other.max.y }),
            r.max.z == (if self.max.z >= other.max.z { self.max.z } else { other.max.z }),
            *self == *other ==> r == *self,
    {
        AABB {
            min: Vector3 {
                x: if self.min.x <= other.min.x { self.min.x } else { other.min.x },
                y: if self.min.y <= other.min.y { self.min.y } else { other.min.y },
                z: if self.min.z <= other.min.z { self.min.z } else { other.min.z },
            },
            max: Vector3 {
                x: if self.max.x >= other.max.x { self.max.x } else { other.max.x },
                y: if self.max.y >= other.max.y { self.max.y } else { other.max.y },
                z: if self.max.z >= other.max.z { self.max.z } else { other.max.z },
            },
        }
    }
}

/// A slab of one axis holds exactly the parameters at which the ray lies
/// between that axis's planes.
proof fn lemma_axis_slab(b: AABB, ray: Ray, c: Components, t: Rational)
    requires
        b.wf(),
        b.bounded(),
        ray.wf(),
        t.wf(),
    ensures
        b.axis_slab_spec(ray, c).contains(t) <==> b.axis_contains(ray, c, t),
{
    let lo = b.min.component(c);
    let hi = b.max.component(c);
    let o = ray.origin.component(c);
    let d = ray.dir.component(c);
    let tn = t.num as int;
    let td = t.den as int;
    if d > 0 {
        assert((lo - o) * td <= tn * d <==> lo * td <= o * td + d * tn) by (nonlinear_arith);
        assert(tn * d <= (hi - o) * td <==> o * td + d * tn <= hi * td) by (nonlinear_arith);
        match b.axis_slab_spec(ray, c) {
            Slab::Interval(l, h) => {
                assert(l.num == lo - o && l.den == d);
                assert(h.num == hi - o && h.den == d);
            },
            _ => {},
        }
    } else if d < 0 {
        assert((o - hi) * td <= tn * -d <==> o * td + d * tn <= hi * td) by (nonlinear_arith);
        assert(tn * -d <= (o - lo) * td <==> lo * td <= o * td + d * tn) by (nonlinear_arith);
        match b.axis_slab_spec(ray, c) {
            Slab::Interval(l, h) => {
                assert(l.num == o - hi && l.den == -d);
                assert(h.num == o - lo && h.den == -d);
            },
            _ => {},
        }
    } else {
        assert(d * tn == 0) by (nonlinear_arith)
            requires
                d == 0,
        ;
        assert(lo * td <= o * td <==> lo <= o) by (nonlinear_arith)
            requires
                td > 0,
        ;
        assert(o * td <= hi * td <==> o <= hi) by (nonlinear_arith)
            requires
                td > 0,
        ;
    }
}

/// The intersection of two slabs holds exactly the parameters both hold.
proof fn lemma_combine(a: Slab, b: Slab, t: Rational)
    requires
        a.ok(),
        b.ok(),
        t.wf(),
    ensures
        a.combine_spec(b).contains(t) <==> a.contains(t) && b.contains(t),
{
    match (a, b) {
        (Slab::Interval(l1, h1), Slab::Interval(l2, h2)) => {
            if a.contains(t) && b.contains(t) {
                if h2.lt_spec(l1) {
                    lemma_le_trans(l1, t, h2);
                }
                if h1.lt_spec(l2) {
                    lemma_le_trans(l2, t, h1);
                }
            }
            if a.combine_spec(b).contains(t) {
                if l1.lt_spec(l2) {
                    lemma_le_trans(l1, l2, t);
                } else {
                    lemma_le_trans(l2, l1, t);
                }
                if h2.lt_spec(h1) {
                    lemma_le_trans(t, h2, h1);
                } else {
                    lemma_le_trans(t, h1, h2);
                }
            }
        },
        _ => {},
    }
}

proof fn lemma_box_slab(b: AABB, ray: Ray, t: Rational)
    requires
        b.wf(),
        b.bounded(),
        ray.wf(),
        t.wf(),
    ensures
        b.box_slab(ray).contains(t) <==> b.contains_at(ray, t),
        b.box_slab(ray).ok(),
{
    let sx = b.axis_slab_spec(ray, Components::X);
    let sy = b.axis_slab_spec(ray, Components::Y);
    let sz = b.axis_slab_spec(ray, Components::Z);
    lemma_axis_slab_ok(b, ray, Components::X);
    lemma_axis_slab_ok(b, ray, Components::Y);
    lemma_axis_slab_ok(b, ray, Components::Z);
    lemma_combine_ok(sx, sy);
    lemma_combine_ok(sx.combine_spec(sy), sz);
    lemma_axis_slab(b, ray, Components::X, t);
    lemma_axis_slab(b, ray, Components::Y, t);
    lemma_axis_slab(b, ray, Components::Z, t);
    lemma_combine(sx, sy, t);
    lemma_combine(sx.combine_spec(sy), sz, t);
}

proof fn lemma_axis_slab_ok(b: AABB, ray: Ray, c: Components)
    requires
        b.wf(),
        b.bounded(),
        ray.wf(),
    ensures
        b.axis_slab_spec(ray, c).ok(),
{
    let lo = b.min.component(c);
    let hi = b.max.component(c);
    let o = ray.origin.component(c);
    let d = ray.dir.component(c);
    if d > 0 {
        assert((lo - o) * d <= (hi - o) * d) by (nonlinear_arith)
            requires
                lo <= hi,
                d > 0,
        ;
    } else if d < 0 {
        assert((o - hi) * -d <= (o - lo) * -d) by (nonlinear_arith)
            requires
                lo <= hi,
                d < 0,
        ;
    }
}

proof fn lemma_combine_ok(a: Slab, b: Slab)
    requires
        a.ok(),
        b.ok(),
    ensures
        a.combine_spec(b).ok(),
{
}

/// The parameter the slab test returns can start a well-formed ray.
pub proof fn lemma_trace_bounds(b: AABB, ray: Ray)
    requires
        b.wf(),
        b.bounded(),
        ray.wf(),
    ensures
        b.trace_spec(ray) matches Some(t) ==> 0 < t.den <= COORD_LIMIT && abs_int(t.num as int) <= START_LIMIT,
{
    lemma_axis_slab_ok(b, ray, Components::X);
    lemma_axis_slab_ok(b, ray, Components::Y);
    lemma_axis_slab_ok(b, ray, Components::Z);
    lemma_combine_ok(b.axis_slab_spec(ray, Components::X), b.axis_slab_spec(ray, Components::Y));
    lemma_combine_ok(
        b.axis_slab_spec(ray, Components::X).combine_spec(b.axis_slab_spec(ray, Components::Y)),
        b.axis_slab_spec(ray, Components::Z),
    );
}

/// What the slab test decides: `None` exactly when no point of the ray at or
/// after its start lies in the box, and otherwise a parameter at or after the
/// start whose point lies in the box.
pub proof fn lemma_trace_meaning(b: AABB, ray: Ray)
    requires
        b.wf(),
        b.bounded(),
        ray.wf(),
    ensures
        b.trace_spec(ray).is_none() <==> !b.entered_by(ray),
        b.trace_spec(ray) matches Some(t) ==> t.wf() && ray.start.le_spec(t) && b.contains_at(
            ray,
            t,
        ),
{
    let s = ray.start;
    match b.trace_spec(ray) {
        Some(t) => {
            lemma_box_slab(b, ray, t);
            assert(b.contains_at(ray, t));
        },
        None => {
            if b.entered_by(ray) {
                let t = choose|t: Rational|
                    t.wf() && ray.start.le_spec(t) && #[trigger] b.contains_at(ray, t);
                lemma_box_slab(b, ray, t);
                match b.box_slab(ray) {
                    Slab::Interval(lo, hi) => {
                        lemma_le_trans(s, t, hi);
                    },
                    _ => {},
                }
            }
        },
    }
}

} // verus!
