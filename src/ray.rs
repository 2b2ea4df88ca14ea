use vstd::prelude::*;
use crate::vector::{abs_int, Vector3, COORD_LIMIT};

verus! {

/// Largest magnitude of the numerator of a ray's start parameter.
pub const START_LIMIT: i128 = 1048576;

/// An exact fraction `num / den` with a positive denominator.
#[derive(Clone, Copy, Debug, PartialEq, Eq, Structural)]
pub struct Rational {
    pub num: i128,
    pub den: i128,
}

impl Rational {
    pub open spec fn wf(self) -> bool {
        self.den > 0
    }

    /// Small enough that cross-multiplying two such values stays exact.
    pub open spec fn small(self) -> bool {
        0 < self.den <= 0x4000_0000_0000_0000 && abs_int(self.num as int) <= 0x4000_0000_0000_0000
    }

    pub open spec fn le_spec(self, o: Rational) -> bool {
        self.num * o.den <= o.num * self.den
    }

    pub open spec fn lt_spec(self, o: Rational) -> bool {
        self.num * o.den < o.num * self.den
    }

    pub open spec fn eq_value(self, o: Rational) -> bool {
        self.num * o.den == o.num * self.den
    }

    /// `self <= o` as numbers.
    pub fn le(&self, o: &Rational) -> (r: bool)
        requires
            self.small(),
            o.small(),
        ensures
            r == self.le_spec(*o),
    {
        proof {
            let b: int = 0x4000_0000_0000_0000;
            crate::vector::lemma_mul_bound(self.num as int, o.den as int, b, b);
            crate::vector::lemma_mul_bound(o.num as int, self.den as int, b, b);
        }
        self.num * o.den <= o.num * self.den
    }

    /// `self < o` as numbers.
    pub fn lt(&self, o: &Rational) -> (r: bool)
        requires
            self.small(),
            o.small(),
        ensures
            r == self.lt_spec(*o),
    {
        proof {
            let b: int = 0x4000_0000_0000_0000;
            crate::vector::lemma_mul_bound(self.num as int, o.den as int, b, b);
            crate::vector::lemma_mul_bound(o.num as int, self.den as int, b, b);
        }
        self.num * o.den < o.num * self.den
    }
}

/// `a <= b` and `b <= c` give `a <= c`.
pub proof fn lemma_le_trans(a: Rational, b: Rational, c: Rational)
    requires
        a.wf(),
        b.wf(),
        c.wf(),
        a.le_spec(b),
        b.le_spec(c),
    ensures
        a.le_spec(c),
{
    let (an, ad, bn, bd, cn, cd) = (a.num as int, a.den as int, b.num as int, b.den as int, c.num as int, c.den as int);
    assert(an * bd * cd <= bn * ad * cd) by (nonlinear_arith)
        requires
            an * bd <= bn * ad,
            cd > 0,
    ;
    assert(bn * cd * ad <= cn * bd * ad) by (nonlinear_arith)
        requires
            bn * cd <= cn * bd,
            ad > 0,
    ;
    assert(an * cd <= cn * ad) by (nonlinear_arith)
        requires
            an * bd * cd <= bn * ad * cd,
            bn * cd * ad <= cn * bd * ad,
            bd > 0,
    ;
}

/// A point with rational coordinates `(x / w, y / w, z / w)`, `w > 0`.
#[derive(Clone, Copy, Debug, PartialEq, Eq, Structural)]
pub struct RationalPoint {
    pub x: i128,
    pub y: i128,
    pub z: i128,
    pub w: i128,
}

impl RationalPoint {
    /// Both name the same point of space.
    pub open spec fn same_point(self, o: RationalPoint) -> bool {
        self.x * o.w == o.x * self.w && self.y * o.w == o.y * self.w && self.z * o.w == o.z
            * self.w
    }
}

/// A ray `origin + t * dir`, traced from the parameter `start` onwards.
///
/// `start` is where the ray currently begins: a bounding box that forwards a
/// ray to its contents moves `start` to the point where the ray meets the box,
/// without leaving the lattice of `origin` and `dir`.
#[derive(Clone, Copy, Debug, PartialEq, Eq, Structural)]
pub struct Ray {
    pub origin: Vector3,
    pub dir: Vector3,
    pub start: Rational,
}

impl Ray {
    /// Origin and direction within `COORD_LIMIT`, and a start parameter whose
    /// numerator is within `START_LIMIT` and whose denominator is within
    /// `COORD_LIMIT`.
    pub open spec fn wf(self) -> bool {
        &&& self.origin.bounded(COORD_LIMIT as int)
        &&& self.dir.bounded(COORD_LIMIT as int)
        &&& 0 < self.start.den <= COORD_LIMIT
        &&& abs_int(self.start.num as int) <= START_LIMIT
    }

    /// The point at parameter `t`.
    pub open spec fn point_at(self, t: Rational) -> RationalPoint {
        RationalPoint {
            x: (self.origin.x * t.den + self.dir.x * t.num) as i128,
            y: (self.origin.y * t.den + self.dir.y * t.num) as i128,
            z: (self.origin.z * t.den + self.dir.z * t.num) as i128,
            w: t.den,
        }
    }

    /// A ray that starts at its origin.
    pub fn new(origin: Vector3, dir: Vector3) -> (r: Ray)
        ensures
            r.origin == origin,
            r.dir == dir,
            r.start == (Rational { num: 0, den: 1 }),
    {
        Ray { origin, dir, start: Rational { num: 0, den: 1 } }
    }

    /// The same ray, starting at parameter `start`.
    pub fn with_start(&self, start: Rational) -> (r: Ray)
        ensures
            r.origin == self.origin,
            r.dir == self.dir,
            r.start == start,
    {
        Ray { origin: self.origin, dir: self.dir, start }
    }

    /// The point at parameter `t`, exactly.
    pub fn point_at_param(&self, t: Rational) -> (r: RationalPoint)
        requires
            self.origin.bounded(COORD_LIMIT as int),
            self.dir.bounded(COORD_LIMIT as int),
            0 < t.den <= 0x1_0000_0000_0000_0000,
            abs_int(t.num as int) <= 0x1_0000_0000_0000_0000,
        ensures
            r == self.point_at(t),
    {
        proof {
            let c: int = COORD_LIMIT as int;
            let b: int = 0x1_0000_0000_0000_0000;
            crate::vector::lemma_mul_bound(self.origin.x as int, t.den as int, c, b);
            crate::vector::lemma_mul_bound(self.origin.y as int, t.den as int, c, b);
            crate::vector::lemma_mul_bound(self.origin.z as int, t.den as int, c, b);
            crate::vector::lemma_mul_bound(self.dir.x as int, t.num as int, c, b);
            crate::vector::lemma_mul_bound(self.dir.y as int, t.num as int, c, b);
            crate::vector::lemma_mul_bound(self.dir.z as int, t.num as int, c, b);
        }
        RationalPoint {
            x: (self.origin.x as i128) * t.den + (self.dir.x as i128) * t.num,
            y: (self.origin.y as i128) * t.den + (self.dir.y as i128) * t.num,
            z: (self.origin.z as i128) * t.den + (self.dir.z as i128) * t.num,
            w: t.den,
        }
    }
}

} // verus!
