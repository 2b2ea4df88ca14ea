use vstd::prelude::*;

verus! {

/// Largest magnitude of a scene coordinate, a ray origin or a ray direction
/// component that the intersection routines accept.
pub const COORD_LIMIT: i64 = 65536;

/// One of the three axes.
#[derive(Clone, Copy, Debug, PartialEq, Eq, Structural)]
pub enum Components {
    X,
    Y,
    Z,
}

impl Components {
    pub open spec fn next_spec(self) -> Components {
        match self {
            Components::X => Components::Y,
            Components::Y => Components::Z,
            Components::Z => Components::X,
        }
    }

    /// The next axis in the round-robin order X, Y, Z, X, ...
    pub fn next(self) -> (r: Components)
        ensures
            r == self.next_spec(),
    {
        match self {
            Components::X => Components::Y,
            Components::Y => Components::Z,
            Components::Z => Components::X,
        }
    }
}

/// A 3-vector on the integer lattice.
#[derive(Clone, Copy, Debug, PartialEq, Eq, Structural)]
pub struct Vector3 {
    pub x: i64,
    pub y: i64,
    pub z: i64,
}

/// A vector of mathematical integers.
pub type IVec = (int, int, int);

pub open spec fn vadd(a: IVec, b: IVec) -> IVec {
    (a.0 + b.0, a.1 + b.1, a.2 + b.2)
}

pub open spec fn vsub(a: IVec, b: IVec) -> IVec {
    (a.0 - b.0, a.1 - b.1, a.2 - b.2)
}

pub open spec fn vscale(a: IVec, k: int) -> IVec {
    (a.0 * k, a.1 * k, a.2 * k)
}

pub open spec fn vdot(a: IVec, b: IVec) -> int {
    a.0 * b.0 + a.1 * b.1 + a.2 * b.2
}

pub open spec fn vcross(a: IVec, b: IVec) -> IVec {
    (a.1 * b.2 - a.2 * b.1, a.2 * b.0 - a.0 * b.2, a.0 * b.1 - a.1 * b.0)
}

/// Every component lies in `[-b, b]`.
pub open spec fn vbounded(a: IVec, b: int) -> bool {
    abs_int(a.0) <= b && abs_int(a.1) <= b && abs_int(a.2) <= b
}

pub open spec fn abs_int(a: int) -> int {
    if a < 0 {
        -a
    } else {
        a
    }
}

pub open spec fn fits_i64(a: int) -> bool {
    i64::MIN <= a <= i64::MAX
}

impl View for Vector3 {
    type V = IVec;

    open spec fn view(&self) -> IVec {
        (self.x as int, self.y as int, self.z as int)
    }
}

impl Vector3 {
    pub open spec fn component(self, c: Components) -> int {
        match c {
            Components::X => self.x as int,
            Components::Y => self.y as int,
            Components::Z => self.z as int,
        }
    }

    /// Every component lies in `[-b, b]`.
    pub open spec fn bounded(self, b: int) -> bool {
        vbounded(self@, b)
    }

    pub open spec fn is_zero(self) -> bool {
        self.x == 0 && self.y == 0 && self.z == 0
    }

    /// The axis of largest magnitude; ties go to the later axis, except that
    /// X wins over Y only when strictly larger.
    pub open spec fn largest_component_spec(self) -> Components {
        if abs_int(self.x as int) > abs_int(self.y as int) {
            if abs_int(self.x as int) > abs_int(self.z as int) {
                Components::X
            } else {
                Components::Z
            }
        } else {
            if abs_int(self.y as int) > abs_int(self.z as int) {
                Components::Y
            } else {
                Components::Z
            }
        }
    }

    pub fn new(x: i64, y: i64, z: i64) -> (r: Self)
        ensures
            r.x == x && r.y == y && r.z == z,
    {
        Vector3 { x, y, z }
    }

    pub fn zero() -> (r: Self)
        ensures
            r.is_zero(),
    {
        Vector3 { x: 0, y: 0, z: 0 }
    }

    /// The vector with all three components equal to `v`.
    pub fn from_single(v: i64) -> (r: Self)
        ensures
            r.x == v && r.y == v && r.z == v,
    {
        Vector3 { x: v, y: v, z: v }
    }

    pub fn get_component(&self, c: Components) -> (r: i64)
        ensures
            r == self.component(c),
    {
        match c {
            Components::X => self.x,
            Components::Y => self.y,
            Components::Z => self.z,
        }
    }

    pub fn add(&self, a: Self) -> (r: Self)
        requires
            fits_i64(self.x + a.x),
            fits_i64(self.y + a.y),
            fits_i64(self.z + a.z),
        ensures
            r@ == vadd(self@, a@),
    {
        Vector3 { x: self.x + a.x, y: self.y + a.y, z: self.z + a.z }
    }

    pub fn subtract(&self, a: Self) -> (r: Self)
        requires
            fits_i64(self.x - a.x),
            fits_i64(self.y - a.y),
            fits_i64(self.z - a.z),
        ensures
            r@ == vsub(self@, a@),
    {
        Vector3 { x: self.x - a.x, y: self.y - a.y, z: self.z - a.z }
    }

    pub fn add_scalar(&self, a: i64) -> (r: Self)
        requires
            fits_i64(self.x + a),
            fits_i64(self.y + a),
            fits_i64(self.z + a),
        ensures
            r.x == self.x + a && r.y == self.y + a && r.z == self.z + a,
    {
        Vector3 { x: self.x + a, y: self.y + a, z: self.z + a }
    }

    pub fn multiply(&self, s: i64) -> (r: Self)
        requires
            fits_i64(self.x * s),
            fits_i64(self.y * s),
            fits_i64(self.z * s),
        ensures
            r@ == vscale(self@, s as int),
    {
        Vector3 { x: self.x * s, y: self.y * s, z: self.z * s }
    }

    pub fn comp_multiply(&self, a: Self) -> (r: Self)
        requires
            fits_i64(self.x * a.x),
            fits_i64(self.y * a.y),
            fits_i64(self.z * a.z),
        ensures
            r.x == self.x * a.x && r.y == self.y * a.y && r.z == self.z * a.z,
    {
        Vector3 { x: self.x * a.x, y: self.y * a.y, z: self.z * a.z }
    }

    pub fn abs(&self) -> (r: Self)
        requires
            self.x != i64::MIN && self.y != i64::MIN && self.z != i64::MIN,
        ensures
            r.x == abs_int(self.x as int),
            r.y == abs_int(self.y as int),
            r.z == abs_int(self.z as int),
    {
        Vector3 {
            x: if self.x < 0 { -self.x } else { self.x },
            y: if self.y < 0 { -self.y } else { self.y },
            z: if self.z < 0 { -self.z } else { self.z },
        }
    }

    /// The dot product, exact in 128 bits.
    pub fn dot(&self, a: Self) -> (r: i128)
        requires
            self.bounded(0x4000_0000_0000_0000),
            a.bounded(0x4000_0000_0000_0000),
        ensures
            r == vdot(self@, a@),
    {
        proof {
            lemma_mul_bound(self.x as int, a.x as int, 0x4000_0000_0000_0000, 0x4000_0000_0000_0000);
            lemma_mul_bound(self.y as int, a.y as int, 0x4000_0000_0000_0000, 0x4000_0000_0000_0000);
            lemma_mul_bound(self.z as int, a.z as int, 0x4000_0000_0000_0000, 0x4000_0000_0000_0000);
        }
        (self.x as i128) * (a.x as i128) + (self.y as i128) * (a.y as i128) + (self.z as i128) * (
        a.z as i128)
    }

    pub fn length_squared(&self) -> (r: i128)
        requires
            self.bounded(0x4000_0000_0000_0000),
        ensures
            r == vdot(self@, self@),
            r >= 0,
    {
        proof {
            assert(self.x * self.x >= 0) by (nonlinear_arith);
            assert(self.y * self.y >= 0) by (nonlinear_arith);
            assert(self.z * self.z >= 0) by (nonlinear_arith);
        }
        self.dot(*self)
    }

    /// The cross product; components bounded by `2^30` keep it exact.
    pub fn cross(&self, a: Self) -> (r: Self)
        requires
            self.bounded(0x4000_0000),
            a.bounded(0x4000_0000),
        ensures
            r@ == vcross(self@, a@),
    {
        proof {
            let b: int = 0x4000_0000;
            lemma_mul_bound(self.y as int, a.z as int, b, b);
            lemma_mul_bound(self.z as int, a.y as int, b, b);
            lemma_mul_bound(self.z as int, a.x as int, b, b);
            lemma_mul_bound(self.x as int, a.z as int, b, b);
            lemma_mul_bound(self.x as int, a.y as int, b, b);
            lemma_mul_bound(self.y as int, a.x as int, b, b);
        }
        Vector3 {
            x: self.y * a.z - self.z * a.y,
            y: self.z * a.x - self.x * a.z,
            z: self.x * a.y - self.y * a.x,
        }
    }

    pub fn largest_component(&self) -> (r: Components)
        requires
            self.x != i64::MIN && self.y != i64::MIN && self.z != i64::MIN,
        ensures
            r == self.largest_component_spec(),
    {
        let a = self.abs();
        if a.x > a.y {
            if a.x > a.z {
                Components::X
            } else {
                Components::Z
            }
        } else {
            if a.y > a.z {
                Components::Y
            } else {
                Components::Z
            }
        }
    }

    /// The signed value of the component of largest magnitude.
    pub fn largest_component_value(&self) -> (r: i64)
        requires
            self.x != i64::MIN && self.y != i64::MIN && self.z != i64::MIN,
        ensures
            r == self.component(self.largest_component_spec()),
    {
        self.get_component(self.largest_component())
    }

    /// The vector that keeps only the component of largest magnitude.
    pub fn only_largest_component(&self) -> (r: Self)
        requires
            self.x != i64::MIN && self.y != i64::MIN && self.z != i64::MIN,
        ensures
            r.x == (if self.largest_component_spec() == Components::X { self.x } else { 0 }),
            r.y == (if self.largest_component_spec() == Components::Y { self.y } else { 0 }),
            r.z == (if self.largest_component_spec() == Components::Z { self.z } else { 0 }),
    {
        match self.largest_component() {
            Components::X => Vector3 { x: self.x, y: 0, z: 0 },
            Components::Y => Vector3 { x: 0, y: self.y, z: 0 },
            Components::Z => Vector3 { x: 0, y: 0, z: self.z },
        }
    }
}

/// `|a * b| <= ba * bb` whenever `|a| <= ba` and `|b| <= bb`.
pub proof fn lemma_mul_bound(a: int, b: int, ba: int, bb: int)
    requires
        abs_int(a) <= ba,
        abs_int(b) <= bb,
    ensures
        abs_int(a * b) <= ba * bb,
        -(ba * bb) <= a * b <= ba * bb,
{
    assert(abs_int(a * b) == abs_int(a) * abs_int(b)) by (nonlinear_arith);
    assert(abs_int(a) * abs_int(b) <= ba * bb) by (nonlinear_arith)
        requires
            0 <= abs_int(a) <= ba,
            0 <= abs_int(b) <= bb,
    ;
}

pub proof fn lemma_cross_bound(a: IVec, b: IVec, ba: int, bb: int)
    requires
        vbounded(a, ba),
        vbounded(b, bb),
    ensures
        vbounded(vcross(a, b), 2 * (ba * bb)),
{
    lemma_mul_bound(a.1, b.2, ba, bb);
    lemma_mul_bound(a.2, b.1, ba, bb);
    lemma_mul_bound(a.2, b.0, ba, bb);
    lemma_mul_bound(a.0, b.2, ba, bb);
    lemma_mul_bound(a.0, b.1, ba, bb);
    lemma_mul_bound(a.1, b.0, ba, bb);
}

pub proof fn lemma_dot_bound(a: IVec, b: IVec, ba: int, bb: int)
    requires
        vbounded(a, ba),
        vbounded(b, bb),
    ensures
        abs_int(vdot(a, b)) <= 3 * (ba * bb),
{
    lemma_mul_bound(a.0, b.0, ba, bb);
    lemma_mul_bound(a.1, b.1, ba, bb);
    lemma_mul_bound(a.2, b.2, ba, bb);
}

} // verus!
