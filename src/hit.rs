use vstd::prelude::*;
use crate::ray::{Rational, RationalPoint};
use crate::vector::Vector3;

verus! {

/// How a surface scatters the rays that reach it.
#[derive(Clone, Copy, Debug, PartialEq, Eq, Structural)]
pub enum MaterialType {
    /// Scatters into a random direction of the hemisphere around the normal.
    Diffuse,
    /// Mirrors the incoming direction.
    Reflective,
    /// Sends the ray on along the negated normal.
    Lens,
    /// Refracts with the given relative index of refraction, in thousandths.
    Glass(u32),
}

/// What a ray hit: where, at which ray parameter, and the surface there.
///
/// Colours and emission are in the integer units the scene was written in;
/// the normal is the surface's face direction and is not normalised.
#[derive(Clone, Copy, Debug, PartialEq, Eq, Structural)]
pub struct RayResult {
    pub pos: RationalPoint,
    pub param: Rational,
    pub color: Vector3,
    pub normal: Vector3,
    pub emit: Vector3,
    pub material: MaterialType,
}

impl RayResult {
    pub fn new(
        pos: RationalPoint,
        param: Rational,
        color: Vector3,
        normal: Vector3,
        emit: Vector3,
        material: MaterialType,
    ) -> (r: Self)
        ensures
            r == (RayResult { pos, param, color, normal, emit, material }),
    {
        RayResult { pos, param, color, normal, emit, material }
    }

    /// A diffuse, black hit at the origin, at parameter zero.
    pub fn empty() -> (r: Self)
        ensures
            r.pos == (RationalPoint { x: 0, y: 0, z: 0, w: 1 }),
            r.param == (Rational { num: 0, den: 1 }),
            r.color.is_zero() && r.normal.is_zero() && r.emit.is_zero(),
            r.material == MaterialType::Diffuse,
    {
        RayResult {
            pos: RationalPoint { x: 0, y: 0, z: 0, w: 1 },
            param: Rational { num: 0, den: 1 },
            color: Vector3::zero(),
            normal: Vector3::zero(),
            emit: Vector3::zero(),
            material: MaterialType::Diffuse,
        }
    }
}

} // verus!
