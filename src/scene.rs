use vstd::prelude::*;
use crate::vector::Vector3;

verus! {

/// What a render reads besides the geometry: the camera and the fog.
#[derive(Clone, Copy, Debug, PartialEq, Eq, Structural)]
pub struct SceneData {
    pub camera_position: Vector3,
    pub camera_target: Vector3,
    /// Mean free path of a ray in the fog, in scene units.
    pub fog_amount: u32,
    pub fog: bool,
}

impl SceneData {
    pub fn new(camera_position: Vector3, camera_target: Vector3, fog_amount: u32, fog: bool) -> (r: Self)
        ensures
            r == (SceneData { camera_position, camera_target, fog_amount, fog }),
    {
        SceneData { camera_position, camera_target, fog_amount, fog }
    }
}

} // verus!
