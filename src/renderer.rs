use vstd::prelude::*;
use crate::hit::RayResult;
use crate::ray::Ray;
use crate::resolver::Resolver;
use crate::scene::SceneData;
use crate::vector::Vector3;

verus! {

/// Direct lighting of the first hit; the shading itself is done by the caller
/// on the hit this renderer finds.
#[derive(Debug)]
pub struct BasicRenderer {
    pub resolver: Resolver,
}

impl BasicRenderer {
    /// The first hit of a camera ray, outside every solid.
    pub fn primary_hit(&self, ray: &Ray, scene: &SceneData) -> (r: Option<RayResult>)
        requires
            self.resolver.wf(),
            ray.wf(),
        ensures
            r == self.resolver.resolve_spec(*ray, false),
    {
        self.resolver.resolve(ray, false, scene)
    }

    /// Direct lighting stays in range and needs no tone mapping.
    pub fn needs_toneing() -> (r: bool)
        ensures
            !r,
    {
        false
    }
}

/// Shows the surface normal of the first hit.
#[derive(Debug)]
pub struct NormalRenderer {
    pub resolver: Resolver,
}

impl NormalRenderer {
    /// The normal at the first hit, or the zero vector on a miss.
    pub fn render(&self, ray: &Ray, scene: &SceneData) -> (r: Vector3)
        requires
            self.resolver.wf(),
            ray.wf(),
        ensures
            r == (match self.resolver.resolve_spec(*ray, false) {
                Some(h) => h.normal,
                None => Vector3 { x: 0, y: 0, z: 0 },
            }),
    {
        match self.resolver.resolve(ray, false, scene) {
            Some(h) => h.normal,
            None => Vector3::zero(),
        }
    }

    pub fn needs_toneing() -> (r: bool)
        ensures
            r,
    {
        true
    }
}

/// Light through a participating solid; the integration is done by the
/// caller, which asks this renderer whether a point lies inside the solid.
#[derive(Debug)]
pub struct VolumetricRenderer {
    pub resolver: Resolver,
    pub lamp: Vector3,
    pub divisions: usize,
    /// Extinction per scene unit, in thousandths.
    pub density: u32,
}

impl VolumetricRenderer {
    /// A probe's start lies inside the solid when the probe crosses its
    /// surface an odd number of times.
    pub fn is_inside(&self, probe: &Ray, scene: &SceneData) -> (r: bool)
        requires
            self.resolver.wf(),
            probe.wf(),
        ensures
            r == (self.resolver.all_hits_spec(*probe, false).len() % 2 == 1),
    {
        let hits = self.resolver.resolve_all(probe, false, scene);
        hits.len() % 2 == 1
    }

    pub fn needs_toneing() -> (r: bool)
        ensures
            r,
    {
        true
    }
}

} // verus!
