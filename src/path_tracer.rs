use vstd::prelude::*;
use crate::hit::RayResult;
use crate::ray::Ray;
use crate::resolver::Resolver;
use crate::scene::SceneData;

verus! {

/// The settings of a path tracer. Radiance, throughput and the sampling of
/// directions are carried by the caller; the tracer decides, bounce by
/// bounce, what becomes of a path.
#[derive(Debug)]
pub struct PathTracer {
    pub resolver: Resolver,
    /// Largest number of bounces of a path.
    pub bounces: u32,
    /// Paths averaged per pixel.
    pub samples: u32,
    /// Offset from a surface that keeps a new ray from hitting it again.
    pub epsilon: i64,
    /// Distance to the focal plane.
    pub depth_of_field: i64,
    /// Jitter the ray origin for depth of field.
    pub dof: bool,
}

/// Where a path stands: bounces taken, whether it travels inside a
/// refracting solid, and whether it has ended.
#[derive(Clone, Copy, Debug, PartialEq, Eq, Structural)]
pub struct PathState {
    pub bounce: u32,
    pub refraction: bool,
    pub done: bool,
}

/// What happened to the path's ray in one bounce.
#[derive(Clone, Copy, Debug, PartialEq, Eq, Structural)]
pub enum BounceEvent {
    /// The ray hit nothing.
    Miss,
    /// The ray hit a surface. `fog_first`: the sampled free flight in the fog
    /// ended before the surface. `dark`: after this surface the path's
    /// throughput is zero in every channel. `entering`: the outgoing direction
    /// points into the surface.
    Hit { fog_first: bool, dark: bool, entering: bool },
}

/// What the caller does next.
#[derive(Clone, Copy, Debug, PartialEq, Eq, Structural)]
pub enum BounceAction {
    /// The path ends; its radiance is what it has gathered.
    Stop,
    /// Move along the ray by the sampled free flight and continue in a random
    /// direction on the sphere.
    Scatter,
    /// Add the surface's emission times the throughput, then continue from
    /// the hit point moved by `offset` along the normal. With `stop_after`
    /// the path ends once the emission is added.
    Surface { offset: i64, stop_after: bool },
}

/// The step of a path, as a function of its state and the event.
pub open spec fn step_spec(
    bounces: u32,
    epsilon: int,
    fog: bool,
    s: PathState,
    e: BounceEvent,
) -> (PathState, BounceAction) {
    if s.done || s.bounce >= bounces {
        (PathState { done: true, ..s }, BounceAction::Stop)
    } else {
        let next = (s.bounce + 1) as u32;
        match e {
            BounceEvent::Miss => if fog {
                (PathState { bounce: next, done: next >= bounces, ..s }, BounceAction::Scatter)
            } else {
                (PathState { done: true, ..s }, BounceAction::Stop)
            },
            BounceEvent::Hit { fog_first, dark, entering } => if fog && fog_first {
                (PathState { bounce: next, done: next >= bounces, ..s }, BounceAction::Scatter)
            } else if dark {
                (
                    PathState { bounce: next, done: true, ..s },
                    BounceAction::Surface { offset: (2 * epsilon) as i64, stop_after: true },
                )
            } else if entering {
                (
                    PathState { bounce: next, refraction: !s.refraction, done: next >= bounces },
                    BounceAction::Surface { offset: (-2 * epsilon) as i64, stop_after: next >= bounces },
                )
            } else {
                (
                    PathState { bounce: next, done: next >= bounces, ..s },
                    BounceAction::Surface { offset: (2 * epsilon) as i64, stop_after: next >= bounces },
                )
            },
        }
    }
}

/// The action gathers emission.
pub open spec fn gathers(a: BounceAction) -> bool {
    a matches BounceAction::Surface { .. }
}

/// Runs the steps over a sequence of events; the number of actions that
/// gather emission.
pub open spec fn gathered(
    bounces: u32,
    epsilon: int,
    fog: bool,
    s: PathState,
    es: Seq<BounceEvent>,
) -> nat
    decreases es.len(),
{
    if es.len() == 0 {
        0
    } else {
        let (s2, a) = step_spec(bounces, epsilon, fog, s, es[0]);
        (if gathers(a) {
            1nat
        } else {
            0nat
        }) + gathered(bounces, epsilon, fog, s2, es.drop_first())
    }
}

impl PathTracer {
    /// `epsilon` is positive and small enough to double.
    pub open spec fn wf(self) -> bool {
        0 < self.epsilon <= 0x1000_0000 && self.resolver.wf()
    }

    /// The state of a new path: no bounce taken, outside every solid, and
    /// already ended when no bounce is allowed.
    pub fn begin(&self) -> (r: PathState)
        ensures
            r == (PathState { bounce: 0, refraction: false, done: self.bounces == 0 }),
    {
        PathState { bounce: 0, refraction: false, done: self.bounces == 0 }
    }

    /// Decides one bounce: ends the path on a miss without fog, on a dark
    /// throughput or when the bounce budget is spent; scatters in fog; at a
    /// surface, flips the refraction state and offsets the new origin below
    /// the surface when the outgoing ray enters it, above it otherwise.
    pub fn step(&self, s: PathState, e: BounceEvent, scene: &SceneData) -> (r: (PathState, BounceAction))
        requires
            self.wf(),
        ensures
            r == step_spec(self.bounces, self.epsilon as int, scene.fog, s, e),
    {
        if s.done || s.bounce >= self.bounces {
            return (PathState { done: true, ..s }, BounceAction::Stop);
        }
        let next = s.bounce + 1;
        match e {
            BounceEvent::Miss => if scene.fog {
                (PathState { bounce: next, done: next >= self.bounces, ..s }, BounceAction::Scatter)
            } else {
                (PathState { done: true, ..s }, BounceAction::Stop)
            },
            BounceEvent::Hit { fog_first, dark, entering } => if scene.fog && fog_first {
                (PathState { bounce: next, done: next >= self.bounces, ..s }, BounceAction::Scatter)
            } else if dark {
                (
                    PathState { bounce: next, done: true, ..s },
                    BounceAction::Surface { offset: 2 * self.epsilon, stop_after: true },
                )
            } else if entering {
                (
                    PathState { bounce: next, refraction: !s.refraction, done: next >= self.bounces },
                    BounceAction::Surface { offset: -2 * self.epsilon, stop_after: next >= self.bounces },
                )
            } else {
                (
                    PathState { bounce: next, done: next >= self.bounces, ..s },
                    BounceAction::Surface { offset: 2 * self.epsilon, stop_after: next >= self.bounces },
                )
            },
        }
    }

    /// Resolves the path's ray, inside or outside solids as the state says.
    pub fn resolve(&self, s: PathState, ray: &Ray, scene: &SceneData) -> (r: Option<RayResult>)
        requires
            self.wf(),
            ray.wf(),
        ensures
            r == self.resolver.resolve_spec(*ray, s.refraction),
    {
        self.resolver.resolve(ray, s.refraction, scene)
    }

    /// The output is unbounded radiance and needs tone mapping.
    pub fn needs_toneing() -> (r: bool)
        ensures
            r,
    {
        true
    }
}

/// A path gathers no emission when no bounce is allowed, nor when every
/// event is a miss with the fog off.
pub proof fn lemma_dark_paths(bounces: u32, epsilon: int, fog: bool, s: PathState, es: Seq<BounceEvent>)
    requires
        bounces == 0 || s.done || (!fog && forall|i: int| 0 <= i < es.len() ==> es[i] == BounceEvent::Miss),
    ensures
        gathered(bounces, epsilon, fog, s, es) == 0,
    decreases es.len(),
{
    if es.len() > 0 {
        let (s2, a) = step_spec(bounces, epsilon, fog, s, es[0]);
        if bounces == 0 || s.done {
            assert(s2.done);
        } else {
            assert(es[0] == BounceEvent::Miss);
            assert forall|i: int| 0 <= i < es.drop_first().len() implies es.drop_first()[i]
                == BounceEvent::Miss by {
                assert(es.drop_first()[i] == es[i + 1]);
            }
        }
        lemma_dark_paths(bounces, epsilon, fog, s2, es.drop_first());
    }
}

} // verus!
