//! The settings that bound the work of a render, and the rule by which a
//! light path goes on or ends.
//!
//! A path starts with a camera ray and a number of bounces that it may take.
//! Each ray is cast into the scene; what it meets decides whether the path
//! ends in darkness, ends in the background, or goes on along a scattered ray
//! with one bounce fewer. Casting the rays is the caller's work: this module
//! only decides.

use vstd::prelude::*;

verus! {

/// How many rays are averaged into each pixel, and how often a ray may
/// scatter before it counts as absorbed.
pub struct Renderer {
    /// The number of jittered rays drawn through each pixel.
    pub samples_per_pixel: u32,
    /// The number of bounces after which a ray contributes no light.
    pub max_depth: u32,
}

/// What a ray met when it was cast into the scene.
#[derive(Clone, Copy, Debug, PartialEq, Eq, Structural)]
pub enum Encounter {
    /// The ray left the scene without hitting a surface.
    Missed,
    /// The ray hit a surface that absorbed it.
    Absorbed,
    /// The ray hit a surface that scattered it.
    Scattered,
}

/// What becomes of a path after one of its rays was cast.
#[derive(Clone, Copy, Debug, PartialEq, Eq, Structural)]
pub enum PathStep {
    /// The path ends and brings no light.
    Black,
    /// The path ends in the background and brings its colour, attenuated by
    /// the surfaces it has scattered off.
    Background,
    /// The path goes on along the scattered ray, which may take `depth` more
    /// bounces.
    Follow { depth: u32 },
}

/// How a path ended.
#[derive(Clone, Copy, Debug, PartialEq, Eq, Structural)]
pub enum PathEnd {
    /// In darkness: absorbed by a surface, or out of bounces.
    Black,
    /// In the background.
    Background,
}

/// The step after a ray with `depth` bounces left met `encounter`. A path
/// without a bounce left brings no light, whatever its ray would meet.
pub open spec fn step_of(depth: u32, encounter: Encounter) -> PathStep {
    if depth == 0 {
        PathStep::Black
    } else {
        match encounter {
            Encounter::Missed => PathStep::Background,
            Encounter::Absorbed => PathStep::Black,
            Encounter::Scattered => PathStep::Follow { depth: (depth - 1) as u32 },
        }
    }
}

/// How a path with `depth` bounces left ends, where its rays meet
/// `encounters` one after the other. A path whose encounters run out while
/// it could still go on is taken to leave the scene.
pub open spec fn path_end(depth: u32, encounters: Seq<Encounter>) -> PathEnd
    decreases depth,
{
    if depth == 0 {
        PathEnd::Black
    } else if encounters.len() == 0 {
        PathEnd::Background
    } else {
        match step_of(depth, encounters.first()) {
            PathStep::Black => PathEnd::Black,
            PathStep::Background => PathEnd::Background,
            PathStep::Follow { depth: rest } => path_end(rest, encounters.drop_first()),
        }
    }
}

/// The number of rays that are cast along a path with `depth` bounces left,
/// where its rays meet `encounters` one after the other.
pub open spec fn rays_cast(depth: u32, encounters: Seq<Encounter>) -> nat
    decreases depth,
{
    if depth == 0 || encounters.len() == 0 {
        0
    } else {
        match step_of(depth, encounters.first()) {
            PathStep::Follow { depth: rest } => 1 + rays_cast(rest, encounters.drop_first()),
            _ => 1,
        }
    }
}

/// The number of bounces is the only bound on the work for one path, and it
/// holds: whatever the rays meet, no more rays are cast than the path had
/// bounces.
pub proof fn lemma_path_is_bounded(depth: u32, encounters: Seq<Encounter>)
    ensures
        rays_cast(depth, encounters) <= depth,
    decreases depth,
{
    if depth > 0 && encounters.len() > 0 {
        if encounters.first() == Encounter::Scattered {
            lemma_path_is_bounded((depth - 1) as u32, encounters.drop_first());
        }
    }
}

/// A path that scatters at every surface runs out of bounces and ends in
/// darkness: running out is an ordinary end, not a failure.
pub proof fn lemma_scattering_forever_ends_black(depth: u32, encounters: Seq<Encounter>)
    requires
        encounters.len() >= depth,
        forall|i: int| 0 <= i < depth ==> encounters[i] == Encounter::Scattered,
    ensures
        path_end(depth, encounters) == PathEnd::Black,
        rays_cast(depth, encounters) == depth,
    decreases depth,
{
    if depth > 0 {
        let rest = encounters.drop_first();
        assert forall|i: int| 0 <= i < depth - 1 implies rest[i] == Encounter::Scattered by {
            assert(rest[i] == encounters[i + 1]);
        }
        lemma_scattering_forever_ends_black((depth - 1) as u32, rest);
    }
}

impl Renderer {
    /// The settings of a render.
    pub fn new(samples_per_pixel: u32, max_depth: u32) -> (renderer: Self)
        ensures
            renderer.samples_per_pixel == samples_per_pixel,
            renderer.max_depth == max_depth,
    {
        Self { samples_per_pixel, max_depth }
    }

    /// Whether a path with `depth` bounces left has ended in darkness before
    /// its next ray is cast.
    pub fn exhausted(depth: u32) -> (ended: bool)
        ensures
            ended == (depth == 0),
    {
        depth == 0
    }

    /// What becomes of a path after its ray, with `depth` bounces left, met
    /// `encounter`.
    pub fn step(depth: u32, encounter: Encounter) -> (next: PathStep)
        ensures
            next == step_of(depth, encounter),
    {
        if depth == 0 {
            return PathStep::Black;
        }
        match encounter {
            Encounter::Missed => PathStep::Background,
            Encounter::Absorbed => PathStep::Black,
            Encounter::Scattered => PathStep::Follow { depth: depth - 1 },
        }
    }
}

} // verus!
