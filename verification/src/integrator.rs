//! How the radiance of a path is settled, ray after ray: the decisions of
//! the integrator, without the colours.

use vstd::prelude::*;

verus! {

/// What a traced ray meets in the scene.
#[derive(Clone, Copy, Debug, PartialEq, Eq, Structural)]
pub enum Encounter {
    /// The ray leaves the scene without a hit.
    Nothing,
    /// The ray hits a material that emits and does not scatter.
    Source,
    /// The ray hits a material that scatters it.
    Surface,
}

/// How the radiance of a path is settled after one ray.
#[derive(Clone, Copy, Debug, PartialEq, Eq, Structural)]
pub enum Verdict {
    /// The path has no bounce left: it carries no light.
    Black,
    /// The path ends in the sky: it carries the background colour.
    Sky,
    /// The path ends on a source: it carries the emission of the source.
    Emission,
    /// The path goes on along the scattered ray with the depth given; what that
    /// ray carries is multiplied by the attenuation of the surface.
    Scatter { depth: i32 },
}

/// Where a path ends.
pub enum Terminal {
    Black,
    Sky,
    Emission,
}

/// The end of a whole path and the number of surfaces that scattered it on the way.
pub struct PathEnd {
    pub terminal: Terminal,
    pub bounces: nat,
}

/// The verdict on a ray traced at `depth` that met `met`.
pub open spec fn verdict_spec(depth: i32, met: Encounter) -> Verdict {
    if depth < 0 {
        Verdict::Black
    } else {
        match met {
            Encounter::Nothing => Verdict::Sky,
            Encounter::Source => Verdict::Emission,
            Encounter::Surface => Verdict::Scatter { depth: (depth - 1) as i32 },
        }
    }
}

/// The end of the path that starts at `depth` and whose rays meet
/// `encounters` one after the other. A path that runs out of encounters
/// carries no light.
pub open spec fn path_end(depth: i32, encounters: Seq<Encounter>) -> PathEnd
    decreases encounters.len(),
{
    if encounters.len() == 0 {
        PathEnd { terminal: Terminal::Black, bounces: 0 }
    } else {
        match verdict_spec(depth, encounters[0]) {
            Verdict::Black => PathEnd { terminal: Terminal::Black, bounces: 0 },
            Verdict::Sky => PathEnd { terminal: Terminal::Sky, bounces: 0 },
            Verdict::Emission => PathEnd { terminal: Terminal::Emission, bounces: 0 },
            Verdict::Scatter { depth: rest } => {
                let end = path_end(rest, encounters.skip(1));
                PathEnd { terminal: end.terminal, bounces: end.bounces + 1 }
            },
        }
    }
}

/// Whether the path has no bounce left, so that its ray need not be traced.
pub fn exhausted(depth: i32) -> (spent: bool)
    ensures
        spent == (depth < 0),
        spent ==> forall|met: Encounter| verdict_spec(depth, met) == Verdict::Black,
{
    depth < 0
}

/// Settles a ray traced at `depth`: black below depth 0; else the sky where it
/// met nothing, the emission where it met a source, and one more ray, at one
/// depth less, where a surface scattered it.
pub fn verdict(depth: i32, met: Encounter) -> (v: Verdict)
    ensures
        v == verdict_spec(depth, met),
{
    if depth < 0 {
        Verdict::Black
    } else {
        match met {
            Encounter::Nothing => Verdict::Sky,
            Encounter::Source => Verdict::Emission,
            Encounter::Surface => Verdict::Scatter { depth: depth - 1 },
        }
    }
}

/// A path that starts below depth 0 carries no light, whatever the scene holds.
pub proof fn lemma_spent_path_is_black(depth: i32, encounters: Seq<Encounter>)
    requires
        depth < 0,
    ensures
        path_end(depth, encounters).terminal == Terminal::Black,
        path_end(depth, encounters).bounces == 0,
{
}

/// A path that starts at depth 0 and is scattered by the first surface it
/// meets carries no light: at depth 0 light arrives only straight from the sky
/// or from a source.
pub proof fn lemma_depth_zero_scatter_is_black(encounters: Seq<Encounter>)
    requires
        encounters.len() > 0,
        encounters[0] == Encounter::Surface,
    ensures
        path_end(0, encounters).terminal == Terminal::Black,
        path_end(0, encounters).bounces == 1,
{
    lemma_spent_path_is_black(-1i32, encounters.skip(1));
}

/// A path that starts at a depth of 0 or more is scattered at most `depth + 1` times.
pub proof fn lemma_bounces_bounded(depth: i32, encounters: Seq<Encounter>)
    ensures
        path_end(depth, encounters).bounces <= if depth < 0 {
            0
        } else {
            depth + 1
        },
    decreases encounters.len(),
{
    if encounters.len() > 0 && depth >= 0 && encounters[0] == Encounter::Surface {
        lemma_bounces_bounded((depth - 1) as i32, encounters.skip(1));
    }
}

} // verus!
