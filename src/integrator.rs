//! The bounce policy of the light-transport integrator.
use vstd::prelude::*;

verus! {

/// The number of scattering events after which a path is cut off.
pub const MAX_BOUNCES: u32 = 12;

/// What the integrator does after querying the scene with a path's ray.
#[derive(Clone, Copy, Debug, PartialEq, Eq, Structural)]
pub enum Step {
    /// The ray escaped: the path ends in the background colour.
    Sky,
    /// The ray hit a surface within the bounce budget: scatter it.
    Scatter,
    /// The path ends without light.
    Black,
}

/// The step taken at bounce `depth`: the background on a miss, a scatter
/// on a hit while the budget lasts, black once it is spent.
pub open spec fn step_of(depth: nat, hit: bool) -> Step {
    if !hit {
        Step::Sky
    } else if depth < MAX_BOUNCES {
        Step::Scatter
    } else {
        Step::Black
    }
}

/// Decides what follows a scene query made at bounce `depth`.
pub fn on_query(depth: u32, hit: bool) -> (s: Step)
    ensures
        s == step_of(depth as nat, hit),
        s == Step::Scatter ==> depth < MAX_BOUNCES,
{
    if !hit {
        Step::Sky
    } else if depth < MAX_BOUNCES {
        Step::Scatter
    } else {
        Step::Black
    }
}

/// Decides what follows a scatter at bounce `depth`: the path goes on at the
/// next bounce when the material sent a ray on, and ends black when it
/// absorbed the ray.
pub fn on_scatter(depth: u32, scattered: bool) -> (next: Option<u32>)
    requires
        depth < MAX_BOUNCES,
    ensures
        next == (if scattered {
            Some((depth + 1) as u32)
        } else {
            None
        }),
        next matches Some(d) ==> d <= MAX_BOUNCES,
{
    if scattered {
        Some(depth + 1)
    } else {
        None
    }
}

/// The number of scatters along a path that starts at bounce `depth` and
/// follows the policy: `hits[k]` tells whether the `k`-th query hit a surface
/// and `sent[k]` whether the material then sent a ray on.
pub open spec fn scatters(depth: nat, hits: Seq<bool>, sent: Seq<bool>) -> nat
    decreases hits.len(),
{
    if hits.len() == 0 || step_of(depth, hits[0]) != Step::Scatter {
        0
    } else if sent.len() == 0 || !sent[0] {
        1
    } else {
        1 + scatters(depth + 1, hits.drop_first(), sent.drop_first())
    }
}

/// Recursion is bounded: whatever the scene and the materials do, a path that
/// starts at bounce `depth` scatters at most `MAX_BOUNCES - depth` times.
pub proof fn lemma_bounces_bounded(depth: nat, hits: Seq<bool>, sent: Seq<bool>)
    requires
        depth <= MAX_BOUNCES,
    ensures
        scatters(depth, hits, sent) <= MAX_BOUNCES - depth,
    decreases hits.len(),
{
    if hits.len() > 0 && step_of(depth, hits[0]) == Step::Scatter && sent.len() > 0 && sent[0] {
        lemma_bounces_bounded(depth + 1, hits.drop_first(), sent.drop_first());
    }
}

} // verus!
