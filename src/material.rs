//! Decisions that the materials take on the results of their geometry.
use vstd::prelude::*;

verus! {

/// The ray that a dielectric sends on.
#[derive(Clone, Copy, Debug, PartialEq, Eq, Structural)]
pub enum Outgoing {
    Reflected,
    Refracted,
}

/// Which face of a dielectric's surface an incoming ray meets.
#[derive(Clone, Copy, Debug, PartialEq, Eq, Structural)]
pub enum Side {
    /// The ray enters the medium: its direction opposes the outward normal.
    Entering,
    /// The ray leaves the medium: its direction has a positive dot product
    /// with the outward normal, which is then flipped and the indices swapped.
    Exiting,
}

/// Whether a metal keeps its perturbed reflection. `dot` is the key of the
/// dot product of the scattered direction with the surface normal; the ray is
/// absorbed unless it leaves the surface.
pub fn metal_scatters(dot: i64) -> (r: bool)
    ensures
        r == (dot > 0),
        dot <= 0 ==> !r,
{
    dot > 0
}

/// The face of a dielectric that a ray meets. `dot` is the key of the dot
/// product of the incoming direction with the outward normal.
pub fn dielectric_side(dot: i64) -> (s: Side)
    ensures
        s == (if dot > 0 {
            Side::Exiting
        } else {
            Side::Entering
        }),
{
    if dot > 0 {
        Side::Exiting
    } else {
        Side::Entering
    }
}

/// The ray that a dielectric sends on. `discriminant` is the key of Snell's
/// discriminant, so a refracted ray exists exactly when it is positive;
/// `draw` is the key of a uniform draw from `[0, 1)` and `reflectance` the
/// key of the Schlick reflectance. The refracted ray is taken when it exists
/// and the draw is at least the reflectance, the mirror reflection otherwise.
pub fn dielectric_outgoing(discriminant: i64, draw: i64, reflectance: i64) -> (o: Outgoing)
    ensures
        o == (if discriminant > 0 && draw >= reflectance {
            Outgoing::Refracted
        } else {
            Outgoing::Reflected
        }),
        discriminant <= 0 ==> o == Outgoing::Reflected,
{
    if discriminant > 0 && draw >= reflectance {
        Outgoing::Refracted
    } else {
        Outgoing::Reflected
    }
}

} // verus!
