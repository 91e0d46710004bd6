//! The decisions of the path integrator.
//!
//! The colour along a ray is black once the bounce budget is used up, the
//! background where the ray meets nothing, the surface's own emission where
//! the surface absorbs the ray, and else that emission plus the attenuated
//! colour along the scattered ray, which has one bounce less to spend.

use vstd::prelude::*;

verus! {

/// What a ray met.
#[derive(Clone, Copy, Debug, PartialEq, Eq, Structural)]
pub enum Encounter {
    /// No surface.
    Miss,
    /// A surface that does not scatter the ray.
    Absorbed,
    /// A surface that scatters the ray.
    Scattered,
}

/// How the colour along a ray is made up.
#[derive(Clone, Copy, Debug, PartialEq, Eq, Structural)]
pub enum Radiance {
    /// No light.
    Black,
    /// The background colour.
    Background,
    /// What the surface emits.
    Emitted,
    /// What the surface emits, plus the attenuated colour along the
    /// scattered ray, which is to be traced with the budget `depth`.
    EmittedAndScattered { depth: u8 },
}

pub open spec fn spec_ray_color(depth: u8, met: Encounter) -> Radiance {
    if depth == 0 {
        Radiance::Black
    } else {
        match met {
            Encounter::Miss => Radiance::Background,
            Encounter::Absorbed => Radiance::Emitted,
            Encounter::Scattered => Radiance::EmittedAndScattered { depth: (depth - 1) as u8 },
        }
    }
}

/// Says how the colour along a ray with the bounce budget `depth` is made
/// up, given what the ray met. With no budget left the answer is black
/// whatever the ray met.
pub fn ray_color(depth: u8, met: Encounter) -> (r: Radiance)
    ensures
        r == spec_ray_color(depth, met),
{
    if depth == 0 {
        return Radiance::Black;
    }
    match met {
        Encounter::Miss => Radiance::Background,
        Encounter::Absorbed => Radiance::Emitted,
        Encounter::Scattered => Radiance::EmittedAndScattered { depth: depth - 1 },
    }
}

/// The number of times that a path is scattered before it ends, where the
/// ray after `k` bounces meets `met(k)`.
pub open spec fn spec_bounces(depth: u8, k: nat, met: spec_fn(nat) -> Encounter) -> nat
    decreases depth,
{
    match spec_ray_color(depth, met(k)) {
        Radiance::EmittedAndScattered { depth: rest } => 1 + spec_bounces(rest, k + 1, met),
        _ => 0,
    }
}

/// A path never bounces more often than its budget allows, whatever it
/// meets.
pub proof fn lemma_bounces_within_budget(depth: u8, k: nat, met: spec_fn(nat) -> Encounter)
    ensures
        spec_bounces(depth, k, met) <= depth,
    decreases depth,
{
    if depth > 0 {
        match spec_ray_color(depth, met(k)) {
            Radiance::EmittedAndScattered { depth: rest } => {
                lemma_bounces_within_budget(rest, k + 1, met);
            },
            _ => {},
        }
    }
}

/// Where no surface scatters, no colour is a sum: a ray gives the
/// background or what the surface that it met emits (or black, with no
/// budget), and the path ends with it.
pub proof fn lemma_lights_only(depth: u8, k: nat, met: spec_fn(nat) -> Encounter)
    requires
        met(k) != Encounter::Scattered,
    ensures
        spec_ray_color(depth, met(k)) == Radiance::Black || spec_ray_color(depth, met(k))
            == Radiance::Background || spec_ray_color(depth, met(k)) == Radiance::Emitted,
        depth > 0 ==> spec_ray_color(depth, met(k)) != Radiance::Black,
        spec_bounces(depth, k, met) == 0,
{
}

} // verus!
