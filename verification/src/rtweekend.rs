//! Random draws.

use rand::Rng;
use vstd::prelude::*;

verus! {

/// Draws an index from `min..=max` with `rand::Rng::gen_range` on the
/// generator of `rand::thread_rng`. Trusted: the draw lies in the closed
/// range; which value it is depends on the generator's state, so nothing
/// more is said. An empty range would make the call panic and is excluded.
#[verifier::external_body]
pub(crate) fn random_usize_range(min: usize, max: usize) -> (r: usize)
    requires
        min <= max,
    ensures
        min <= r <= max,
{
    rand::thread_rng().gen_range(min..=max)
}

} // verus!
