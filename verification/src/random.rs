//! Chance, as far as the game needs it.

use rand::Rng;
use vstd::prelude::*;

verus! {

/// Draws an integer from `0..bound`.
///
/// Trusted, not proved: the body calls `rand::Rng::gen_range` with the range `0..bound` on
/// the generator that `rand::thread_rng` hands out, and the contract claims of it only
/// that the number drawn lies in that range. Which number it is depends on chance; two
/// calls may differ. `gen_range` panics on an empty range, so `bound` must be positive.
/// `thread_rng` panics where the operating system has no seed to give it, which nothing
/// asked of `bound` can rule out.
#[verifier::external_body]
pub(crate) fn random_below(bound: i32) -> (r: i32)
    requires
        bound >= 1,
    ensures
        0 <= r < bound,
{
    rand::thread_rng().gen_range(0..bound)
}

} // verus!
