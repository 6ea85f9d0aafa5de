//! Trusted boundary to the `rand` crate: the simulation's single
//! pseudo-random generator, passed explicitly to every stochastic system.

use vstd::prelude::*;

verus! {

#[verifier::external_type_specification]
#[verifier::external_body]
pub struct ExSmallRng(rand::rngs::SmallRng);

/// Relies on rand's `Rng::gen_range` over an integer range: a draw lies
/// in `[lo, hi)`. The call panics exactly on an empty range, which the
/// precondition rules out; which value comes back is never assumed.
#[verifier::external_body]
pub(crate) fn rand_range_i64(rng: &mut rand::rngs::SmallRng, lo: i64, hi: i64) -> (r: i64)
    requires
        lo < hi,
    ensures
        lo <= r < hi,
{
    rand::Rng::gen_range(rng, lo..hi)
}

} // verus!
