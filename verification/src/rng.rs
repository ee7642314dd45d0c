//! The random source of the library: `rand`'s `StdRng`, reached through
//! three wrappers whose contracts Verus takes on trust.

use rand::rngs::StdRng;
use rand::Rng;
use rand::SeedableRng;
use vstd::prelude::*;

verus! {

#[verifier::external_type_specification]
#[verifier::external_body]
pub struct ExStdRng(StdRng);

/// Calls `StdRng::seed_from_u64`. The generator that comes back is opaque
/// to Verus, so nothing is claimed of it.
#[verifier::external_body]
pub(crate) fn seeded_rng(seed: u64) -> StdRng {
    StdRng::seed_from_u64(seed)
}

/// Calls `Rng::random_range` on the half-open range `0..bound`. The call
/// panics on an empty range, which the precondition rules out; what it
/// returns lies in the range. Which value comes back is left open.
#[verifier::external_body]
pub(crate) fn random_below(r: &mut StdRng, bound: usize) -> (k: usize)
    requires
        bound > 0,
    ensures
        k < bound,
{
    r.random_range(0..bound)
}

/// Calls `Rng::random_ratio`, which is `true` with a chance of `numerator`
/// in `denominator`. The call panics on a zero denominator and on a
/// numerator above it, which the precondition rules out. The two certain
/// cases are as `rand` documents them: always `true` for equal arguments,
/// always `false` for a zero numerator.
#[verifier::external_body]
pub(crate) fn random_chance(r: &mut StdRng, numerator: u32, denominator: u32) -> (hit: bool)
    requires
        denominator > 0,
        numerator <= denominator,
    ensures
        numerator == denominator ==> hit,
        numerator == 0 ==> !hit,
{
    r.random_ratio(numerator, denominator)
}

} // verus!
