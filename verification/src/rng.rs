//! The random number source: fastrand's `Rng`, held behind trusted wrappers.
//! Nothing is assumed of a sample beyond its range; every function that
//! consumes one states what holds of every outcome.

use vstd::prelude::*;

verus! {

#[verifier::external_type_specification]
#[verifier::external_body]
pub struct ExRng(fastrand::Rng);

/// Relies on fastrand::Rng::with_seed: builds a generator from the seed and
/// nothing else is claimed of it.
#[verifier::external_body]
pub fn rng_with_seed(seed: u64) -> fastrand::Rng {
    fastrand::Rng::with_seed(seed)
}

/// Relies on fastrand::Rng::i128: a sample from the inclusive range, which
/// is nonempty because `lo <= hi`, so the call cannot panic.
#[verifier::external_body]
pub fn rng_in_range(rng: &mut fastrand::Rng, lo: i128, hi: i128) -> (r: i128)
    requires
        lo <= hi,
    ensures
        lo <= r <= hi,
{
    rng.i128(lo..=hi)
}

} // verus!
