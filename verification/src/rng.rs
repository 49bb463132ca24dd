//! Randomness, drawn from the `fastrand` crate behind trusted
//! declarations. Nothing is promised about the values beyond their range:
//! every caller is verified for every outcome.

use vstd::prelude::*;

verus! {

#[verifier::external_type_specification]
#[verifier::external_body]
pub struct ExRng(fastrand::Rng);

/// Relies on `fastrand::Rng::with_seed`: a deterministic generator built
/// from the given seed.
#[verifier::external_body]
pub fn rng_with_seed(seed: u64) -> (r: fastrand::Rng) {
    fastrand::Rng::with_seed(seed)
}

/// Relies on `fastrand::Rng::u64` over the range `0..n`: a value uniform in
/// `[0, n)`. The method panics only on an empty range, which `n >= 1` rules
/// out.
#[verifier::external_body]
pub fn rand_below(rng: &mut fastrand::Rng, n: u64) -> (r: u64)
    requires
        n >= 1,
    ensures
        r < n,
{
    rng.u64(0..n)
}

} // verus!
