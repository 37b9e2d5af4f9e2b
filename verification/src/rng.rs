//! Randomness, drawn from the `rand` crate's thread-local generator.

use vstd::prelude::*;

verus! {

#[verifier::external_type_specification]
#[verifier::external_body]
pub struct ExThreadRng(rand::rngs::ThreadRng);

/// Relies on rand's `RngExt::random_range` over the inclusive range
/// `lo..=hi`: it panics only on an empty range, and the sample lies
/// between the two endpoints. Nothing further is assumed of the value.
#[verifier::external_body]
pub(crate) fn sample_range(rng: &mut rand::rngs::ThreadRng, lo: i64, hi: i64) -> (r: i64)
    requires
        lo <= hi,
    ensures
        lo <= r <= hi,
{
    rand::RngExt::random_range(rng, lo..=hi)
}

} // verus!
