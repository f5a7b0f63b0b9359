//! Pseudo-random number generation, threaded explicitly as a generator
//! value so that runs are reproducible from a seed.

use vstd::prelude::*;

verus! {

#[verifier::external_type_specification]
#[verifier::external_body]
pub struct ExPcg64Mcg(rand_pcg::Pcg64Mcg);

/// Relies on rand_pcg::Pcg64Mcg::seed_from_u64: builds a generator whose
/// stream is a fixed function of the seed.
#[verifier::external_body]
pub fn rng_from_seed(seed: u64) -> (rng: rand_pcg::Pcg64Mcg) {
    <rand_pcg::Pcg64Mcg as rand::SeedableRng>::seed_from_u64(seed)
}

/// Relies on rand::Rng::random_range on `lo..hi`: the sample always lies
/// in the given half-open range (the call panics on an empty range, which
/// the precondition rules out).
#[verifier::external_body]
pub fn rng_range(rng: &mut rand_pcg::Pcg64Mcg, lo: i64, hi: i64) -> (r: i64)
    requires
        lo < hi,
    ensures
        lo <= r < hi,
{
    rand::Rng::random_range(rng, lo..hi)
}

} // verus!
