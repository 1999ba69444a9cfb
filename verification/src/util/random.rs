//! Random numbers from the thread's generator.
use vstd::prelude::*;

verus! {

/// Calls `rand::Rng::random_range` on `rand::rng()` with `0..n`: some
/// index below `n`, which one left to chance. It panics on an empty range,
/// hence `n > 0`.
#[verifier::external_body]
pub(crate) fn random_index(n: usize) -> (r: usize)
    requires
        n > 0,
    ensures
        r < n,
{
    rand::Rng::random_range(&mut rand::rng(), 0..n)
}

/// Calls `rand::RngCore::next_u64` on `rand::rng()`: any `u64`, left to chance.
#[verifier::external_body]
pub(crate) fn random_u64() -> (r: u64) {
    rand::RngCore::next_u64(&mut rand::rng())
}

} // verus!
