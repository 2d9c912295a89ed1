use vstd::prelude::*;

verus! {

/// Draws from `rand::Rng::gen_range` on the thread-local generator
/// `rand::thread_rng()`, over the half-open range `lo..hi` of `i32`.
/// The contract claims only that the value lies in the range (rand panics on
/// an empty range, which `requires` rules out); which value comes back is
/// left to chance.
#[verifier::external_body]
pub(crate) fn random_i32_in(lo: i32, hi: i32) -> (r: i32)
    requires
        lo < hi,
    ensures
        lo <= r < hi,
{
    rand::Rng::gen_range(&mut rand::thread_rng(), lo..hi)
}

/// Draws from `rand::Rng::gen_range` on the thread-local generator
/// `rand::thread_rng()`, over the half-open range `lo..hi` of `usize`.
/// The contract claims only that the value lies in the range (rand panics on
/// an empty range, which `requires` rules out); which value comes back is
/// left to chance.
#[verifier::external_body]
pub(crate) fn random_usize_in(lo: usize, hi: usize) -> (r: usize)
    requires
        lo < hi,
    ensures
        lo <= r < hi,
{
    rand::Rng::gen_range(&mut rand::thread_rng(), lo..hi)
}

} // verus!
