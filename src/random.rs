//! Draws from the thread-local generator of `rand`.
use vstd::prelude::*;

verus! {

/// Relies on `rand::Rng::random_range` with the generator of `rand::rng`: over the
/// half-open range `0..bound` it returns a value in that range, and it panics only
/// on an empty range, which `bound > 0` rules out.
#[verifier::external_body]
pub(crate) fn random_below(bound: usize) -> (r: usize)
    requires
        bound > 0,
    ensures
        r < bound,
{
    rand::Rng::random_range(&mut rand::rng(), 0..bound)
}

/// Relies on `rand::Rng::random` with the generator of `rand::rng`: a `u32` drawn
/// uniformly; nothing is known of its value.
#[verifier::external_body]
pub(crate) fn random_word() -> (r: u32) {
    rand::Rng::random::<u32>(&mut rand::rng())
}

} // verus!
