use rand::rngs::SmallRng;
use rand::seq::SliceRandom;
use rand::{Rng, SeedableRng};
use vstd::prelude::*;

verus! {

/// The fast, non-cryptographic generator of `rand`.
#[verifier::external_type_specification]
#[verifier::external_body]
pub struct ExSmallRng(SmallRng);

/// A fast generator seeded from the operating system.
///
/// Trusted: `rand::SeedableRng::from_entropy` for `rand::rngs::SmallRng`; the
/// seed is left to chance, so nothing is claimed of the generator.
#[verifier::external_body]
pub fn new_small_rng() -> (rng: SmallRng) {
    SmallRng::from_entropy()
}

/// Draws an index below `bound` from `rng`.
///
/// Trusted: `rand::Rng::gen_range` on the range `0..bound` returns a number in
/// that range (and advances the generator); which one is left to chance.
#[verifier::external_body]
pub fn random_index_from(rng: &mut SmallRng, bound: usize) -> (r: usize)
    requires
        bound > 0,
    ensures
        r < bound,
{
    rng.gen_range(0..bound)
}

/// Draws a number below `bound` from the thread's random number generator.
///
/// Trusted: `rand::Rng::gen_range` on the range `0..bound` (with the thread's
/// generator from `rand::thread_rng`) returns a number in that range; which
/// one is left to chance, so nothing more is claimed.
#[verifier::external_body]
pub fn random_below(bound: u8) -> (r: u8)
    requires
        bound > 0,
    ensures
        r < bound,
{
    rand::thread_rng().gen_range(0..bound)
}

/// Draws an index below `bound` from the thread's random number generator.
///
/// Trusted: `rand::Rng::gen_range` on the range `0..bound` returns a number in
/// that range; which one is left to chance.
#[verifier::external_body]
pub fn random_index(bound: usize) -> (r: usize)
    requires
        bound > 0,
    ensures
        r < bound,
{
    rand::thread_rng().gen_range(0..bound)
}

/// Puts the items of an array in a random order.
///
/// Trusted: `rand::seq::SliceRandom::shuffle` permutes the slice in place (a
/// Fisher-Yates shuffle), so the same items remain, each as often as before;
/// their order is left to chance.
#[verifier::external_body]
pub fn shuffle_in_place<T, const N: usize>(items: &mut [T; N])
    ensures
        final(items)@.to_multiset() == old(items)@.to_multiset(),
{
    items.shuffle(&mut rand::thread_rng())
}

} // verus!
