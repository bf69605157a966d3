//! The random generators of the models: a seeded `StdRng` owned by the
//! segregation world, and the thread-local generator that the predation
//! model draws from. Nothing is promised of a draw's value but its range.

use vstd::prelude::*;
use krabmaga::rand::rngs::{StdRng, ThreadRng};
use krabmaga::rand::seq::SliceRandom;
use krabmaga::rand::{Rng, SeedableRng};

verus! {

#[verifier::external_type_specification]
#[verifier::external_body]
pub struct ExStdRng(StdRng);

#[verifier::external_type_specification]
#[verifier::external_body]
pub struct ExThreadRng(ThreadRng);

/// The generator that `StdRng::seed_from_u64` makes from a seed: the same
/// seed always gives the same generator.
pub uninterp spec fn seeded_rng(seed: u64) -> StdRng;

/// `StdRng::seed_from_u64`: the generator fixed by `seed`.
#[verifier::external_body]
pub(crate) fn std_rng_from_seed(seed: u64) -> (r: StdRng)
    ensures
        r == seeded_rng(seed),
{
    StdRng::seed_from_u64(seed)
}

/// `Rng::random_range(0..n)` on a `StdRng`: some index below `n`. The draw
/// takes at least one word from the generator's stream, so its position in
/// the stream, and with it the generator, moves on.
#[verifier::external_body]
pub(crate) fn std_rng_below(rng: &mut StdRng, n: usize) -> (r: usize)
    requires
        n > 0,
    ensures
        r < n,
        *final(rng) != *old(rng),
{
    rng.random_range(0..n)
}

/// `SliceRandom::shuffle` with a `StdRng`: the same ids in some order.
#[verifier::external_body]
pub(crate) fn std_rng_shuffle(rng: &mut StdRng, ids: &mut Vec<u32>)
    ensures
        final(ids)@.to_multiset() == old(ids)@.to_multiset(),
{
    ids.shuffle(rng)
}

/// `rand::rng`: the thread-local generator.
#[verifier::external_body]
pub(crate) fn thread_rng() -> (r: ThreadRng) {
    krabmaga::rand::rng()
}

/// `Rng::random_range(lo..=hi)` on `i32`: some value from `lo` to `hi`.
#[verifier::external_body]
pub(crate) fn thread_i32_between(rng: &mut ThreadRng, lo: i32, hi: i32) -> (r: i32)
    requires
        lo <= hi,
    ensures
        lo <= r <= hi,
{
    rng.random_range(lo..=hi)
}

/// `Rng::random_range(0..n)` on `i32`: some value from 0 to below `n`.
#[verifier::external_body]
pub(crate) fn thread_i32_below(rng: &mut ThreadRng, n: i32) -> (r: i32)
    requires
        n > 0,
    ensures
        0 <= r < n,
{
    rng.random_range(0..n)
}

/// `Rng::random_range(0..n)` on `usize`: some index below `n`.
#[verifier::external_body]
pub(crate) fn thread_usize_below(rng: &mut ThreadRng, n: usize) -> (r: usize)
    requires
        n > 0,
    ensures
        r < n,
{
    rng.random_range(0..n)
}

/// `Rng::random_range(lo..hi)` on `u16`: some value from `lo` to below `hi`.
#[verifier::external_body]
pub(crate) fn thread_u16_from_to(rng: &mut ThreadRng, lo: u16, hi: u16) -> (r: u16)
    requires
        lo < hi,
    ensures
        lo <= r < hi,
{
    rng.random_range(lo..hi)
}

/// `Rng::random_ratio(1, 2)`: a fair coin, drawn as `random_bool(0.5)` draws it.
#[verifier::external_body]
pub(crate) fn thread_coin(rng: &mut ThreadRng) -> (r: bool) {
    rng.random_ratio(1, 2)
}

} // verus!
