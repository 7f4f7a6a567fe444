//! The random stream used by one simulation run.
//!
//! A run owns a single `SimRng`, seeded once; every random choice of the run
//! (pool shuffle, then the per-game per-agent decision and action draws, in
//! play order) consumes this one stream, so two runs over the same seed and
//! configuration see the same draws.  The generator itself comes from the
//! `rand` crate; its draws are opaque to verification, so every contract in
//! this library states what holds for every possible draw.

use vstd::prelude::*;
use crate::game::Game;

verus! {

#[verifier::external_type_specification]
#[verifier::external_body]
pub struct ExStdRng(rand::rngs::StdRng);

/// Relies on `rand::SeedableRng::seed_from_u64`: builds a deterministic
/// generator from a 64-bit seed.
#[verifier::external_body]
fn seed_std_rng(seed: u64) -> rand::rngs::StdRng {
    <rand::rngs::StdRng as rand::SeedableRng>::seed_from_u64(seed)
}

/// Relies on `rand::Rng::gen_range` over `0..n`: returns a value of the
/// non-empty range (it panics on an empty one, hence the precondition).
#[verifier::external_body]
fn std_rng_below(rng: &mut rand::rngs::StdRng, n: u64) -> (x: u64)
    requires
        n > 0,
    ensures
        x < n,
{
    rand::Rng::gen_range(rng, 0..n)
}

/// Relies on `rand::seq::SliceRandom::shuffle`: a Fisher-Yates pass built
/// from element swaps, so the slice afterwards holds the same elements.
#[verifier::external_body]
pub(crate) fn shuffle_games(v: &mut Vec<Game>, rng: &mut SimRng)
    ensures
        final(v)@.to_multiset() == old(v)@.to_multiset(),
        final(v)@.len() == old(v)@.len(),
{
    rand::seq::SliceRandom::shuffle(v.as_mut_slice(), &mut rng.inner)
}

/// The single random stream of a run.
pub struct SimRng {
    inner: rand::rngs::StdRng,
}

impl SimRng {
    /// A fresh stream for the given seed.
    pub fn new(seed: u64) -> SimRng {
        SimRng { inner: seed_std_rng(seed) }
    }

    /// One draw, uniform over `0..n`.
    pub fn draw_below(&mut self, n: u64) -> (x: u64)
        requires
            n > 0,
        ensures
            x < n,
    {
        std_rng_below(&mut self.inner, n)
    }
}

} // verus!
