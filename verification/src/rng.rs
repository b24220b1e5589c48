//! The crate's two sources of randomness, behind trusted wrappers.
//!
//! Seeded generation is deterministic: the words drawn from a generator
//! seeded with `s` are a function of `s` alone, named `seeded_words(s)`.
//! Ambient randomness promises nothing about the values drawn.

use vstd::prelude::*;
use rand::{Rng, SeedableRng};
use crate::hyper::HV_WORDS;

verus! {

/// The words that a generator seeded with `seed` yields, one fixed sequence
/// per seed. What the sequence is on a given seed is not specified; that it
/// is always the same sequence is what matters.
pub uninterp spec fn seeded_words(seed: u64) -> Seq<u64>;

/// Relies on `rand::rngs::StdRng::seed_from_u64` and `rand::Rng::random`:
/// a generator seeded from a fixed seed yields a fixed word sequence, so the
/// result is a function of `seed` alone.
#[verifier::external_body]
pub fn seeded_vector(seed: u64) -> (r: Vec<u64>)
    ensures
        r@ == seeded_words(seed),
        r@.len() == HV_WORDS,
{
    let mut rng = rand::rngs::StdRng::seed_from_u64(seed);
    let mut words: Vec<u64> = Vec::with_capacity(HV_WORDS);
    for _ in 0..HV_WORDS {
        words.push(rng.random());
    }
    words
}

/// Relies on `rand::rng` and `rand::Rng::random` for ambient randomness;
/// nothing is assumed of the values, only how many words come back.
#[verifier::external_body]
pub fn random_vector() -> (r: Vec<u64>)
    ensures
        r@.len() == HV_WORDS,
{
    let mut rng = rand::rng();
    let mut words: Vec<u64> = Vec::with_capacity(HV_WORDS);
    for _ in 0..HV_WORDS {
        words.push(rng.random());
    }
    words
}

/// Relies on `rand::Rng::random_range` over `0..n`: the draw lies below `n`.
/// Which value comes back is not assumed.
#[verifier::external_body]
pub fn random_below(n: u64) -> (r: u64)
    requires
        n >= 1,
    ensures
        r < n,
{
    rand::rng().random_range(0..n)
}

} // verus!
