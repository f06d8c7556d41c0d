//! Random big integers.

use vstd::prelude::*;
use rand::Rng;
use rand::rngs::ThreadRng;
use crate::biginteger::BigInteger;
use crate::value::{
    weight, words_value, lemma_value_bound, lemma_value_frame, lemma_value_zero_upper,
};

verus! {

/// The thread-local generator of the `rand` crate. Nothing is known of what
/// it holds.
#[verifier::external_type_specification]
#[verifier::external_body]
pub struct ExThreadRng(ThreadRng);

/// Draws 33 words with `rand::Rng::fill`, called on a slice of 33 words that
/// start as zero. Nothing is claimed of the words that come back: each call
/// may return any array. On a `ThreadRng` the call does not fail: the
/// generator goes on with its old state where it cannot be reseeded.
#[verifier::external_body]
fn fill_words(rng: &mut ThreadRng) -> (words: [u64; 33]) {
    let mut input = [0u64; 33];
    rng.fill(&mut input[..]);
    input
}

impl BigInteger {
    /// Makes a big integer below 2^2048 of 33 words from a source of
    /// randomness: the words are kept, but for the most significant one,
    /// which becomes zero.
    pub fn from_random_words(words: [u64; 33]) -> (r: BigInteger)
        ensures
            r.0[32] == 0,
            forall|j: int| 0 <= j < 32 ==> r.0[j] == words[j],
            r.value() < weight(32),
            r.value() == words_value(words@, 32),
    {
        let mut input = words;
        input[32] = 0u64;
        let r = BigInteger(input);
        proof {
            lemma_value_zero_upper(r.0@, 32, 33);
            lemma_value_frame(r.0@, words@, 32);
            lemma_value_bound(words@, 32);
        }
        r
    }

    /// A random big integer below 2^2048: 33 words drawn from `rng`, with
    /// the most significant one set to zero.
    pub fn rand(rng: &mut ThreadRng) -> (r: BigInteger)
        ensures
            r.0[32] == 0,
            r.value() < weight(32),
    {
        let words = fill_words(rng);
        BigInteger::from_random_words(words)
    }
}

} // verus!
