//! Random choices, drawn from the thread-local generator of `rand`.
use rand::seq::IndexedRandom;
use rand::Rng;
use vstd::prelude::*;

verus! {

/// Calls `rand::Rng::random_range` with the range `0..n` on `rand::rng()`.
/// Claimed: the result lies in `0..n` (the call panics on an empty range,
/// which `requires` rules out). Which number comes out is left to chance.
#[verifier::external_body]
pub(crate) fn random_below(n: usize) -> (r: usize)
    requires
        n > 0,
    ensures
        r < n,
{
    rand::rng().random_range(0..n)
}

/// Calls `rand::seq::IndexedRandom::choose` on the words with `rand::rng()`
/// and clones the word it picks. Claimed: `None` exactly for an empty list,
/// otherwise one of the listed words. Which one is left to chance.
#[verifier::external_body]
pub(crate) fn choose_word(words: &Vec<String>) -> (w: Option<String>)
    ensures
        w is None <==> words@.len() == 0,
        w matches Some(s) ==> exists|i: int| 0 <= i < words@.len() && words@[i]@ == s@,
{
    words.as_slice().choose(&mut rand::rng()).cloned()
}

} // verus!
