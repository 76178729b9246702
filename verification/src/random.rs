//! Random choices: the game's dice, turn order, board rotation and token
//! order come from the thread-local generator of the `rand` crate.

use vstd::prelude::*;
use rand::seq::SliceRandom;
use rand::Rng;
use rand::rngs::ThreadRng;

verus! {

#[verifier::external_type_specification]
#[verifier::external_body]
pub struct ExThreadRng(rand::rngs::ThreadRng);

/// A number drawn from `0..bound` with `rand::Rng::gen_range`. The source
/// asserts that the range is not empty, so `bound` must be positive; the
/// result lies in the range, and nothing more is said of which number it is.
#[verifier::external_body]
pub(crate) fn random_below(rng: &mut ThreadRng, bound: usize) -> (r: usize)
    requires
        bound > 0,
    ensures
        r < bound,
{
    rng.gen_range(0..bound)
}

/// One value of `values` picked with `rand::seq::SliceRandom::choose`: the
/// source returns `None` for an empty slice and otherwise an element of the
/// slice; which element is not said.
#[verifier::external_body]
pub(crate) fn choose_value(values: &[i32], rng: &mut ThreadRng) -> (r: Option<i32>)
    ensures
        r is None <==> values@.len() == 0,
        r matches Some(v) ==> values@.contains(v),
{
    values.choose(rng).copied()
}

/// `v` shuffled in place with `rand::seq::SliceRandom::shuffle`, which swaps
/// elements only, so the result holds the same elements, each as often; the
/// order is not said.
#[verifier::external_body]
pub(crate) fn shuffle<T>(v: &mut Vec<T>, rng: &mut ThreadRng)
    ensures
        final(v)@.to_multiset() == old(v)@.to_multiset(),
{
    v.shuffle(rng)
}

} // verus!
