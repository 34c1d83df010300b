//! The trusted boundary around the random source. Every random draw of
//! the library flows through the wrappers of this module; their
//! contracts state only what holds of every outcome.

use vstd::prelude::*;
use rand::Rng;
use rand::SeedableRng;
use rand::distr::Distribution;
use rand::rngs::StdRng;
use rand::distr::weighted::WeightedIndex;

verus! {

#[verifier::external_type_specification]
#[verifier::external_body]
pub struct ExStdRng(StdRng);

/// A weighted distribution over positions, built once and sampled many
/// times. It holds rand's `WeightedIndex` over 128-bit weights; the
/// whole struct is opaque because Verus does not accept that type's
/// declaration.
#[verifier::external_body]
pub struct WeightedChoice {
    index: WeightedIndex<u128>,
}

/// The weights a weighted choice was built over.
pub uninterp spec fn weighted_choice_weights(w: WeightedChoice) -> Seq<u128>;

/// The sum of a list of weights.
pub open spec fn sum_weights(ws: Seq<u128>) -> nat
    decreases ws.len(),
{
    if ws.len() == 0 {
        0
    } else {
        sum_weights(ws.drop_last()) + ws.last() as nat
    }
}

/// Relies on rand's `StdRng::seed_from_u64`: a fresh deterministic
/// random source seeded from one word.
#[verifier::external_body]
pub fn rng_from_seed(seed: u64) -> StdRng {
    StdRng::seed_from_u64(seed)
}

/// Relies on rand's `Rng::random`: one uniformly drawn word. Nothing can
/// be promised of a random value.
#[verifier::external_body]
pub fn rng_next_u64(rng: &mut StdRng) -> u64 {
    rng.random::<u64>()
}

/// Relies on rand's `Rng::random`: one fair coin flip. Nothing can be
/// promised of a random value.
#[verifier::external_body]
pub fn rng_coin(rng: &mut StdRng) -> bool {
    rng.random::<bool>()
}

/// Relies on rand's `Rng::random_range` over an inclusive range: the
/// draw lies in the range, and the call panics only on an empty range,
/// which the precondition rules out.
#[verifier::external_body]
pub fn rng_between(rng: &mut StdRng, lo: usize, hi: usize) -> (r: usize)
    requires
        lo <= hi,
    ensures
        lo <= r <= hi,
{
    rng.random_range(lo..=hi)
}

/// Relies on rand's `WeightedIndex::new` over 128-bit weights: it
/// succeeds exactly when the weights are not empty, not all zero, and
/// their sum does not overflow, and the built index carries exactly the
/// given weights.
#[verifier::external_body]
pub fn weighted_choice_new(weights: &Vec<u128>) -> (r: Option<WeightedChoice>)
    ensures
        (r is Some) == (weights@.len() > 0 && sum_weights(weights@) > 0 && sum_weights(weights@)
            <= u128::MAX),
        r matches Some(w) ==> weighted_choice_weights(w) == weights@,
{
    match WeightedIndex::new(weights) {
        Ok(index) => Option::Some(WeightedChoice { index }),
        Err(_) => Option::None,
    }
}

/// Relies on rand's `Distribution::sample` for `WeightedIndex`: the
/// drawn position indexes the weights the index was built over, and a
/// position of weight zero is never drawn.
#[verifier::external_body]
pub fn weighted_choice_sample(w: &WeightedChoice, rng: &mut StdRng) -> (r: usize)
    ensures
        r < weighted_choice_weights(*w).len(),
        weighted_choice_weights(*w)[r as int] > 0,
{
    w.index.sample(rng)
}

} // verus!

verus! {

/// A weight list whose head is positive has a positive sum.
pub proof fn lemma_sum_weights_positive(ws: Seq<u128>)
    requires
        ws.len() > 0,
        ws[0] > 0,
    ensures
        sum_weights(ws) > 0,
    decreases ws.len(),
{
    if ws.len() > 1 {
        lemma_sum_weights_positive(ws.drop_last());
    }
}

/// A weight list with a positive entry has a positive sum.
pub proof fn lemma_sum_weights_positive_at(ws: Seq<u128>, j: int)
    requires
        0 <= j < ws.len(),
        ws[j] > 0,
    ensures
        sum_weights(ws) > 0,
    decreases ws.len(),
{
    if j < ws.len() - 1 {
        assert(ws.drop_last()[j] == ws[j]);
        lemma_sum_weights_positive_at(ws.drop_last(), j);
    }
}

/// A weight list of bounded entries has a bounded sum.
pub proof fn lemma_sum_weights_bounded(ws: Seq<u128>, bound: nat)
    requires
        forall|i: int| 0 <= i < ws.len() ==> (#[trigger] ws[i]) <= bound,
    ensures
        sum_weights(ws) <= ws.len() * bound,
    decreases ws.len(),
{
    if ws.len() > 0 {
        lemma_sum_weights_bounded(ws.drop_last(), bound);
        assert(ws[ws.len() - 1] <= bound);
        assert((ws.len() - 1) * bound + bound == ws.len() * bound) by (nonlinear_arith);
    }
}

} // verus!
