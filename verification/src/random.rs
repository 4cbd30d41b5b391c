//! The random choices that the library draws from the `rand` crate.
//!
//! Nothing here is proved: each contract states what the crate's source shows
//! of every outcome, whatever the generator's state.

use vstd::prelude::*;
use rand::distributions::{Distribution, WeightedIndex};
use rand::rngs::StdRng;
use rand::Rng;

verus! {

/// The generator of `rand` that the library draws from.
#[verifier::external_type_specification]
#[verifier::external_body]
pub struct ExStdRng(rand::rngs::StdRng);

/// The sum of a sequence of weights.
pub open spec fn total_weight(weights: Seq<u64>) -> nat
    decreases weights.len(),
{
    if weights.len() == 0 {
        0
    } else {
        total_weight(weights.drop_last()) + weights.last() as nat
    }
}

/// Calls `rand::Rng::gen_range` on the range from 0 up to, not including, `n`.
/// The call panics on an empty range, which `n > 0` rules out; what it
/// returns lies in the range.
#[verifier::external_body]
pub(crate) fn uniform_index(rng: &mut StdRng, n: usize) -> (i: usize)
    requires
        n > 0,
    ensures
        i < n,
{
    rng.gen_range(0..n)
}

/// Calls `rand::Rng::gen` for one channel value. Every `u8` may come back, so
/// nothing is claimed of the result.
#[verifier::external_body]
pub(crate) fn uniform_channel(rng: &mut StdRng) -> (v: u8) {
    rng.gen()
}

/// A `rand::distributions::WeightedIndex` over `u64` weights: the
/// distribution of `rand` that draws an index by weight.
#[verifier::external_body]
pub struct WeightedSampler {
    inner: WeightedIndex<u64>,
}

/// The weights that a distribution was built from.
pub uninterp spec fn weights_of(sampler: WeightedSampler) -> Seq<u64>;

/// Calls `rand::distributions::WeightedIndex::new`. The constructor adds the
/// weights up in `u64` and fails only on an empty list or a zero sum, both
/// ruled out here, as is a sum beyond `u64`; the distribution keeps the
/// running totals of the weights it was given.
#[verifier::external_body]
pub(crate) fn weighted_sampler(weights: &Vec<u64>) -> (sampler: WeightedSampler)
    requires
        weights@.len() > 0,
        0 < total_weight(weights@) <= u64::MAX,
    ensures
        weights_of(sampler) == weights@,
{
    WeightedSampler { inner: WeightedIndex::new(weights).unwrap() }
}

/// Calls `rand::distributions::Distribution::sample` on a `WeightedIndex`.
/// The sample is the first index whose running total exceeds a number drawn
/// below the sum of the weights: an index of the list whose own weight is not
/// zero.
#[verifier::external_body]
pub(crate) fn weighted_index(rng: &mut StdRng, sampler: &WeightedSampler) -> (i: usize)
    ensures
        i < weights_of(*sampler).len(),
        weights_of(*sampler)[i as int] > 0,
{
    sampler.inner.sample(rng)
}

} // verus!
