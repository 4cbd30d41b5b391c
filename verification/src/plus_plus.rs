//! Seeding in the manner of k-means++: the first centroid is any sample, each
//! further one a sample drawn with a weight that grows with its squared
//! distance from the centroids chosen so far.

use vstd::prelude::*;
use rand::rngs::StdRng;
use crate::color::{squared_distance, lemma_squared_distance_metric, Color, MAX_DIFFERENCE};
use crate::random::{total_weight, uniform_index, weighted_index, weighted_sampler, WeightedSampler};

verus! {

/// The squared distance from `x` to the nearest of `centroids`, and
/// `MAX_DIFFERENCE` where there is none.
pub open spec fn nearest_distance(x: Color, centroids: Seq<Color>) -> nat
    decreases centroids.len(),
{
    if centroids.len() == 0 {
        MAX_DIFFERENCE as nat
    } else {
        let rest = nearest_distance(x, centroids.drop_last());
        let d = squared_distance(x, centroids.last());
        if d < rest {
            d
        } else {
            rest
        }
    }
}

/// The weight of each sample: its squared distance to the nearest centroid.
pub open spec fn seeding_weights(samples: Seq<Color>, centroids: Seq<Color>) -> Seq<u64> {
    Seq::new(samples.len(), |i: int| nearest_distance(samples[i], centroids) as u64)
}

/// No further centroid can be drawn: every sample sits on a centroid, or the
/// weights add up to more than a `u64` holds.
pub open spec fn is_degenerate(samples: Seq<Color>, centroids: Seq<Color>) -> bool {
    let total = total_weight(seeding_weights(samples, centroids));
    total == 0 || total > u64::MAX
}

/// The centroid at index `i` was drawn by weight: something could still be
/// drawn from the centroids before it, and it lies away from all of them.
pub open spec fn is_weighted_draw(samples: Seq<Color>, centroids: Seq<Color>, i: int) -> bool {
    &&& !is_degenerate(samples, centroids.take(i))
    &&& nearest_distance(centroids[i], centroids.take(i)) > 0
}

/// What seeding with a request for `k` centroids may make of the set `before`.
///
/// The set grows by at least one and at most `k` samples. Every centroid after
/// the first new one lies away from all that stand before it. Seeding stops
/// short of `k` exactly at the first set from which nothing more can be drawn.
pub open spec fn is_seeding(samples: Seq<Color>, before: Seq<Color>, after: Seq<Color>, k: nat) -> bool {
    &&& before.len() < after.len() <= before.len() + k
    &&& after.take(before.len() as int) == before
    &&& forall|i: int| before.len() <= i < after.len() ==> samples.contains(#[trigger] after[i])
    &&& forall|i: int| before.len() < i < after.len() ==> is_weighted_draw(samples, after, i)
    &&& after.len() < before.len() + k ==> is_degenerate(samples, after)
}

/// The nearest distance is a distance to one of the centroids, so none of them
/// is nearer, and it fits the bound on all distances.
pub proof fn lemma_nearest_distance(x: Color, centroids: Seq<Color>)
    ensures
        nearest_distance(x, centroids) <= MAX_DIFFERENCE,
        forall|i: int|
            0 <= i < centroids.len() ==> nearest_distance(x, centroids) <= squared_distance(
                x,
                #[trigger] centroids[i],
            ),
    decreases centroids.len(),
{
    if centroids.len() > 0 {
        lemma_nearest_distance(x, centroids.drop_last());
        lemma_squared_distance_metric(x, centroids.last());
        assert forall|i: int| 0 <= i < centroids.len() implies nearest_distance(x, centroids)
            <= squared_distance(x, #[trigger] centroids[i]) by {
            if i < centroids.len() - 1 {
                assert(centroids.drop_last()[i] == centroids[i]);
            }
        }
    }
}

/// A sample with a weight above zero is none of the centroids.
pub proof fn lemma_positive_weight_is_new(x: Color, centroids: Seq<Color>)
    requires
        nearest_distance(x, centroids) > 0,
    ensures
        !centroids.contains(x),
{
    lemma_nearest_distance(x, centroids);
    if centroids.contains(x) {
        let i = choose|i: int| 0 <= i < centroids.len() && centroids[i] == x;
        lemma_squared_distance_metric(x, centroids[i]);
    }
}

/// Seeds differ: a centroid that seeding drew by weight is none of the
/// centroids that stand before it.
pub proof fn lemma_seeds_differ(
    samples: Seq<Color>,
    before: Seq<Color>,
    after: Seq<Color>,
    k: nat,
    i: int,
    j: int,
)
    requires
        is_seeding(samples, before, after, k),
        0 <= i < j < after.len(),
        before.len() < j,
    ensures
        after[i] != after[j],
{
    assert(is_weighted_draw(samples, after, j));
    lemma_positive_weight_is_new(after[j], after.take(j));
    assert(after.take(j)[i] == after[i]);
}

/// The squared distance from `x` to the nearest of `centroids`.
fn weight_of(x: &Color, centroids: &Vec<Color>) -> (w: u64)
    ensures
        w == nearest_distance(*x, centroids@),
        w <= MAX_DIFFERENCE,
{
    let mut least: u32 = MAX_DIFFERENCE;
    let mut i: usize = 0;
    while i < centroids.len()
        invariant
            i <= centroids@.len(),
            least == nearest_distance(*x, centroids@.take(i as int)),
            least <= MAX_DIFFERENCE,
        decreases centroids@.len() - i,
    {
        let d: u32 = Color::difference(x, &centroids[i]);
        proof {
            assert(centroids@.take(i + 1).drop_last() == centroids@.take(i as int));
        }
        if d < least {
            least = d;
        }
        i += 1;
    }
    proof {
        assert(centroids@.take(centroids@.len() as int) == centroids@);
    }
    least as u64
}

/// The weights of all samples, and their sum where a `u64` holds it.
fn weigh(samples: &[Color], centroids: &Vec<Color>) -> (r: (Vec<u64>, Option<u64>))
    ensures
        r.0@ == seeding_weights(samples@, centroids@),
        match r.1 {
            Some(t) => t == total_weight(r.0@),
            None => total_weight(r.0@) > u64::MAX,
        },
{
    let mut weights: Vec<u64> = Vec::new();
    let mut total: Option<u64> = Some(0);
    let mut i: usize = 0;
    while i < samples.len()
        invariant
            i <= samples@.len(),
            weights@ == seeding_weights(samples@, centroids@).take(i as int),
            match total {
                Some(t) => t == total_weight(weights@),
                None => total_weight(weights@) > u64::MAX,
            },
        decreases samples@.len() - i,
    {
        let w: u64 = weight_of(&samples[i], centroids);
        let ghost earlier = weights@;
        weights.push(w);
        proof {
            assert(weights@.drop_last() == earlier);
            assert(weights@ == seeding_weights(samples@, centroids@).take(i + 1));
        }
        total = match total {
            Some(t) => t.checked_add(w),
            None => None,
        };
        i += 1;
    }
    proof {
        assert(seeding_weights(samples@, centroids@).take(samples@.len() as int)
            == seeding_weights(samples@, centroids@));
    }
    (weights, total)
}

/// Appends up to `k` seeds to `centroids`.
///
/// The first is a sample drawn uniformly. Each further one is drawn with the
/// samples' squared distances to their nearest centroid as weights. Where no
/// sample has any weight left, seeding ends with fewer than `k` seeds.
pub fn init_plus_plus(k: usize, rng: &mut StdRng, buf: &[Color], centroids: &mut Vec<Color>)
    requires
        k > 0 ==> buf@.len() > 0,
    ensures
        k == 0 ==> final(centroids)@ == old(centroids)@,
        k > 0 ==> is_seeding(buf@, old(centroids)@, final(centroids)@, k as nat),
{
    if k == 0 {
        return ;
    }
    let ghost before = centroids@;
    let first: usize = uniform_index(rng, buf.len());
    centroids.push(buf[first]);
    proof {
        assert(centroids@.take(before.len() as int) == before);
    }
    let mut round: usize = 1;
    while round < k
        invariant
            1 <= round <= k,
            before == old(centroids)@,
            centroids@.len() == before.len() + round,
            centroids@.take(before.len() as int) == before,
            forall|i: int|
                before.len() <= i < centroids@.len() ==> buf@.contains(#[trigger] centroids@[i]),
            forall|i: int|
                before.len() < i < centroids@.len() ==> is_weighted_draw(buf@, centroids@, i),
        decreases k - round,
    {
        let (weights, total) = weigh(buf, centroids);
        let drawable: bool = match total {
            Some(t) => t != 0,
            None => false,
        };
        if !drawable {
            return ;
        }
        let sampler: WeightedSampler = weighted_sampler(&weights);
        let pick: usize = weighted_index(rng, &sampler);
        let ghost earlier = centroids@;
        centroids.push(buf[pick]);
        proof {
            assert(centroids@.take(earlier.len() as int) == earlier);
            assert(centroids@.take(before.len() as int) == earlier.take(before.len() as int));
            assert forall|i: int| before.len() < i < centroids@.len() implies is_weighted_draw(
                buf@,
                centroids@,
                i,
            ) by {
                if i < earlier.len() {
                    assert(is_weighted_draw(buf@, earlier, i));
                    assert(centroids@.take(i) == earlier.take(i));
                    assert(centroids@[i] == earlier[i]);
                } else {
                    assert(centroids@.take(i) == earlier);
                    assert(centroids@[i] == buf@[pick as int]);
                    lemma_nearest_distance(buf@[pick as int], earlier);
                    assert(weights@[pick as int] == nearest_distance(buf@[pick as int], earlier));
                }
            }
            assert forall|i: int| before.len() <= i < centroids@.len() implies buf@.contains(
                #[trigger] centroids@[i],
            ) by {
                if i < earlier.len() {
                    assert(centroids@[i] == earlier[i]);
                }
            }
        }
        round += 1;
    }
}

/// Up to `k` seeds for a clustering of `samples`: none for `k == 0`, else at
/// least one, each of them a sample.
pub fn seed(k: usize, rng: &mut StdRng, samples: &[Color]) -> (seeds: Vec<Color>)
    requires
        k > 0 ==> samples@.len() > 0,
    ensures
        seeds@.len() <= k,
        k == 0 ==> seeds@.len() == 0,
        k > 0 ==> is_seeding(samples@, Seq::empty(), seeds@, k as nat),
        forall|i: int| 0 <= i < seeds@.len() ==> samples@.contains(#[trigger] seeds@[i]),
{
    let mut seeds: Vec<Color> = Vec::new();
    init_plus_plus(k, rng, samples, &mut seeds);
    seeds
}

} // verus!
