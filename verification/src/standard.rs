//! The plain engine: every sample is held against every centroid, and every
//! centroid becomes the mean of its members.

use vstd::prelude::*;
use rand::rngs::StdRng;
use crate::color::{squared_distance, lemma_squared_distance_metric, Color, MAX_CLUSTERS, MAX_DIFFERENCE};
use crate::random::uniform_channel;

verus! {

/// No centroid is nearer to `x` than the one at index `j`.
pub open spec fn is_minimizer(x: Color, centroids: Seq<Color>, j: int) -> bool {
    &&& 0 <= j < centroids.len()
    &&& forall|i: int|
        0 <= i < centroids.len() ==> squared_distance(x, centroids[j]) <= squared_distance(
            x,
            #[trigger] centroids[i],
        )
}

/// Index `j` holds the centroid nearest to `x`, and the first of them where
/// several are equally near.
pub open spec fn is_nearest(x: Color, centroids: Seq<Color>, j: int) -> bool {
    &&& is_minimizer(x, centroids, j)
    &&& forall|i: int|
        0 <= i < j ==> squared_distance(x, centroids[j]) < squared_distance(
            x,
            #[trigger] centroids[i],
        )
}

/// The cluster id that the plain engine gives `x`: the index of the nearest
/// centroid. Where there is no centroid, no id is one.
pub open spec fn is_assignment(x: Color, centroids: Seq<Color>, id: u8) -> bool {
    is_nearest(x, centroids, id as int)
}

/// How many samples and ids stand side by side.
pub open spec fn paired_len(samples: Seq<Color>, indices: Seq<u8>) -> int {
    if samples.len() <= indices.len() {
        samples.len() as int
    } else {
        indices.len() as int
    }
}

/// How many of the first `n` ids are `id`.
pub open spec fn member_count(indices: Seq<u8>, id: int, n: int) -> nat
    decreases n,
{
    if n <= 0 {
        0
    } else {
        member_count(indices, id, n - 1) + if indices[n - 1] as int == id {
            1nat
        } else {
            0nat
        }
    }
}

/// One channel of a colour: 0 for red, 1 for green, anything else for blue.
pub open spec fn channel(c: Color, ch: int) -> nat {
    if ch == 0 {
        c.r as nat
    } else if ch == 1 {
        c.g as nat
    } else {
        c.b as nat
    }
}

/// The sum of one channel over those of the first `n` samples whose id is `id`.
pub open spec fn channel_sum(samples: Seq<Color>, indices: Seq<u8>, id: int, ch: int, n: int) -> nat
    decreases n,
{
    if n <= 0 {
        0
    } else {
        channel_sum(samples, indices, id, ch, n - 1) + if indices[n - 1] as int == id {
            channel(samples[n - 1], ch)
        } else {
            0nat
        }
    }
}

/// The channel-wise mean, rounded down, of the samples whose id is `id`.
pub open spec fn cluster_mean(samples: Seq<Color>, indices: Seq<u8>, id: int) -> Color {
    let n = paired_len(samples, indices);
    let count = member_count(indices, id, n) as int;
    Color {
        r: (channel_sum(samples, indices, id, 0, n) as int / count) as u8,
        g: (channel_sum(samples, indices, id, 1, n) as int / count) as u8,
        b: (channel_sum(samples, indices, id, 2, n) as int / count) as u8,
    }
}

/// The centroid set `after` is what one update makes of a set of
/// `after.len()` centroids: each cluster that has members holds their mean.
pub open spec fn is_update(samples: Seq<Color>, indices: Seq<u8>, after: Seq<Color>) -> bool {
    forall|id: int|
        0 <= id < after.len() && member_count(indices, id, paired_len(samples, indices)) > 0
            ==> #[trigger] after[id] == cluster_mean(samples, indices, id)
}

/// The summed squared distance between the first `n` centroids of two sets.
pub open spec fn movement(a: Seq<Color>, b: Seq<Color>, n: int) -> nat
    decreases n,
{
    if n <= 0 {
        0
    } else {
        movement(a, b, n - 1) + squared_distance(a[n - 1], b[n - 1])
    }
}

/// A centroid set has not moved away from itself.
pub proof fn lemma_movement_of_same(a: Seq<Color>, n: int)
    requires
        n <= a.len(),
    ensures
        movement(a, a, n) == 0,
    decreases n,
{
    if n > 0 {
        lemma_movement_of_same(a, n - 1);
        lemma_squared_distance_metric(a[n - 1], a[n - 1]);
    }
}

/// The movement between two sets is zero only where they agree.
pub proof fn lemma_movement_zero(a: Seq<Color>, b: Seq<Color>, n: int)
    requires
        n <= a.len(),
        n <= b.len(),
        movement(a, b, n) == 0,
    ensures
        forall|i: int| 0 <= i < n ==> a[i] == b[i],
    decreases n,
{
    if n > 0 {
        lemma_movement_zero(a, b, n - 1);
        lemma_squared_distance_metric(a[n - 1], b[n - 1]);
    }
}

/// Two updates under the same ids agree: every cluster that has a member gets
/// the same centroid from both, and where every cluster has one, the two sets
/// are the same.
pub proof fn lemma_updates_agree(
    samples: Seq<Color>,
    indices: Seq<u8>,
    one: Seq<Color>,
    other: Seq<Color>,
)
    requires
        one.len() == other.len(),
        is_update(samples, indices, one),
        is_update(samples, indices, other),
    ensures
        forall|id: int|
            0 <= id < one.len() && member_count(indices, id, paired_len(samples, indices)) > 0
                ==> #[trigger] one[id] == other[id],
        (forall|id: int|
            0 <= id < one.len() ==> #[trigger] member_count(
                indices,
                id,
                paired_len(samples, indices),
            ) > 0) ==> one == other,
{
    assert forall|id: int|
        0 <= id < one.len() && member_count(
            indices,
            id,
            paired_len(samples, indices),
        ) > 0 implies #[trigger] one[id] == other[id] by {
        assert(one[id] == cluster_mean(samples, indices, id));
        assert(other[id] == cluster_mean(samples, indices, id));
    }
    if forall|id: int|
        0 <= id < one.len() ==> #[trigger] member_count(indices, id, paired_len(samples, indices))
            > 0 {
        assert(one =~= other);
    }
}

/// The index of the centroid nearest to `x`, the first of them where several
/// are equally near; `None` where there is no centroid.
pub fn closest_index(x: &Color, centroids: &[Color]) -> (nearest: Option<usize>)
    ensures
        centroids@.len() == 0 <==> nearest is None,
        nearest matches Some(j) ==> is_nearest(*x, centroids@, j as int),
{
    let mut best: usize = 0;
    if centroids.len() == 0 {
        return None;
    }
    let mut least: u32 = Color::difference(x, &centroids[0]);
    let mut i: usize = 1;
    while i < centroids.len()
        invariant
            1 <= i <= centroids@.len(),
            best < i,
            least == squared_distance(*x, centroids@[best as int]),
            forall|m: int|
                0 <= m < i ==> least <= squared_distance(*x, #[trigger] centroids@[m]),
            forall|m: int|
                0 <= m < best ==> least < squared_distance(*x, #[trigger] centroids@[m]),
        decreases centroids@.len() - i,
    {
        let d: u32 = Color::difference(x, &centroids[i]);
        if d < least {
            least = d;
            best = i;
        }
        i += 1;
    }
    Some(best)
}

/// The number of members and the three channel sums of cluster `id`.
fn cluster_totals(samples: &[Color], indices: &[u8], id: usize) -> (t: (usize, u128, u128, u128))
    ensures
        t.0 == member_count(indices@, id as int, paired_len(samples@, indices@)),
        t.1 == channel_sum(samples@, indices@, id as int, 0, paired_len(samples@, indices@)),
        t.2 == channel_sum(samples@, indices@, id as int, 1, paired_len(samples@, indices@)),
        t.3 == channel_sum(samples@, indices@, id as int, 2, paired_len(samples@, indices@)),
        t.1 <= 255 * t.0,
        t.2 <= 255 * t.0,
        t.3 <= 255 * t.0,
{
    let n: usize = if samples.len() <= indices.len() {
        samples.len()
    } else {
        indices.len()
    };
    let mut count: usize = 0;
    let mut red: u128 = 0;
    let mut green: u128 = 0;
    let mut blue: u128 = 0;
    let mut j: usize = 0;
    while j < n
        invariant
            j <= n,
            n == paired_len(samples@, indices@),
            count == member_count(indices@, id as int, j as int),
            red == channel_sum(samples@, indices@, id as int, 0, j as int),
            green == channel_sum(samples@, indices@, id as int, 1, j as int),
            blue == channel_sum(samples@, indices@, id as int, 2, j as int),
            count <= j,
            red <= 255 * count,
            green <= 255 * count,
            blue <= 255 * count,
        decreases n - j,
    {
        if indices[j] as usize == id {
            let c: Color = samples[j];
            red = red + c.r as u128;
            green = green + c.g as u128;
            blue = blue + c.b as u128;
            count = count + 1;
        }
        j += 1;
    }
    (count, red, green, blue)
}

/// The mean of a cluster from its totals.
fn mean_of(count: usize, red: u128, green: u128, blue: u128) -> (c: Color)
    requires
        count > 0,
        red <= 255 * count,
        green <= 255 * count,
        blue <= 255 * count,
    ensures
        c.r == red as int / count as int,
        c.g == green as int / count as int,
        c.b == blue as int / count as int,
{
    let n: u128 = count as u128;
    assert(red as int / n as int <= 255 && green as int / n as int <= 255 && blue as int / n as int
        <= 255) by (nonlinear_arith)
        requires
            n > 0,
            red <= 255 * n,
            green <= 255 * n,
            blue <= 255 * n,
    ;
    Color { r: (red / n) as u8, g: (green / n) as u8, b: (blue / n) as u8 }
}

/// The next value of centroid `id`: the mean of its members, or a random
/// colour where it has none.
pub(crate) fn updated_centroid(rng: &mut StdRng, samples: &[Color], indices: &[u8], id: usize) -> (c:
    Color)
    ensures
        member_count(indices@, id as int, paired_len(samples@, indices@)) > 0 ==> c == cluster_mean(
            samples@,
            indices@,
            id as int,
        ),
{
    let (count, red, green, blue) = cluster_totals(samples, indices, id);
    if count != 0 {
        mean_of(count, red, green, blue)
    } else {
        Color::create_random(rng)
    }
}

impl Color {
    /// A colour drawn at random from the whole colour space. Every colour may
    /// come back.
    pub fn create_random(rng: &mut StdRng) -> (c: Color) {
        let r: u8 = uniform_channel(rng);
        let g: u8 = uniform_channel(rng);
        let b: u8 = uniform_channel(rng);
        Color { r, g, b }
    }

    /// Appends to `indices`, for each sample in turn, the id of its nearest
    /// centroid; among equally near centroids the first one wins. Without
    /// centroids there is no id to give, and `indices` stays as it is.
    pub fn get_closest_centroid(samples: &[Color], centroids: &[Color], indices: &mut Vec<u8>)
        requires
            centroids@.len() <= MAX_CLUSTERS,
        ensures
            centroids@.len() == 0 ==> final(indices)@ == old(indices)@,
            centroids@.len() > 0 ==> final(indices)@.len() == old(indices)@.len() + samples@.len(),
            forall|i: int| 0 <= i < old(indices)@.len() ==> final(indices)@[i] == old(indices)@[i],
            forall|m: int|
                old(indices)@.len() <= m < final(indices)@.len() ==> is_assignment(
                    samples@[m - old(indices)@.len()],
                    centroids@,
                    #[trigger] final(indices)@[m],
                ),
    {
        if centroids.len() == 0 {
            return ;
        }
        let ghost before = indices@;
        let mut i: usize = 0;
        while i < samples.len()
            invariant
                i <= samples@.len(),
                0 < centroids@.len() <= MAX_CLUSTERS,
                indices@.len() == before.len() + i,
                forall|m: int| 0 <= m < before.len() ==> indices@[m] == before[m],
                forall|m: int|
                    before.len() <= m < indices@.len() ==> is_assignment(
                        samples@[m - before.len()],
                        centroids@,
                        #[trigger] indices@[m],
                    ),
            decreases samples@.len() - i,
        {
            match closest_index(&samples[i], centroids) {
                Some(j) => indices.push(j as u8),
                None => {},
            }
            i += 1;
        }
    }

    /// Replaces each centroid by the mean of the samples that carry its id,
    /// and by a random colour where no sample does.
    pub fn recalculate_centroids(
        rng: &mut StdRng,
        samples: &[Color],
        centroids: &mut [Color],
        indices: &[u8],
    )
        ensures
            final(centroids)@.len() == old(centroids)@.len(),
            is_update(samples@, indices@, final(centroids)@),
    {
        let mut id: usize = 0;
        while id < centroids.len()
            invariant
                id <= centroids@.len(),
                centroids@.len() == old(centroids)@.len(),
                forall|m: int|
                    0 <= m < id && member_count(indices@, m, paired_len(samples@, indices@)) > 0
                        ==> #[trigger] centroids@[m] == cluster_mean(samples@, indices@, m),
            decreases centroids@.len() - id,
        {
            let next: Color = updated_centroid(rng, samples, indices, id);
            centroids[id] = next;
            id += 1;
        }
    }

    /// How far a centroid set has moved: the sum of the squared distances
    /// between the centroids of the two sets, pair by pair.
    pub fn check_loop(centroids: &[Color], old_centroids: &[Color]) -> (score: u64)
        requires
            centroids@.len() <= MAX_CLUSTERS || old_centroids@.len() <= MAX_CLUSTERS,
        ensures
            score == movement(
                centroids@,
                old_centroids@,
                if centroids@.len() <= old_centroids@.len() {
                    centroids@.len() as int
                } else {
                    old_centroids@.len() as int
                },
            ),
            centroids@ == old_centroids@ ==> score == 0,
    {
        let n: usize = if centroids.len() <= old_centroids.len() {
            centroids.len()
        } else {
            old_centroids.len()
        };
        let mut score: u64 = 0;
        let mut i: usize = 0;
        while i < n
            invariant
                i <= n <= MAX_CLUSTERS,
                n <= centroids@.len(),
                n <= old_centroids@.len(),
                score == movement(centroids@, old_centroids@, i as int),
                score <= i * MAX_DIFFERENCE,
            decreases n - i,
        {
            let d: u32 = Color::difference(&centroids[i], &old_centroids[i]);
            assert((i + 1) * MAX_DIFFERENCE == i * MAX_DIFFERENCE + MAX_DIFFERENCE)
                by (nonlinear_arith);
            assert(i * MAX_DIFFERENCE <= 256 * 195075) by (nonlinear_arith)
                requires
                    i <= 256,
            ;
            score = score + d as u64;
            i += 1;
        }
        proof {
            if centroids@ == old_centroids@ {
                lemma_movement_of_same(centroids@, n as int);
            }
        }
        score
    }
}

} // verus!
