//! The engine with bounds: each sample carries an upper bound on the distance
//! to its own centroid and a lower bound on the distance to every other one,
//! and is held against the centroids only where the bounds do not settle it.
//!
//! Bounds are distances, not squared distances, kept as whole numbers: upper
//! bounds are rounded up, lower bounds and half-distances down.

use vstd::prelude::*;
use rand::rngs::StdRng;
use rayon::iter::{
    IndexedParallelIterator,
    IntoParallelRefIterator,
    IntoParallelRefMutIterator,
    ParallelIterator,
};
use crate::color::{lemma_squared_distance_metric, squared_distance, Color, MAX_CLUSTERS};
use crate::geometry::{lemma_triangle, lemma_triangle_strict};
use crate::roots::{
    ceil_sqrt,
    floor_sqrt,
    is_ceil_root,
    lemma_square_monotone,
};
use crate::standard::{
    closest_index,
    cluster_mean,
    is_minimizer,
    is_nearest,
    is_update,
    member_count,
    paired_len,
    updated_centroid,
};

verus! {

/// What the engine keeps for one sample.
#[derive(Clone, Copy, Debug, PartialEq, Eq, Structural)]
pub struct HamerlyPoint {
    /// The id of the sample's cluster.
    pub index: u8,
    /// At least the distance to the cluster's centroid.
    pub upper_bound: u32,
    /// At most the distance to any other centroid.
    pub lower_bound: u32,
}

/// The centroids with what the engine keeps for each of them.
pub struct HamerlyCentroids {
    pub centroids: Vec<Color>,
    /// How far each centroid moved in the last update, rounded up.
    pub deltas: Vec<u32>,
    /// Half the distance from each centroid to the nearest other one, rounded
    /// down.
    pub half_distances: Vec<u32>,
}

/// The sample's own centroid is no further away than the upper bound.
pub open spec fn upper_bound_holds(x: Color, centroids: Seq<Color>, p: HamerlyPoint) -> bool {
    &&& (p.index as int) < centroids.len()
    &&& squared_distance(x, centroids[p.index as int]) <= p.upper_bound * p.upper_bound
}

/// Every centroid but the sample's own is at least the lower bound away.
pub open spec fn lower_bound_holds(x: Color, centroids: Seq<Color>, p: HamerlyPoint) -> bool {
    forall|j: int|
        0 <= j < centroids.len() && j != p.index ==> p.lower_bound * p.lower_bound
            <= squared_distance(x, #[trigger] centroids[j])
}

/// Both bounds of a sample hold.
pub open spec fn bounds_hold(x: Color, centroids: Seq<Color>, p: HamerlyPoint) -> bool {
    upper_bound_holds(x, centroids, p) && lower_bound_holds(x, centroids, p)
}

/// There is one point for each sample, and the bounds of each hold.
pub open spec fn all_bounds_hold(
    samples: Seq<Color>,
    centroids: Seq<Color>,
    points: Seq<HamerlyPoint>,
) -> bool {
    &&& points.len() == samples.len()
    &&& forall|i: int|
        0 <= i < points.len() ==> bounds_hold(samples[i], centroids, #[trigger] points[i])
}

/// `m` is the least squared distance from `x` to a centroid other than the
/// one at `skip`, and `u32::MAX` where there is no other.
pub open spec fn is_runner_up(x: Color, centroids: Seq<Color>, skip: int, m: nat) -> bool {
    &&& forall|j: int|
        0 <= j < centroids.len() && j != skip ==> m <= squared_distance(x, #[trigger] centroids[j])
    &&& (m == u32::MAX || exists|j: int|
        0 <= j < centroids.len() && j != skip && squared_distance(x, #[trigger] centroids[j]) == m)
}

/// `h` is half the distance, rounded down at both steps, from centroid `i` to
/// the nearest other centroid, and `u32::MAX` where there is no other.
pub open spec fn is_half_distance(centroids: Seq<Color>, i: int, h: nat) -> bool {
    if centroids.len() < 2 {
        h == u32::MAX
    } else {
        &&& forall|j: int|
            0 <= j < centroids.len() && j != i ==> (2 * h) * (2 * h) <= squared_distance(
                centroids[i],
                #[trigger] centroids[j],
            )
        &&& exists|j: int|
            0 <= j < centroids.len() && j != i && squared_distance(
                centroids[i],
                #[trigger] centroids[j],
            ) < (2 * h + 2) * (2 * h + 2)
    }
}

/// The greatest of the deltas, and 0 where there is none.
pub open spec fn largest(deltas: Seq<u32>) -> nat
    decreases deltas.len(),
{
    if deltas.len() == 0 {
        0
    } else {
        let rest = largest(deltas.drop_last());
        if deltas.last() > rest {
            deltas.last() as nat
        } else {
            rest
        }
    }
}

/// A point after its centroid moved: the upper bound grows by the centroid's
/// delta, as far as a `u32` holds it, and the lower bound shrinks by the
/// largest delta, down to 0.
pub open spec fn shifted(p: HamerlyPoint, deltas: Seq<u32>) -> HamerlyPoint {
    let up = p.upper_bound + deltas[p.index as int];
    let down = p.lower_bound - largest(deltas);
    HamerlyPoint {
        index: p.index,
        upper_bound: if up <= u32::MAX {
            up as u32
        } else {
            u32::MAX
        },
        lower_bound: if down > 0 {
            down as u32
        } else {
            0
        },
    }
}

/// The cluster ids of a sequence of points.
pub open spec fn point_ids(points: Seq<HamerlyPoint>) -> Seq<u8> {
    Seq::new(points.len(), |i: int| points[i].index)
}

impl HamerlyCentroids {
    /// There are at most `MAX_CLUSTERS` centroids, each with a delta and a
    /// half-distance.
    pub open spec fn wf(&self) -> bool {
        &&& self.centroids@.len() <= MAX_CLUSTERS
        &&& self.deltas@.len() == self.centroids@.len()
        &&& self.half_distances@.len() == self.centroids@.len()
    }

    /// The half-distances are those of the centroids.
    pub open spec fn halves_hold(&self) -> bool {
        forall|i: int|
            0 <= i < self.centroids@.len() ==> is_half_distance(
                self.centroids@,
                i,
                #[trigger] self.half_distances@[i] as nat,
            )
    }

    /// The bound below which a point needs no look at the centroids: the larger
    /// of its lower bound and its centroid's half-distance.
    pub open spec fn threshold(&self, p: HamerlyPoint) -> nat {
        let h = self.half_distances@[p.index as int];
        if h >= p.lower_bound {
            h as nat
        } else {
            p.lower_bound as nat
        }
    }
}

/// The lower bound of a sample that has one centroid only: the root of
/// `u32::MAX`, rounded down.
pub const UNBOUNDED: u32 = 65535;

/// What a full scan makes of a point: the nearest centroid, the first of
/// several; the distance to it, rounded up; and the distance to the nearest of
/// the others, rounded down, or `UNBOUNDED` where there is no other.
pub open spec fn is_rescanned(x: Color, centroids: Seq<Color>, q: HamerlyPoint) -> bool {
    &&& is_nearest(x, centroids, q.index as int)
    &&& is_ceil_root(squared_distance(x, centroids[q.index as int]), q.upper_bound as nat)
    &&& if centroids.len() < 2 {
        q.lower_bound == UNBOUNDED
    } else {
        &&& lower_bound_holds(x, centroids, q)
        &&& exists|j: int|
            0 <= j < centroids.len() && j != q.index && squared_distance(x, #[trigger] centroids[j])
                < (q.lower_bound + 1) * (q.lower_bound + 1)
    }
}

/// What the assignment phase makes of point `p` of sample `x`.
///
/// A point whose upper bound is within the threshold stays as it is. Else the
/// upper bound becomes the distance to the point's centroid; where that is
/// within the threshold, or there is one centroid only, nothing else changes.
/// Else the point is scanned anew.
pub open spec fn is_assign_step(
    x: Color,
    centers: HamerlyCentroids,
    p: HamerlyPoint,
    q: HamerlyPoint,
) -> bool {
    let z = centers.threshold(p);
    let d = squared_distance(x, centers.centroids@[p.index as int]);
    if p.upper_bound <= z {
        q == p
    } else if d <= z * z || centers.centroids@.len() < 2 {
        &&& q.index == p.index
        &&& q.lower_bound == p.lower_bound
        &&& is_ceil_root(d, q.upper_bound as nat)
    } else {
        is_rescanned(x, centers.centroids@, q)
    }
}

/// Each delta is at least the distance that its centroid moved.
pub open spec fn deltas_cover(before: Seq<Color>, after: Seq<Color>, deltas: Seq<u32>) -> bool {
    &&& before.len() == after.len()
    &&& deltas.len() == after.len()
    &&& forall|j: int|
        0 <= j < after.len() ==> squared_distance(before[j], after[j]) <= (#[trigger] deltas[j])
            * deltas[j]
}

/// No delta is above the largest.
pub proof fn lemma_largest(deltas: Seq<u32>)
    ensures
        forall|j: int| 0 <= j < deltas.len() ==> #[trigger] deltas[j] <= largest(deltas),
    decreases deltas.len(),
{
    if deltas.len() > 0 {
        lemma_largest(deltas.drop_last());
        assert forall|j: int| 0 <= j < deltas.len() implies #[trigger] deltas[j] <= largest(
            deltas,
        ) by {
            if j < deltas.len() - 1 {
                assert(deltas.drop_last()[j] == deltas[j]);
            }
        }
    }
}

/// The largest delta is one of the deltas, or 0.
pub proof fn lemma_largest_is_a_delta(deltas: Seq<u32>)
    ensures
        largest(deltas) == 0 || exists|j: int|
            0 <= j < deltas.len() && #[trigger] deltas[j] == largest(deltas),
    decreases deltas.len(),
{
    if deltas.len() > 0 {
        lemma_largest_is_a_delta(deltas.drop_last());
        let rest = largest(deltas.drop_last());
        if deltas.last() > rest {
            assert(deltas[deltas.len() - 1] == largest(deltas));
        } else if rest != 0 {
            let j = choose|j: int|
                0 <= j < deltas.drop_last().len() && #[trigger] deltas.drop_last()[j] == rest;
            assert(deltas[j] == largest(deltas));
        }
    }
}

/// Pruning is sound: a point whose bounds hold and whose upper bound is within
/// the threshold has a nearest centroid as its own.
pub proof fn lemma_pruned_point_is_nearest(x: Color, centers: HamerlyCentroids, p: HamerlyPoint)
    requires
        centers.wf(),
        centers.halves_hold(),
        bounds_hold(x, centers.centroids@, p),
        p.upper_bound <= centers.threshold(p),
    ensures
        is_minimizer(x, centers.centroids@, p.index as int),
{
    let cs = centers.centroids@;
    let a = p.index as int;
    let h = centers.half_distances@[a] as nat;
    let ub = p.upper_bound as int;
    assert(is_half_distance(cs, a, h));
    assert forall|j: int| 0 <= j < cs.len() implies squared_distance(x, cs[a]) <= squared_distance(
        x,
        #[trigger] cs[j],
    ) by {
        if j != a {
            if p.upper_bound <= p.lower_bound {
                lemma_square_monotone(ub, p.lower_bound as int);
            } else {
                lemma_square_monotone(ub, h as int);
                if squared_distance(x, cs[j]) < squared_distance(x, cs[a]) {
                    lemma_squared_distance_metric(x, cs[j]);
                    lemma_squared_distance_metric(cs[a], cs[j]);
                    lemma_triangle_strict(cs[j], x, cs[a], h, h);
                    assert((h + h) * (h + h) == (2 * h) * (2 * h));
                }
            }
        }
    }
}

/// The assignment phase is sound: where the bounds of a point hold before its
/// step, they hold after it, and no centroid is nearer to the sample than the
/// one that the point then names.
pub proof fn lemma_assign_step_is_sound(
    x: Color,
    centers: HamerlyCentroids,
    p: HamerlyPoint,
    q: HamerlyPoint,
)
    requires
        centers.wf(),
        centers.halves_hold(),
        bounds_hold(x, centers.centroids@, p),
        is_assign_step(x, centers, p, q),
    ensures
        bounds_hold(x, centers.centroids@, q),
        is_minimizer(x, centers.centroids@, q.index as int),
{
    let cs = centers.centroids@;
    let z = centers.threshold(p);
    let d = squared_distance(x, cs[p.index as int]);
    if p.upper_bound <= z {
        lemma_pruned_point_is_nearest(x, centers, p);
    } else if d <= z * z || cs.len() < 2 {
        assert(lower_bound_holds(x, cs, q));
        if d <= z * z {
            if q.upper_bound > z {
                lemma_square_monotone(z as int, q.upper_bound as int - 1);
            }
            lemma_pruned_point_is_nearest(x, centers, q);
        }
    }
}

/// Bounds survive an update: where the bounds of a point hold for the
/// centroids before and each delta covers its centroid's move, the bounds of
/// the shifted point hold for the centroids after.
pub proof fn lemma_shift_keeps_bounds(
    x: Color,
    before: Seq<Color>,
    after: Seq<Color>,
    deltas: Seq<u32>,
    p: HamerlyPoint,
)
    requires
        deltas_cover(before, after, deltas),
        bounds_hold(x, before, p),
    ensures
        bounds_hold(x, after, shifted(p, deltas)),
{
    let q = shifted(p, deltas);
    let a = p.index as int;
    lemma_largest(deltas);
    lemma_squared_distance_metric(x, after[a]);
    assert(upper_bound_holds(x, after, q)) by {
        let sum = (p.upper_bound + deltas[a]) as nat;
        lemma_triangle(x, before[a], after[a], p.upper_bound as nat, deltas[a] as nat);
        if sum > u32::MAX {
            assert(q.upper_bound * q.upper_bound >= 195075) by (nonlinear_arith)
                requires
                    q.upper_bound == u32::MAX,
            ;
        }
    }
    assert forall|j: int| 0 <= j < after.len() && j != q.index implies q.lower_bound
        * q.lower_bound <= squared_distance(x, #[trigger] after[j]) by {
        let low = q.lower_bound as nat;
        let dp = largest(deltas);
        if low > 0 && squared_distance(x, after[j]) < low * low {
            lemma_squared_distance_metric(before[j], after[j]);
            lemma_triangle_strict(x, after[j], before[j], low, deltas[j] as nat);
            lemma_square_monotone((low + deltas[j]) as int, (low + dp) as int);
            assert(low + dp == p.lower_bound);
            assert(squared_distance(x, before[j]) >= p.lower_bound * p.lower_bound);
            assert(false);
        }
        if low == 0 {
            assert(q.lower_bound * q.lower_bound == 0);
        }
    }
}

/// A shift moves the bounds apart and never together: the cluster id stays,
/// the upper bound does not shrink and the lower bound does not grow. Where
/// no centroid moved, the point stays as it is.
pub proof fn lemma_shift_moves_bounds_apart(p: HamerlyPoint, deltas: Seq<u32>)
    requires
        (p.index as int) < deltas.len(),
    ensures
        shifted(p, deltas).index == p.index,
        shifted(p, deltas).upper_bound >= p.upper_bound,
        shifted(p, deltas).lower_bound <= p.lower_bound,
        (forall|j: int| 0 <= j < deltas.len() ==> #[trigger] deltas[j] == 0) ==> shifted(p, deltas)
            == p,
{
    lemma_largest(deltas);
    if forall|j: int| 0 <= j < deltas.len() ==> #[trigger] deltas[j] == 0 {
        lemma_largest_is_a_delta(deltas);
    }
}

/// Bounds survive an update for every sample at once.
pub proof fn lemma_shift_keeps_all_bounds(
    samples: Seq<Color>,
    before: Seq<Color>,
    after: Seq<Color>,
    deltas: Seq<u32>,
    points: Seq<HamerlyPoint>,
    moved: Seq<HamerlyPoint>,
)
    requires
        deltas_cover(before, after, deltas),
        all_bounds_hold(samples, before, points),
        moved.len() == points.len(),
        forall|i: int| 0 <= i < points.len() ==> #[trigger] moved[i] == shifted(points[i], deltas),
    ensures
        all_bounds_hold(samples, after, moved),
{
    assert forall|i: int| 0 <= i < moved.len() implies bounds_hold(
        samples[i],
        after,
        #[trigger] moved[i],
    ) by {
        lemma_shift_keeps_bounds(samples[i], before, after, deltas, points[i]);
    }
}

/// The least squared distance from `x` to a centroid other than the one at
/// `skip`.
fn runner_up(x: &Color, centroids: &Vec<Color>, skip: usize) -> (m: u32)
    ensures
        is_runner_up(*x, centroids@, skip as int, m as nat),
{
    let mut least: u32 = u32::MAX;
    let ghost mut at: int = 0;
    let mut j: usize = 0;
    while j < centroids.len()
        invariant
            j <= centroids@.len(),
            forall|m: int|
                0 <= m < j && m != skip ==> least <= squared_distance(*x, #[trigger] centroids@[m]),
            least == u32::MAX || (0 <= at < j && at != skip && squared_distance(*x, centroids@[at])
                == least),
        decreases centroids@.len() - j,
    {
        if j != skip {
            let d: u32 = Color::difference(x, &centroids[j]);
            if d < least {
                least = d;
                proof {
                    at = j as int;
                }
            }
        }
        j += 1;
    }
    least
}

/// The largest of the deltas.
fn largest_delta(deltas: &Vec<u32>) -> (m: u32)
    ensures
        m == largest(deltas@),
{
    let mut most: u32 = 0;
    let mut j: usize = 0;
    while j < deltas.len()
        invariant
            j <= deltas@.len(),
            most == largest(deltas@.take(j as int)),
        decreases deltas@.len() - j,
    {
        proof {
            assert(deltas@.take(j + 1).drop_last() == deltas@.take(j as int));
        }
        if deltas[j] > most {
            most = deltas[j];
        }
        j += 1;
    }
    proof {
        assert(deltas@.take(deltas@.len() as int) == deltas@);
    }
    most
}

/// Half the distance from centroid `i` to the nearest other centroid.
pub fn half_distance_of(centroids: &Vec<Color>, i: usize) -> (h: u32)
    requires
        i < centroids@.len(),
    ensures
        is_half_distance(centroids@, i as int, h as nat),
{
    if centroids.len() < 2 {
        return u32::MAX;
    }
    let x: Color = centroids[i];
    let least: u32 = runner_up(&x, centroids, i);
    let root: u32 = floor_sqrt(least);
    let half: u32 = root / 2;
    proof {
        let other: int = if i == 0 {
            1
        } else {
            0
        };
        lemma_squared_distance_metric(x, centroids@[other]);
        assert(least != u32::MAX);
        lemma_square_monotone(2 * half as int, root as int);
        lemma_square_monotone(root as int + 1, 2 * half as int + 2);
    }
    half
}

/// Hands the half-distances out to rayon's worker threads: `par_iter_mut` on
/// the list, `enumerate`, and `for_each`, which runs `half_distance_of` once
/// for each place of the list and stores what it returns there.
#[verifier::external_body]
fn halves_in_parallel(centroids: &Vec<Color>, half_distances: &mut Vec<u32>)
    requires
        old(half_distances)@.len() == centroids@.len(),
    ensures
        final(half_distances)@.len() == centroids@.len(),
        forall|i: int|
            0 <= i < centroids@.len() ==> is_half_distance(
                centroids@,
                i,
                #[trigger] final(half_distances)@[i] as nat,
            ),
{
    half_distances.par_iter_mut().enumerate().for_each(
        |(i, half): (usize, &mut u32)| *half = half_distance_of(centroids, i),
    );
}

/// Hands the points out to rayon's worker threads: `par_iter_mut` on the
/// points, `zip` with `par_iter` on the samples, and `for_each`, which runs
/// `assign_point` once for each sample with its point and stores what it
/// returns in the point's place.
#[verifier::external_body]
fn assign_in_parallel(buffer: &[Color], centers: &HamerlyCentroids, points: &mut [HamerlyPoint])
    requires
        centers.wf(),
        centers.halves_hold(),
        all_bounds_hold(buffer@, centers.centroids@, old(points)@),
    ensures
        final(points)@.len() == old(points)@.len(),
        forall|i: int|
            0 <= i < buffer@.len() ==> is_assign_step(
                buffer@[i],
                *centers,
                old(points)@[i],
                #[trigger] final(points)@[i],
            ),
{
    points.par_iter_mut().zip(buffer.par_iter()).for_each(
        |(point, x): (&mut HamerlyPoint, &Color)| *point = assign_point(x, centers, *point),
    );
}

/// A full scan of the centroids for sample `x`.
fn rescan(x: &Color, centroids: &Vec<Color>) -> (q: HamerlyPoint)
    requires
        1 <= centroids@.len() <= MAX_CLUSTERS,
    ensures
        is_rescanned(*x, centroids@, q),
        bounds_hold(*x, centroids@, q),
{
    let nearest: usize = match closest_index(x, centroids.as_slice()) {
        Some(j) => j,
        None => 0,
    };
    let min1: u32 = Color::difference(x, &centroids[nearest]);
    let min2: u32 = runner_up(x, centroids, nearest);
    let q = HamerlyPoint {
        index: nearest as u8,
        upper_bound: ceil_sqrt(min1),
        lower_bound: floor_sqrt(min2),
    };
    proof {
        let low = q.lower_bound as nat;
        assert forall|j: int| 0 <= j < centroids@.len() && j != q.index implies low * low
            <= squared_distance(*x, #[trigger] centroids@[j]) by {}
        if centroids@.len() >= 2 {
            let other: int = if nearest == 0 {
                1
            } else {
                0
            };
            lemma_squared_distance_metric(*x, centroids@[other]);
            assert(min2 != u32::MAX);
        } else {
            assert(min2 == u32::MAX);
            if low < UNBOUNDED {
                lemma_square_monotone(low as int + 1, UNBOUNDED as int);
                assert(UNBOUNDED * UNBOUNDED == 4294836225) by (nonlinear_arith);
            }
        }
    }
    q
}

/// The assignment phase for one sample: the point stays where its bounds
/// settle that its centroid is still a nearest one, and is scanned anew where
/// they do not.
pub fn assign_point(x: &Color, centers: &HamerlyCentroids, point: HamerlyPoint) -> (next:
    HamerlyPoint)
    requires
        centers.wf(),
        centers.halves_hold(),
        bounds_hold(*x, centers.centroids@, point),
    ensures
        is_assign_step(*x, *centers, point, next),
        bounds_hold(*x, centers.centroids@, next),
        is_minimizer(*x, centers.centroids@, next.index as int),
{
    let own: usize = point.index as usize;
    let half: u32 = centers.half_distances[own];
    let z: u32 = if half >= point.lower_bound {
        half
    } else {
        point.lower_bound
    };
    if point.upper_bound <= z {
        proof {
            lemma_pruned_point_is_nearest(*x, *centers, point);
        }
        return point;
    }
    let d: u32 = Color::difference(x, &centers.centroids[own]);
    let tight: u32 = ceil_sqrt(d);
    let kept = HamerlyPoint { index: point.index, upper_bound: tight, lower_bound: point.lower_bound };
    proof {
        if tight <= z {
            lemma_square_monotone(tight as int, z as int);
        } else {
            lemma_square_monotone(z as int, tight as int - 1);
        }
        assert(tight <= z <==> d <= z * z);
    }
    if tight <= z {
        proof {
            lemma_pruned_point_is_nearest(*x, *centers, kept);
        }
        return kept;
    }
    if centers.centroids.len() < 2 {
        return kept;
    }
    rescan(x, &centers.centroids)
}

/// The points of a run at its start: each sample scanned against the
/// centroids.
pub fn init_points(buffer: &[Color], centroids: &Vec<Color>) -> (points: Vec<HamerlyPoint>)
    requires
        1 <= centroids@.len() <= MAX_CLUSTERS,
    ensures
        all_bounds_hold(buffer@, centroids@, points@),
        forall|i: int| 0 <= i < buffer@.len() ==> is_rescanned(buffer@[i], centroids@, #[trigger] points@[i]),
{
    let mut points: Vec<HamerlyPoint> = Vec::new();
    let mut i: usize = 0;
    while i < buffer.len()
        invariant
            i <= buffer@.len(),
            1 <= centroids@.len() <= MAX_CLUSTERS,
            points@.len() == i,
            forall|m: int|
                0 <= m < i ==> bounds_hold(buffer@[m], centroids@, #[trigger] points@[m])
                    && is_rescanned(buffer@[m], centroids@, points@[m]),
        decreases buffer@.len() - i,
    {
        let q: HamerlyPoint = rescan(&buffer[i], centroids);
        points.push(q);
        i += 1;
    }
    points
}

/// The cluster ids of the points, in their order.
pub fn ids_of(points: &[HamerlyPoint]) -> (ids: Vec<u8>)
    ensures
        ids@ == point_ids(points@),
{
    let mut ids: Vec<u8> = Vec::new();
    let mut i: usize = 0;
    while i < points.len()
        invariant
            i <= points@.len(),
            ids@ == point_ids(points@).take(i as int),
        decreases points@.len() - i,
    {
        ids.push(points[i].index);
        proof {
            assert(ids@ == point_ids(points@).take(i + 1));
        }
        i += 1;
    }
    proof {
        assert(point_ids(points@).take(points@.len() as int) == point_ids(points@));
    }
    ids
}

impl HamerlyCentroids {
    /// The centroids of a run at its start: no centroid has moved yet, and
    /// the half-distances are those of `centroids`.
    pub fn new(centroids: Vec<Color>) -> (centers: HamerlyCentroids)
        requires
            centroids@.len() <= MAX_CLUSTERS,
        ensures
            centers.centroids@ == centroids@,
            centers.wf(),
            centers.halves_hold(),
            forall|i: int| 0 <= i < centers.deltas@.len() ==> centers.deltas@[i] == 0,
    {
        let mut deltas: Vec<u32> = Vec::new();
        let mut half_distances: Vec<u32> = Vec::new();
        let mut i: usize = 0;
        while i < centroids.len()
            invariant
                i <= centroids@.len(),
                deltas@.len() == i,
                half_distances@.len() == i,
                forall|m: int| 0 <= m < i ==> deltas@[m] == 0,
            decreases centroids@.len() - i,
        {
            deltas.push(0);
            half_distances.push(0);
            i += 1;
        }
        let mut centers = HamerlyCentroids { centroids, deltas, half_distances };
        Color::compute_half_distances(&mut centers);
        centers
    }
}

impl Color {
    /// Sets each centroid's half-distance: half the distance to the nearest
    /// other centroid.
    pub fn compute_half_distances(centers: &mut HamerlyCentroids)
        requires
            old(centers).wf(),
        ensures
            final(centers).centroids@ == old(centers).centroids@,
            final(centers).deltas@ == old(centers).deltas@,
            final(centers).wf(),
            final(centers).halves_hold(),
    {
        halves_in_parallel(&centers.centroids, &mut centers.half_distances);
    }

    /// The assignment phase: `assign_point` for each sample and its point.
    pub fn get_closest_centroid_hamerly(
        buffer: &[Color],
        centers: &HamerlyCentroids,
        points: &mut [HamerlyPoint],
    )
        requires
            centers.wf(),
            centers.halves_hold(),
            all_bounds_hold(buffer@, centers.centroids@, old(points)@),
        ensures
            all_bounds_hold(buffer@, centers.centroids@, final(points)@),
            forall|i: int|
                0 <= i < buffer@.len() ==> is_assign_step(
                    buffer@[i],
                    *centers,
                    old(points)@[i],
                    #[trigger] final(points)@[i],
                ),
            forall|i: int|
                0 <= i < buffer@.len() ==> is_minimizer(
                    buffer@[i],
                    centers.centroids@,
                    (#[trigger] final(points)@[i]).index as int,
                ),
    {
        assign_in_parallel(buffer, centers, points);
        proof {
            assert forall|i: int| 0 <= i < buffer@.len() implies bounds_hold(
                buffer@[i],
                centers.centroids@,
                #[trigger] points@[i],
            ) && is_minimizer(buffer@[i], centers.centroids@, points@[i].index as int) by {
                lemma_assign_step_is_sound(buffer@[i], *centers, old(points)@[i], points@[i]);
            }
        }
    }

    /// The update phase: each centroid becomes the mean of the samples whose
    /// point carries its id, or a random colour where there is none, and its
    /// delta becomes the distance that it moved, rounded up.
    pub fn recalculate_centroids_hamerly(
        rng: &mut StdRng,
        buf: &[Color],
        centers: &mut HamerlyCentroids,
        points: &[HamerlyPoint],
    )
        requires
            old(centers).wf(),
        ensures
            final(centers).wf(),
            final(centers).half_distances@ == old(centers).half_distances@,
            is_update(buf@, point_ids(points@), final(centers).centroids@),
            deltas_cover(old(centers).centroids@, final(centers).centroids@, final(centers).deltas@),
            forall|j: int|
                0 <= j < final(centers).centroids@.len() ==> is_ceil_root(
                    squared_distance(old(centers).centroids@[j], final(centers).centroids@[j]),
                    #[trigger] final(centers).deltas@[j] as nat,
                ),
    {
        let ids: Vec<u8> = ids_of(points);
        let n: usize = centers.centroids.len();
        let mut id: usize = 0;
        while id < n
            invariant
                id <= n,
                n == centers.centroids@.len(),
                centers.wf(),
                centers.centroids@.len() == old(centers).centroids@.len(),
                centers.half_distances@ == old(centers).half_distances@,
                ids@ == point_ids(points@),
                forall|m: int| id <= m < n ==> centers.centroids@[m] == old(centers).centroids@[m],
                forall|m: int|
                    0 <= m < id && member_count(
                        ids@,
                        m,
                        paired_len(buf@, ids@),
                    ) > 0 ==> #[trigger] centers.centroids@[m] == cluster_mean(
                        buf@,
                        ids@,
                        m,
                    ),
                forall|m: int|
                    0 <= m < id ==> is_ceil_root(
                        squared_distance(old(centers).centroids@[m], centers.centroids@[m]),
                        #[trigger] centers.deltas@[m] as nat,
                    ),
            decreases n - id,
        {
            let next: Color = updated_centroid(rng, buf, ids.as_slice(), id);
            let moved: u32 = ceil_sqrt(Color::difference(&centers.centroids[id], &next));
            centers.deltas[id] = moved;
            centers.centroids[id] = next;
            id += 1;
        }
    }

    /// Bound maintenance after an update: every point is shifted by the
    /// deltas.
    pub fn update_bounds(centers: &HamerlyCentroids, points: &mut [HamerlyPoint])
        requires
            centers.wf(),
            forall|i: int|
                0 <= i < old(points)@.len() ==> ((#[trigger] old(points)@[i]).index as int)
                    < centers.centroids@.len(),
        ensures
            final(points)@.len() == old(points)@.len(),
            forall|i: int|
                0 <= i < old(points)@.len() ==> #[trigger] final(points)@[i] == shifted(
                    old(points)@[i],
                    centers.deltas@,
                ),
            forall|i: int|
                0 <= i < old(points)@.len() ==> (#[trigger] final(points)@[i]).index == old(
                    points,
                )@[i].index && final(points)@[i].upper_bound >= old(points)@[i].upper_bound
                    && final(points)@[i].lower_bound <= old(points)@[i].lower_bound,
            (forall|j: int| 0 <= j < centers.deltas@.len() ==> #[trigger] centers.deltas@[j] == 0)
                ==> final(points)@ == old(points)@,
    {
        let delta_p: u32 = largest_delta(&centers.deltas);
        let mut i: usize = 0;
        while i < points.len()
            invariant
                i <= points@.len(),
                centers.wf(),
                delta_p == largest(centers.deltas@),
                points@.len() == old(points)@.len(),
                forall|m: int| i <= m < points@.len() ==> points@[m] == old(points)@[m],
                forall|m: int|
                    0 <= m < old(points)@.len() ==> ((#[trigger] old(points)@[m]).index as int)
                        < centers.centroids@.len(),
                forall|m: int|
                    0 <= m < i ==> #[trigger] points@[m] == shifted(
                        old(points)@[m],
                        centers.deltas@,
                    ),
            decreases points@.len() - i,
        {
            let p: HamerlyPoint = points[i];
            let q = HamerlyPoint {
                index: p.index,
                upper_bound: p.upper_bound.saturating_add(centers.deltas[p.index as usize]),
                lower_bound: p.lower_bound.saturating_sub(delta_p),
            };
            points[i] = q;
            i += 1;
        }
        proof {
            assert forall|i: int| 0 <= i < points@.len() implies (#[trigger] points@[i]).index
                == old(points)@[i].index && points@[i].upper_bound >= old(points)@[i].upper_bound
                && points@[i].lower_bound <= old(points)@[i].lower_bound && ((forall|j: int|
                0 <= j < centers.deltas@.len() ==> #[trigger] centers.deltas@[j] == 0)
                ==> points@[i] == old(points)@[i]) by {
                lemma_shift_moves_bounds_apart(old(points)@[i], centers.deltas@);
            }
            if forall|j: int| 0 <= j < centers.deltas@.len() ==> #[trigger] centers.deltas@[j] == 0 {
                assert(points@ =~= old(points)@);
            }
        }
    }
}

} // verus!
