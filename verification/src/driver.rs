//! The rounds of a clustering run: assign, update, and stop once the
//! centroids have come to rest or the budget of rounds is spent.

use vstd::prelude::*;
use rand::rngs::StdRng;
use crate::color::{squared_distance, Color, MAX_CLUSTERS};
use crate::hamerly::{
    all_bounds_hold,
    ids_of,
    init_points,
    lemma_shift_keeps_all_bounds,
    point_ids,
    HamerlyCentroids,
    HamerlyPoint,
};
use crate::standard::{
    cluster_mean,
    is_assignment,
    is_minimizer,
    is_nearest,
    is_update,
    member_count,
    movement,
    paired_len,
};

verus! {

/// One round of the plain engine: every sample has the id of its nearest
/// centroid in `before`, the first of several, and `after` is the update of
/// the centroids under these ids.
pub open spec fn is_round(
    samples: Seq<Color>,
    before: Seq<Color>,
    ids: Seq<u8>,
    after: Seq<Color>,
) -> bool {
    &&& before.len() == after.len()
    &&& ids.len() == samples.len()
    &&& forall|i: int| 0 <= i < samples.len() ==> is_assignment(samples[i], before, #[trigger] ids[i])
    &&& is_update(samples, ids, after)
}

/// One round of the engine with bounds: every sample has the id of a centroid
/// in `before` that none is nearer than, and `after` is the update of the
/// centroids under these ids.
pub open spec fn is_bounded_round(
    samples: Seq<Color>,
    before: Seq<Color>,
    ids: Seq<u8>,
    after: Seq<Color>,
) -> bool {
    &&& before.len() == after.len()
    &&& ids.len() == samples.len()
    &&& forall|i: int|
        0 <= i < samples.len() ==> is_minimizer(samples[i], before, (#[trigger] ids[i]) as int)
    &&& is_update(samples, ids, after)
}

/// Exactly one centroid is nearest to `x`.
pub open spec fn has_one_nearest(x: Color, centroids: Seq<Color>) -> bool {
    forall|i: int, j: int|
        0 <= i < centroids.len() && 0 <= j < centroids.len() && i != j && is_minimizer(
            x,
            centroids,
            i,
        ) ==> squared_distance(x, #[trigger] centroids[i]) != squared_distance(
            x,
            #[trigger] centroids[j],
        )
}

/// The two engines agree on a sample: the centroid that the engine with
/// bounds keeps is as near as the one that the plain engine finds and stands
/// no earlier, and it is the same one where only one centroid is nearest.
pub proof fn lemma_engines_agree_on_sample(x: Color, centroids: Seq<Color>, plain: int, bounded: int)
    requires
        is_nearest(x, centroids, plain),
        is_minimizer(x, centroids, bounded),
    ensures
        squared_distance(x, centroids[plain]) == squared_distance(x, centroids[bounded]),
        plain <= bounded,
        has_one_nearest(x, centroids) ==> plain == bounded,
{
    assert(squared_distance(x, centroids[plain]) <= squared_distance(x, centroids[bounded]));
    assert(squared_distance(x, centroids[bounded]) <= squared_distance(x, centroids[plain]));
}

/// The two engines agree on a round: from the same centroids, where every
/// sample has exactly one nearest centroid, both give every sample the same
/// id and every cluster that has members the same new centroid.
pub proof fn lemma_engines_agree_on_round(
    samples: Seq<Color>,
    before: Seq<Color>,
    plain_ids: Seq<u8>,
    plain_after: Seq<Color>,
    bounded_ids: Seq<u8>,
    bounded_after: Seq<Color>,
)
    requires
        is_round(samples, before, plain_ids, plain_after),
        is_bounded_round(samples, before, bounded_ids, bounded_after),
        forall|i: int| 0 <= i < samples.len() ==> has_one_nearest(#[trigger] samples[i], before),
    ensures
        plain_ids == bounded_ids,
        forall|id: int|
            0 <= id < before.len() && member_count(plain_ids, id, paired_len(samples, plain_ids)) > 0
                ==> #[trigger] plain_after[id] == bounded_after[id],
{
    assert forall|i: int| 0 <= i < samples.len() implies plain_ids[i] == bounded_ids[i] by {
        assert(is_assignment(samples[i], before, plain_ids[i]));
        assert(is_minimizer(samples[i], before, bounded_ids[i] as int));
        assert(has_one_nearest(samples[i], before));
        lemma_engines_agree_on_sample(
            samples[i],
            before,
            plain_ids[i] as int,
            bounded_ids[i] as int,
        );
    }
    assert(plain_ids =~= bounded_ids);
    assert forall|id: int|
        0 <= id < before.len() && member_count(
            plain_ids,
            id,
            paired_len(samples, plain_ids),
        ) > 0 implies #[trigger] plain_after[id] == bounded_after[id] by {
        assert(plain_after[id] == cluster_mean(samples, plain_ids, id));
        assert(bounded_after[id] == cluster_mean(samples, bounded_ids, id));
    }
}

/// Nothing is left open in a round from `before` that gives the ids `ids`:
/// every sample has exactly one nearest centroid, and every cluster has a
/// member, so that no centroid is drawn at random.
pub open spec fn is_settled_round(samples: Seq<Color>, before: Seq<Color>, ids: Seq<u8>) -> bool {
    &&& forall|i: int| 0 <= i < samples.len() ==> has_one_nearest(#[trigger] samples[i], before)
    &&& forall|id: int|
        0 <= id < before.len() ==> #[trigger] member_count(ids, id, paired_len(samples, ids)) > 0
}

/// The first `n` rounds of a run of each engine are the same, where nothing
/// is left open in those of the plain engine.
proof fn lemma_runs_agree_up_to(
    samples: Seq<Color>,
    initial: Seq<Color>,
    plain_afters: Seq<Seq<Color>>,
    plain_ids: Seq<Seq<u8>>,
    bounded_afters: Seq<Seq<Color>>,
    bounded_ids: Seq<Seq<u8>>,
    max_iterations: usize,
    epsilon: u64,
    n: int,
)
    requires
        is_run(false, samples, initial, plain_afters, plain_ids, max_iterations, epsilon),
        is_run(true, samples, initial, bounded_afters, bounded_ids, max_iterations, epsilon),
        forall|r: int|
            0 <= r < plain_afters.len() ==> is_settled_round(
                samples,
                start_of(initial, plain_afters, r),
                #[trigger] plain_ids[r],
            ),
        0 <= n <= plain_afters.len(),
        n <= bounded_afters.len(),
    ensures
        forall|r: int|
            0 <= r < n ==> #[trigger] plain_afters[r] == bounded_afters[r] && plain_ids[r]
                == bounded_ids[r],
    decreases n,
{
    if n > 0 {
        lemma_runs_agree_up_to(
            samples,
            initial,
            plain_afters,
            plain_ids,
            bounded_afters,
            bounded_ids,
            max_iterations,
            epsilon,
            n - 1,
        );
        let r = n - 1;
        let before = start_of(initial, plain_afters, r);
        if r > 0 {
            assert(plain_afters[r - 1] == bounded_afters[r - 1]);
        }
        assert(before == start_of(initial, bounded_afters, r));
        assert(is_engine_round(false, samples, before, plain_ids[r], plain_afters[r]));
        assert(is_engine_round(true, samples, before, bounded_ids[r], bounded_afters[r]));
        assert(is_settled_round(samples, before, plain_ids[r]));
        lemma_engines_agree_on_round(
            samples,
            before,
            plain_ids[r],
            plain_afters[r],
            bounded_ids[r],
            bounded_afters[r],
        );
        assert(plain_afters[r] =~= bounded_afters[r]);
    }
}

/// The two engines agree on a run: from the same centroids and with the same
/// budget and `epsilon`, both do the same rounds and end with the same
/// centroids and the same ids, where nothing is left open in the rounds of
/// the plain engine.
pub proof fn lemma_engines_agree_on_run(
    samples: Seq<Color>,
    initial: Seq<Color>,
    plain_afters: Seq<Seq<Color>>,
    plain_ids: Seq<Seq<u8>>,
    bounded_afters: Seq<Seq<Color>>,
    bounded_ids: Seq<Seq<u8>>,
    max_iterations: usize,
    epsilon: u64,
)
    requires
        is_run(false, samples, initial, plain_afters, plain_ids, max_iterations, epsilon),
        is_run(true, samples, initial, bounded_afters, bounded_ids, max_iterations, epsilon),
        forall|r: int|
            0 <= r < plain_afters.len() ==> is_settled_round(
                samples,
                start_of(initial, plain_afters, r),
                #[trigger] plain_ids[r],
            ),
    ensures
        plain_afters == bounded_afters,
        plain_ids == bounded_ids,
{
    let n: int = if plain_afters.len() <= bounded_afters.len() {
        plain_afters.len() as int
    } else {
        bounded_afters.len() as int
    };
    lemma_runs_agree_up_to(
        samples,
        initial,
        plain_afters,
        plain_ids,
        bounded_afters,
        bounded_ids,
        max_iterations,
        epsilon,
        n,
    );
    let r = n - 1;
    assert(plain_afters[r] == bounded_afters[r]);
    if r > 0 {
        assert(plain_afters[r - 1] == bounded_afters[r - 1]);
    }
    assert(score_of(initial, plain_afters, r) == score_of(initial, bounded_afters, r));
    assert(plain_afters.len() == bounded_afters.len());
    assert(plain_afters =~= bounded_afters);
    assert(plain_ids =~= bounded_ids);
}

/// One more round leaves the rounds before it as they were: each begins with
/// the same centroids and has the same score, and the new round begins with
/// what the last one ended with.
proof fn lemma_round_added(initial: Seq<Color>, afters: Seq<Seq<Color>>, after: Seq<Color>)
    ensures
        forall|r: int|
            0 <= r <= afters.len() ==> #[trigger] start_of(initial, afters.push(after), r)
                == start_of(initial, afters, r),
        forall|r: int|
            0 <= r < afters.len() ==> #[trigger] score_of(initial, afters.push(after), r)
                == score_of(initial, afters, r),
        score_of(initial, afters.push(after), afters.len() as int) == movement(
            after,
            start_of(initial, afters, afters.len() as int),
            initial.len() as int,
        ),
{
}

/// A copy of a list of colours.
fn copy_colors(colors: &Vec<Color>) -> (copy: Vec<Color>)
    ensures
        copy@ == colors@,
{
    let mut copy: Vec<Color> = Vec::new();
    let mut i: usize = 0;
    while i < colors.len()
        invariant
            i <= colors@.len(),
            copy@ == colors@.take(i as int),
        decreases colors@.len() - i,
    {
        copy.push(colors[i]);
        proof {
            assert(copy@ == colors@.take(i + 1));
        }
        i += 1;
    }
    proof {
        assert(colors@.take(colors@.len() as int) == colors@);
    }
    copy
}

/// The outcome of a run.
pub struct Clustering {
    /// The centroids after the last round.
    pub centroids: Vec<Color>,
    /// The cluster id of each sample, as given in the last round.
    pub indices: Vec<u8>,
    /// How far the centroids moved in the last round.
    pub score: u64,
    /// How many rounds were done.
    pub rounds: usize,
}

/// How many rounds a run may take: `max_iterations`, and one where that is 0.
pub open spec fn round_budget(max_iterations: usize) -> int {
    if max_iterations == 0 {
        1
    } else {
        max_iterations as int
    }
}

/// One round of either engine.
pub open spec fn is_engine_round(
    bounded: bool,
    samples: Seq<Color>,
    before: Seq<Color>,
    ids: Seq<u8>,
    after: Seq<Color>,
) -> bool {
    if bounded {
        is_bounded_round(samples, before, ids, after)
    } else {
        is_round(samples, before, ids, after)
    }
}

/// The centroids that round `r` of a run begins with: the initial ones, or
/// those that the round before ended with.
pub open spec fn start_of(initial: Seq<Color>, afters: Seq<Seq<Color>>, r: int) -> Seq<Color> {
    if r <= 0 {
        initial
    } else {
        afters[r - 1]
    }
}

/// How far the centroids moved in round `r` of a run.
pub open spec fn score_of(initial: Seq<Color>, afters: Seq<Seq<Color>>, r: int) -> nat {
    movement(afters[r], start_of(initial, afters, r), initial.len() as int)
}

/// A whole run: `afters` holds the centroids and `ids` the cluster ids that
/// each round ended with.
///
/// Each round is a round of the engine from the centroids of the round
/// before. At least one round is done and no more than the budget allows.
/// Every round but the last moved the centroids by `epsilon` or more, and the
/// last one moved them by less, unless the budget ended the run.
pub open spec fn is_run(
    bounded: bool,
    samples: Seq<Color>,
    initial: Seq<Color>,
    afters: Seq<Seq<Color>>,
    ids: Seq<Seq<u8>>,
    max_iterations: usize,
    epsilon: u64,
) -> bool {
    &&& afters.len() == ids.len()
    &&& 1 <= afters.len() <= round_budget(max_iterations)
    &&& forall|r: int|
        0 <= r < afters.len() ==> is_engine_round(
            bounded,
            samples,
            start_of(initial, afters, r),
            #[trigger] ids[r],
            afters[r],
        )
    &&& forall|r: int|
        0 <= r < afters.len() - 1 ==> #[trigger] score_of(initial, afters, r) >= epsilon
    &&& score_of(initial, afters, afters.len() - 1) < epsilon || afters.len() == round_budget(
        max_iterations,
    )
}

/// `run` is what the run with the rounds `afters` and `ids` ends with.
pub open spec fn is_outcome(
    initial: Seq<Color>,
    afters: Seq<Seq<Color>>,
    ids: Seq<Seq<u8>>,
    run: Clustering,
) -> bool {
    &&& run.rounds == afters.len()
    &&& run.centroids@ == afters.last()
    &&& run.indices@ == ids.last()
    &&& run.score == score_of(initial, afters, afters.len() - 1)
}

/// Runs the plain engine on `samples`, starting from `initial_centroids`.
///
/// Rounds of assignment and update follow each other until the centroids move
/// by less than `epsilon` in a round, or `max_iterations` rounds are done; at
/// least one round is done. Without centroids there is nothing to do: no
/// round is done and both lists come back empty.
pub fn kmeans(
    samples: &[Color],
    initial_centroids: Vec<Color>,
    max_iterations: usize,
    epsilon: u64,
    rng: &mut StdRng,
) -> (run: Clustering)
    requires
        initial_centroids@.len() <= MAX_CLUSTERS,
    ensures
        run.centroids@.len() == initial_centroids@.len(),
        initial_centroids@.len() == 0 ==> run.indices@.len() == 0 && run.rounds == 0 && run.score
            == 0,
        initial_centroids@.len() > 0 ==> exists|afters: Seq<Seq<Color>>, ids: Seq<Seq<u8>>|
            is_run(false, samples@, initial_centroids@, afters, ids, max_iterations, epsilon)
                && is_outcome(initial_centroids@, afters, ids, run),
{
    if initial_centroids.len() == 0 {
        return Clustering { centroids: initial_centroids, indices: Vec::new(), score: 0, rounds: 0 };
    }
    let ghost first = initial_centroids@;
    let mut centroids: Vec<Color> = initial_centroids;
    let mut indices: Vec<u8> = Vec::new();
    let mut score: u64 = 0;
    let mut rounds: usize = 0;
    let mut done: bool = false;
    let ghost mut afters: Seq<Seq<Color>> = Seq::empty();
    let ghost mut given: Seq<Seq<u8>> = Seq::empty();
    while !done
        invariant
            0 < first.len() <= MAX_CLUSTERS,
            centroids@.len() == first.len(),
            afters.len() == rounds,
            given.len() == rounds,
            rounds <= round_budget(max_iterations),
            !done ==> rounds == 0 || rounds < max_iterations,
            rounds == 0 ==> !done,
            centroids@ == start_of(first, afters, rounds as int),
            rounds > 0 ==> indices@ == given.last(),
            rounds > 0 ==> score == score_of(first, afters, rounds - 1),
            forall|r: int|
                0 <= r < rounds ==> is_engine_round(
                    false,
                    samples@,
                    start_of(first, afters, r),
                    #[trigger] given[r],
                    afters[r],
                ),
            forall|r: int| 0 <= r < rounds - 1 ==> #[trigger] score_of(first, afters, r) >= epsilon,
            !done && rounds > 0 ==> score >= epsilon,
            done ==> score < epsilon || rounds == round_budget(max_iterations),
        decreases
                if done {
                    0
                } else if rounds == 0 {
                    max_iterations + 1
                } else {
                    max_iterations - rounds
                },
    {
        let previous: Vec<Color> = copy_colors(&centroids);
        let mut ids: Vec<u8> = Vec::new();
        Color::get_closest_centroid(samples, previous.as_slice(), &mut ids);
        Color::recalculate_centroids(rng, samples, centroids.as_mut_slice(), ids.as_slice());
        score = Color::check_loop(centroids.as_slice(), previous.as_slice());
        indices = ids;
        proof {
            lemma_round_added(first, afters, centroids@);
            afters = afters.push(centroids@);
            given = given.push(indices@);
        }
        rounds = rounds + 1;
        if score < epsilon || rounds >= max_iterations {
            done = true;
        }
    }
    let run = Clustering { centroids, indices, score, rounds };
    proof {
        assert(is_run(false, samples@, first, afters, given, max_iterations, epsilon) && is_outcome(
            first,
            afters,
            given,
            run,
        ));
    }
    run
}

/// Clusters `samples` with the plain engine: the centroids and the cluster
/// ids that `kmeans` ends with.
pub fn cluster(
    samples: &[Color],
    initial_centroids: Vec<Color>,
    max_iterations: usize,
    epsilon: u64,
    rng: &mut StdRng,
) -> (result: (Vec<Color>, Vec<u8>))
    requires
        initial_centroids@.len() <= MAX_CLUSTERS,
    ensures
        result.0@.len() == initial_centroids@.len(),
        initial_centroids@.len() == 0 ==> result.1@.len() == 0,
        initial_centroids@.len() > 0 ==> result.1@.len() == samples@.len(),
        forall|i: int| 0 <= i < result.1@.len() ==> (#[trigger] result.1@[i] as int) < result.0@.len(),
        initial_centroids@.len() > 0 ==> exists|afters: Seq<Seq<Color>>, ids: Seq<Seq<u8>>|
            is_run(false, samples@, initial_centroids@, afters, ids, max_iterations, epsilon)
                && result.0@ == afters.last() && result.1@ == ids.last(),
        initial_centroids@.len() > 0 && max_iterations <= 1 ==> is_round(
            samples@,
            initial_centroids@,
            result.1@,
            result.0@,
        ),
{
    let run: Clustering = kmeans(samples, initial_centroids, max_iterations, epsilon, rng);
    proof {
        if initial_centroids@.len() > 0 {
            let (afters, ids) = choose|afters: Seq<Seq<Color>>, ids: Seq<Seq<u8>>|
                is_run(false, samples@, initial_centroids@, afters, ids, max_iterations, epsilon)
                    && is_outcome(initial_centroids@, afters, ids, run);
            let last = afters.len() - 1;
            let before = start_of(initial_centroids@, afters, last);
            assert(ids.last() == ids[last]);
            assert(is_engine_round(false, samples@, before, ids[last], afters[last]));
            assert(is_round(samples@, before, run.indices@, run.centroids@));
            assert(is_run(false, samples@, initial_centroids@, afters, ids, max_iterations, epsilon)
                && run.centroids@ == afters.last() && run.indices@ == ids.last());
            assert forall|i: int| 0 <= i < run.indices@.len() implies (
            #[trigger] run.indices@[i] as int) < run.centroids@.len() by {
                assert(is_assignment(samples@[i], before, run.indices@[i]));
            }
        }
    }
    (run.centroids, run.indices)
}

/// Runs the engine that keeps bounds on `samples`, starting from
/// `initial_centroids`.
///
/// The rounds and the way they end are those of `kmeans`. Every sample ends
/// with the id of a centroid that none was nearer than when the ids were last
/// given; among equally near centroids it need not be the first.
pub fn kmeans_hamerly(
    samples: &[Color],
    initial_centroids: Vec<Color>,
    max_iterations: usize,
    epsilon: u64,
    rng: &mut StdRng,
) -> (run: Clustering)
    requires
        initial_centroids@.len() <= MAX_CLUSTERS,
    ensures
        run.centroids@.len() == initial_centroids@.len(),
        initial_centroids@.len() == 0 ==> run.indices@.len() == 0 && run.rounds == 0 && run.score
            == 0,
        initial_centroids@.len() > 0 ==> exists|afters: Seq<Seq<Color>>, ids: Seq<Seq<u8>>|
            is_run(true, samples@, initial_centroids@, afters, ids, max_iterations, epsilon)
                && is_outcome(initial_centroids@, afters, ids, run),
{
    if initial_centroids.len() == 0 {
        return Clustering { centroids: initial_centroids, indices: Vec::new(), score: 0, rounds: 0 };
    }
    let ghost first = initial_centroids@;
    let mut centers: HamerlyCentroids = HamerlyCentroids::new(initial_centroids);
    let mut points: Vec<HamerlyPoint> = init_points(samples, &centers.centroids);
    let mut score: u64 = 0;
    let mut rounds: usize = 0;
    let mut done: bool = false;
    let ghost mut afters: Seq<Seq<Color>> = Seq::empty();
    let ghost mut given: Seq<Seq<u8>> = Seq::empty();
    while !done
        invariant
            0 < first.len() <= MAX_CLUSTERS,
            centers.centroids@.len() == first.len(),
            centers.wf(),
            centers.halves_hold(),
            all_bounds_hold(samples@, centers.centroids@, points@),
            afters.len() == rounds,
            given.len() == rounds,
            rounds <= round_budget(max_iterations),
            !done ==> rounds == 0 || rounds < max_iterations,
            rounds == 0 ==> !done,
            centers.centroids@ == start_of(first, afters, rounds as int),
            rounds > 0 ==> point_ids(points@) == given.last(),
            rounds > 0 ==> score == score_of(first, afters, rounds - 1),
            forall|r: int|
                0 <= r < rounds ==> is_engine_round(
                    true,
                    samples@,
                    start_of(first, afters, r),
                    #[trigger] given[r],
                    afters[r],
                ),
            forall|r: int| 0 <= r < rounds - 1 ==> #[trigger] score_of(first, afters, r) >= epsilon,
            !done && rounds > 0 ==> score >= epsilon,
            done ==> score < epsilon || rounds == round_budget(max_iterations),
        decreases
                if done {
                    0
                } else if rounds == 0 {
                    max_iterations + 1
                } else {
                    max_iterations - rounds
                },
    {
        Color::get_closest_centroid_hamerly(samples, &centers, points.as_mut_slice());
        let previous: Vec<Color> = copy_colors(&centers.centroids);
        let ghost assigned = points@;
        Color::recalculate_centroids_hamerly(rng, samples, &mut centers, points.as_slice());
        Color::compute_half_distances(&mut centers);
        Color::update_bounds(&centers, points.as_mut_slice());
        proof {
            lemma_shift_keeps_all_bounds(
                samples@,
                previous@,
                centers.centroids@,
                centers.deltas@,
                assigned,
                points@,
            );
            assert(point_ids(points@) =~= point_ids(assigned));
            assert forall|i: int| 0 <= i < samples@.len() implies is_minimizer(
                samples@[i],
                previous@,
                (#[trigger] point_ids(points@)[i]) as int,
            ) by {
                assert(is_minimizer(samples@[i], previous@, assigned[i].index as int));
            }
            assert(is_bounded_round(
                samples@,
                previous@,
                point_ids(points@),
                centers.centroids@,
            ));
        }
        score = Color::check_loop(centers.centroids.as_slice(), previous.as_slice());
        proof {
            lemma_round_added(first, afters, centers.centroids@);
            afters = afters.push(centers.centroids@);
            given = given.push(point_ids(points@));
        }
        rounds = rounds + 1;
        if score < epsilon || rounds >= max_iterations {
            done = true;
        }
    }
    let indices: Vec<u8> = ids_of(points.as_slice());
    let run = Clustering { centroids: centers.centroids, indices, score, rounds };
    proof {
        assert(is_run(true, samples@, first, afters, given, max_iterations, epsilon) && is_outcome(
            first,
            afters,
            given,
            run,
        ));
    }
    run
}

/// Clusters `samples` with the engine that keeps bounds: the centroids and
/// the cluster ids that `kmeans_hamerly` ends with.
pub fn cluster_hamerly(
    samples: &[Color],
    initial_centroids: Vec<Color>,
    max_iterations: usize,
    epsilon: u64,
    rng: &mut StdRng,
) -> (result: (Vec<Color>, Vec<u8>))
    requires
        initial_centroids@.len() <= MAX_CLUSTERS,
    ensures
        result.0@.len() == initial_centroids@.len(),
        initial_centroids@.len() == 0 ==> result.1@.len() == 0,
        initial_centroids@.len() > 0 ==> result.1@.len() == samples@.len(),
        forall|i: int| 0 <= i < result.1@.len() ==> (#[trigger] result.1@[i] as int) < result.0@.len(),
        initial_centroids@.len() > 0 ==> exists|afters: Seq<Seq<Color>>, ids: Seq<Seq<u8>>|
            is_run(true, samples@, initial_centroids@, afters, ids, max_iterations, epsilon)
                && result.0@ == afters.last() && result.1@ == ids.last(),
        initial_centroids@.len() > 0 && max_iterations <= 1 ==> is_bounded_round(
            samples@,
            initial_centroids@,
            result.1@,
            result.0@,
        ),
{
    let run: Clustering = kmeans_hamerly(samples, initial_centroids, max_iterations, epsilon, rng);
    proof {
        if initial_centroids@.len() > 0 {
            let (afters, ids) = choose|afters: Seq<Seq<Color>>, ids: Seq<Seq<u8>>|
                is_run(true, samples@, initial_centroids@, afters, ids, max_iterations, epsilon)
                    && is_outcome(initial_centroids@, afters, ids, run);
            let last = afters.len() - 1;
            let before = start_of(initial_centroids@, afters, last);
            assert(ids.last() == ids[last]);
            assert(is_engine_round(true, samples@, before, ids[last], afters[last]));
            assert(is_bounded_round(samples@, before, run.indices@, run.centroids@));
            assert(is_run(true, samples@, initial_centroids@, afters, ids, max_iterations, epsilon)
                && run.centroids@ == afters.last() && run.indices@ == ids.last());
            assert forall|i: int| 0 <= i < run.indices@.len() implies (
            #[trigger] run.indices@[i] as int) < run.centroids@.len() by {
                assert(is_minimizer(samples@[i], before, run.indices@[i] as int));
            }
        }
    }
    (run.centroids, run.indices)
}

} // verus!
