use kmeans_colors::color::{Color, MAX_DIFFERENCE};
use kmeans_colors::dominant::{get_dominant_color, populations, CentroidData};
use kmeans_colors::driver::{cluster, cluster_hamerly, kmeans, kmeans_hamerly};
use kmeans_colors::hamerly::{HamerlyCentroids, HamerlyPoint};
use kmeans_colors::mapping::{centroid_of, MapColor};
use kmeans_colors::plus_plus::{init_plus_plus, seed};
use kmeans_colors::roots::{ceil_sqrt, floor_sqrt};
use kmeans_colors::standard::closest_index;
use rand::rngs::StdRng;
use rand::SeedableRng;

fn black() -> Color {
    Color::new(0, 0, 0)
}

fn white() -> Color {
    Color::new(255, 255, 255)
}

fn two_tone() -> Vec<Color> {
    vec![black(), black(), white(), white()]
}

#[test]
fn difference_is_the_squared_distance() {
    assert_eq!(Color::difference(&Color::new(1, 2, 3), &Color::new(4, 6, 3)), 25);
    assert_eq!(Color::difference(&black(), &white()), MAX_DIFFERENCE);
    assert_eq!(MAX_DIFFERENCE, 195075);
}

#[test]
fn difference_is_zero_on_equal_colors_and_symmetric() {
    let a = Color::new(12, 200, 77);
    let b = Color::new(250, 3, 78);
    assert_eq!(Color::difference(&a, &a), 0);
    assert_eq!(Color::difference(&a, &b), Color::difference(&b, &a));
    assert_eq!(Color::difference(&a, &b), 238 * 238 + 197 * 197 + 1);
}

#[test]
fn check_loop_of_a_set_against_itself_is_zero() {
    let set = vec![Color::new(1, 2, 3), Color::new(200, 100, 0)];
    assert_eq!(Color::check_loop(&set, &set), 0);
}

#[test]
fn check_loop_sums_over_the_pairs() {
    let new = vec![Color::new(1, 2, 3), Color::new(10, 10, 10)];
    let old = vec![Color::new(4, 6, 3), Color::new(10, 10, 12), Color::new(9, 9, 9)];
    assert_eq!(Color::check_loop(&new, &old), 25 + 4);
    assert_eq!(Color::check_loop(&old, &new), 25 + 4);
    assert_eq!(Color::check_loop(&new, &[]), 0);
}

#[test]
fn closest_centroid_prefers_the_first_of_equals() {
    let centroids = vec![Color::new(10, 0, 0), Color::new(0, 10, 0), Color::new(0, 0, 1)];
    assert_eq!(closest_index(&black(), &centroids), Some(2));
    assert_eq!(closest_index(&Color::new(5, 5, 0), &centroids), Some(0));
    assert_eq!(closest_index(&Color::new(4, 5, 0), &centroids), Some(1));
    assert_eq!(closest_index(&black(), &[]), None);
}

#[test]
fn get_closest_centroid_appends_one_id_per_sample() {
    let centroids = vec![black(), white()];
    let mut ids: Vec<u8> = vec![7];
    Color::get_closest_centroid(&two_tone(), &centroids, &mut ids);
    assert_eq!(ids, vec![7, 0, 0, 1, 1]);
}

#[test]
fn get_closest_centroid_without_centroids_gives_no_id() {
    let mut ids: Vec<u8> = Vec::new();
    Color::get_closest_centroid(&two_tone(), &[], &mut ids);
    assert_eq!(ids, Vec::<u8>::new());
    let mut kept: Vec<u8> = vec![3, 1];
    Color::get_closest_centroid(&two_tone(), &[], &mut kept);
    assert_eq!(kept, vec![3, 1]);
}

#[test]
fn both_updates_give_the_same_centroids() {
    let samples = vec![Color::new(0, 10, 20), Color::new(3, 11, 21), Color::new(200, 100, 50), Color::new(1, 1, 1)];
    let ids: Vec<u8> = vec![0, 0, 1, 0];
    let initial = vec![Color::new(5, 5, 5), Color::new(190, 90, 40)];
    let mut rng = StdRng::seed_from_u64(1);
    let mut plain = initial.clone();
    Color::recalculate_centroids(&mut rng, &samples, &mut plain, &ids);
    let mut centers = HamerlyCentroids::new(initial);
    let points: Vec<HamerlyPoint> =
        ids.iter().map(|&index| HamerlyPoint { index, upper_bound: 0, lower_bound: 0 }).collect();
    Color::recalculate_centroids_hamerly(&mut rng, &samples, &mut centers, &points);
    assert_eq!(plain, centers.centroids);
    assert_eq!(plain, vec![Color::new(1, 7, 14), Color::new(200, 100, 50)]);
}

#[test]
fn recalculate_centroids_takes_the_mean_rounded_down() {
    let samples = vec![Color::new(0, 10, 20), Color::new(3, 11, 21), Color::new(200, 100, 50), Color::new(1, 1, 1)];
    let ids: Vec<u8> = vec![0, 0, 1, 0];
    let mut centroids = vec![black(), black()];
    let mut rng = StdRng::seed_from_u64(1);
    Color::recalculate_centroids(&mut rng, &samples, &mut centroids, &ids);
    assert_eq!(centroids, vec![Color::new(1, 7, 14), Color::new(200, 100, 50)]);
}

#[test]
fn recalculate_centroids_reseeds_an_empty_cluster() {
    let samples = vec![Color::new(9, 9, 9); 5];
    let ids: Vec<u8> = vec![0; 5];
    let mut rng = StdRng::seed_from_u64(3);
    let mut moved = false;
    for _ in 0..8 {
        let mut centroids = vec![black(), Color::new(9, 9, 9)];
        Color::recalculate_centroids(&mut rng, &samples, &mut centroids, &ids);
        assert_eq!(centroids[0], Color::new(9, 9, 9));
        if centroids[1] != Color::new(9, 9, 9) {
            moved = true;
        }
    }
    assert!(moved);
}

#[test]
fn create_random_varies() {
    let mut rng = StdRng::seed_from_u64(11);
    let first = Color::create_random(&mut rng);
    let mut other = false;
    for _ in 0..16 {
        if Color::create_random(&mut rng) != first {
            other = true;
        }
    }
    assert!(other);
}

#[test]
fn seeds_are_samples_and_at_most_k() {
    let samples: Vec<Color> = (0..50u8).map(|i| Color::new(i, 2 * i, 255 - i)).collect();
    for s in 0..20u64 {
        let mut rng = StdRng::seed_from_u64(s);
        let seeds = seed(5, &mut rng, &samples);
        assert_eq!(seeds.len(), 5);
        for c in &seeds {
            assert!(samples.contains(c));
        }
        for i in 0..seeds.len() {
            for j in 0..i {
                assert_ne!(seeds[i], seeds[j]);
            }
        }
    }
}

#[test]
fn seeding_draws_by_weight_not_by_order() {
    let samples = vec![black(), black(), black(), white()];
    for s in 0..20u64 {
        let mut rng = StdRng::seed_from_u64(s);
        let seeds = seed(2, &mut rng, &samples);
        assert_eq!(seeds.len(), 2);
        assert_ne!(seeds[0], seeds[1]);
    }
}

#[test]
fn seeding_of_nothing_is_empty() {
    let mut rng = StdRng::seed_from_u64(0);
    assert_eq!(seed(0, &mut rng, &two_tone()), Vec::<Color>::new());
    assert_eq!(seed(0, &mut rng, &[]), Vec::<Color>::new());
    let mut kept = vec![Color::new(1, 1, 1)];
    init_plus_plus(0, &mut rng, &two_tone(), &mut kept);
    assert_eq!(kept, vec![Color::new(1, 1, 1)]);
}

#[test]
fn seeding_stops_early_on_identical_samples() {
    let samples = vec![Color::new(40, 50, 60); 10];
    let mut rng = StdRng::seed_from_u64(5);
    let seeds = seed(4, &mut rng, &samples);
    assert_eq!(seeds, vec![Color::new(40, 50, 60)]);
}

#[test]
fn init_plus_plus_keeps_what_was_there() {
    let mut rng = StdRng::seed_from_u64(9);
    let mut centroids = vec![black()];
    init_plus_plus(2, &mut rng, &two_tone(), &mut centroids);
    assert_eq!(centroids.len(), 3);
    assert_eq!(centroids[0], black());
    assert_eq!(centroids[2], white());
}

#[test]
fn two_tone_converges_in_one_round() {
    let mut rng = StdRng::seed_from_u64(0);
    let (centroids, ids) = cluster(&two_tone(), vec![black(), white()], 1, 1, &mut rng);
    assert_eq!(centroids, vec![black(), white()]);
    assert_eq!(ids, vec![0, 0, 1, 1]);
    let (centroids, ids) = cluster(&two_tone(), vec![black(), white()], 100, 1, &mut rng);
    assert_eq!(centroids, vec![black(), white()]);
    assert_eq!(ids, vec![0, 0, 1, 1]);
}

#[test]
fn two_tone_converges_in_one_round_with_bounds() {
    let mut rng = StdRng::seed_from_u64(0);
    let (centroids, ids) = cluster_hamerly(&two_tone(), vec![black(), white()], 1, 1, &mut rng);
    assert_eq!(centroids, vec![black(), white()]);
    assert_eq!(ids, vec![0, 0, 1, 1]);
    let (centroids, ids) = cluster_hamerly(&two_tone(), vec![black(), white()], 100, 1, &mut rng);
    assert_eq!(centroids, vec![black(), white()]);
    assert_eq!(ids, vec![0, 0, 1, 1]);
}

#[test]
fn no_clusters_give_empty_results() {
    let mut rng = StdRng::seed_from_u64(0);
    let seeds = seed(0, &mut rng, &two_tone());
    let (centroids, ids) = cluster(&two_tone(), seeds, 10, 1, &mut rng);
    assert_eq!(centroids, Vec::<Color>::new());
    assert_eq!(ids, Vec::<u8>::new());
    let (centroids, ids) = cluster_hamerly(&two_tone(), Vec::new(), 10, 1, &mut rng);
    assert_eq!(centroids, Vec::<Color>::new());
    assert_eq!(ids, Vec::<u8>::new());
}

#[test]
fn identical_samples_end_with_valid_ids() {
    let samples = vec![Color::new(7, 7, 7); 12];
    let mut rng = StdRng::seed_from_u64(2);
    let initial = vec![Color::new(7, 7, 7), Color::new(100, 0, 0), Color::new(0, 0, 90)];
    let (centroids, ids) = cluster(&samples, initial.clone(), 20, 1, &mut rng);
    assert_eq!(centroids.len(), 3);
    assert_eq!(ids.len(), 12);
    assert!(ids.iter().all(|&id| (id as usize) < 3));
    assert_ne!(centroids, initial);
    let (centroids, ids) = cluster_hamerly(&samples, initial, 20, 1, &mut rng);
    assert_eq!(centroids.len(), 3);
    assert_eq!(ids.len(), 12);
    assert!(ids.iter().all(|&id| (id as usize) < 3));
}

#[test]
fn both_engines_agree_where_no_cluster_is_empty() {
    let samples: Vec<Color> = (0..60u8)
        .map(|i| if i % 2 == 0 { Color::new(i, i, 3) } else { Color::new(250 - i, 200, 255 - i) })
        .collect();
    let initial = vec![Color::new(0, 0, 0), Color::new(255, 200, 255)];
    let mut rng = StdRng::seed_from_u64(4);
    let plain = cluster(&samples, initial.clone(), 50, 1, &mut rng);
    let bounded = cluster_hamerly(&samples, initial, 50, 1, &mut rng);
    assert_eq!(plain, bounded);
    assert_eq!(plain.1.iter().filter(|&&id| id == 0).count(), 30);
}

#[test]
fn roots_round_down_and_up() {
    assert_eq!(floor_sqrt(0), 0);
    assert_eq!(floor_sqrt(24), 4);
    assert_eq!(floor_sqrt(25), 5);
    assert_eq!(floor_sqrt(195075), 441);
    assert_eq!(floor_sqrt(u32::MAX), 65535);
    assert_eq!(ceil_sqrt(0), 0);
    assert_eq!(ceil_sqrt(25), 5);
    assert_eq!(ceil_sqrt(26), 6);
    assert_eq!(ceil_sqrt(195075), 442);
    assert_eq!(ceil_sqrt(u32::MAX), 65536);
}

#[test]
fn ids_map_back_to_centroids() {
    let centroids = vec![black(), white(), Color::new(1, 2, 3)];
    let ids: Vec<u8> = vec![2, 0, 1, 9, 0];
    let mapped = <Color as MapColor>::map_indices_to_centroids(&centroids, &ids);
    assert_eq!(mapped, vec![Color::new(1, 2, 3), black(), white(), Color::new(1, 2, 3), black()]);
    assert_eq!(<Color as MapColor>::map_indices_to_centroids(&[], &[]), Vec::<Color>::new());
    assert_eq!(centroid_of(&centroids, 200), Color::new(1, 2, 3));
}

#[test]
fn dominant_color_is_the_last_of_the_largest() {
    let data = vec![
        CentroidData { centroid: black(), population: 3, index: 0 },
        CentroidData { centroid: white(), population: 5, index: 1 },
        CentroidData { centroid: Color::new(1, 1, 1), population: 5, index: 2 },
        CentroidData { centroid: Color::new(2, 2, 2), population: 4, index: 3 },
    ];
    assert_eq!(get_dominant_color(&data), Some(Color::new(1, 1, 1)));
    assert_eq!(get_dominant_color(&[]), None);
}

#[test]
fn populations_count_the_members() {
    let data = populations(&[black(), white(), Color::new(1, 1, 1)], &[1, 1, 0, 1, 7]);
    assert_eq!(data.len(), 3);
    assert_eq!(data[0].population, 1);
    assert_eq!(data[1].population, 3);
    assert_eq!(data[2].population, 0);
    assert_eq!(data[1].index, 1);
    assert_eq!(get_dominant_color(&data), Some(white()));
}

#[test]
fn a_run_reports_its_rounds_and_score() {
    let mut rng = StdRng::seed_from_u64(0);
    let run = kmeans(&two_tone(), vec![Color::new(10, 10, 10), Color::new(200, 200, 200)], 10, 1, &mut rng);
    assert_eq!(run.centroids, vec![black(), white()]);
    assert_eq!(run.indices, vec![0, 0, 1, 1]);
    assert_eq!(run.rounds, 2);
    assert_eq!(run.score, 0);
    let run = kmeans(&two_tone(), vec![Color::new(10, 10, 10), Color::new(200, 200, 200)], 1, 1, &mut rng);
    assert_eq!(run.rounds, 1);
    assert_eq!(run.score, 300 + 3 * 55 * 55);
    let run = kmeans(&two_tone(), vec![Color::new(10, 10, 10), Color::new(200, 200, 200)], 0, 1, &mut rng);
    assert_eq!(run.rounds, 1);
    let run = kmeans(&two_tone(), Vec::new(), 5, 1, &mut rng);
    assert_eq!(run.rounds, 0);
}

#[test]
fn a_run_with_bounds_reports_its_rounds_and_score() {
    let mut rng = StdRng::seed_from_u64(0);
    let initial = vec![Color::new(10, 10, 10), Color::new(200, 200, 200)];
    let run = kmeans_hamerly(&two_tone(), initial.clone(), 10, 1, &mut rng);
    assert_eq!(run.centroids, vec![black(), white()]);
    assert_eq!(run.indices, vec![0, 0, 1, 1]);
    assert_eq!(run.rounds, 2);
    assert_eq!(run.score, 0);
    let run = kmeans_hamerly(&two_tone(), initial, 10, 1_000_000, &mut rng);
    assert_eq!(run.rounds, 1);
    assert_eq!(run.score, 300 + 3 * 55 * 55);
}

#[test]
fn an_epsilon_of_zero_runs_the_whole_budget() {
    let mut rng = StdRng::seed_from_u64(0);
    let run = kmeans(&two_tone(), vec![black(), white()], 7, 0, &mut rng);
    assert_eq!(run.rounds, 7);
    assert_eq!(run.score, 0);
}
