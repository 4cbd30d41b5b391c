use kmeans_colors::color::Color;
use kmeans_colors::hamerly::{
    assign_point, half_distance_of, ids_of, init_points, HamerlyCentroids, HamerlyPoint, UNBOUNDED,
};
use rand::rngs::StdRng;
use rand::SeedableRng;

fn exact_bounds_hold(x: &Color, centroids: &[Color], p: &HamerlyPoint) -> bool {
    let own = p.index as usize;
    if own >= centroids.len() {
        return false;
    }
    let upper = (p.upper_bound as u64) * (p.upper_bound as u64);
    let lower = (p.lower_bound as u64) * (p.lower_bound as u64);
    if (Color::difference(x, &centroids[own]) as u64) > upper {
        return false;
    }
    centroids
        .iter()
        .enumerate()
        .all(|(j, c)| j == own || (Color::difference(x, c) as u64) >= lower)
}

fn scattered(seed: u64, n: usize) -> Vec<Color> {
    let mut rng = StdRng::seed_from_u64(seed);
    (0..n).map(|_| Color::create_random(&mut rng)).collect()
}

#[test]
fn half_distances_are_half_the_nearest_gap() {
    let centers = HamerlyCentroids::new(vec![
        Color::new(0, 0, 0),
        Color::new(10, 0, 0),
        Color::new(0, 0, 7),
    ]);
    assert_eq!(centers.half_distances, vec![3, 5, 3]);
    assert_eq!(centers.deltas, vec![0, 0, 0]);
    let alone = HamerlyCentroids::new(vec![Color::new(5, 5, 5)]);
    assert_eq!(alone.half_distances, vec![u32::MAX]);
}

#[test]
fn init_points_scans_every_sample() {
    let centroids = vec![Color::new(0, 0, 0), Color::new(10, 0, 0), Color::new(0, 0, 7)];
    let points = init_points(&[Color::new(1, 0, 0), Color::new(9, 0, 1)], &centroids);
    assert_eq!(
        points,
        vec![
            HamerlyPoint { index: 0, upper_bound: 1, lower_bound: 7 },
            HamerlyPoint { index: 1, upper_bound: 2, lower_bound: 9 },
        ]
    );
    assert_eq!(ids_of(&points), vec![0, 1]);
}

#[test]
fn assign_point_prunes_tightens_and_rescans() {
    let centers = HamerlyCentroids::new(vec![Color::new(0, 0, 0), Color::new(100, 0, 0)]);
    assert_eq!(centers.half_distances, vec![50, 50]);
    let x = Color::new(30, 0, 0);
    let settled = HamerlyPoint { index: 0, upper_bound: 40, lower_bound: 10 };
    assert_eq!(assign_point(&x, &centers, settled), settled);
    let loose = HamerlyPoint { index: 0, upper_bound: 90, lower_bound: 10 };
    assert_eq!(
        assign_point(&x, &centers, loose),
        HamerlyPoint { index: 0, upper_bound: 30, lower_bound: 10 }
    );
    let y = Color::new(80, 0, 0);
    let stale = HamerlyPoint { index: 0, upper_bound: 90, lower_bound: 0 };
    assert_eq!(
        assign_point(&y, &centers, stale),
        HamerlyPoint { index: 1, upper_bound: 20, lower_bound: 80 }
    );
    let z = Color::new(52, 1, 0);
    let own = HamerlyPoint { index: 1, upper_bound: 60, lower_bound: 0 };
    assert_eq!(
        assign_point(&z, &centers, own),
        HamerlyPoint { index: 1, upper_bound: 49, lower_bound: 0 }
    );
}

#[test]
fn update_bounds_shifts_by_the_deltas() {
    let centers = HamerlyCentroids {
        centroids: vec![Color::new(0, 0, 0), Color::new(9, 9, 9)],
        deltas: vec![3, 8],
        half_distances: vec![7, 7],
    };
    let mut points = vec![
        HamerlyPoint { index: 0, upper_bound: 10, lower_bound: 20 },
        HamerlyPoint { index: 1, upper_bound: 440, lower_bound: 5 },
        HamerlyPoint { index: 1, upper_bound: u32::MAX - 3, lower_bound: 8 },
        HamerlyPoint { index: 0, upper_bound: 1000, lower_bound: 9 },
    ];
    Color::update_bounds(&centers, &mut points);
    assert_eq!(
        points,
        vec![
            HamerlyPoint { index: 0, upper_bound: 13, lower_bound: 12 },
            HamerlyPoint { index: 1, upper_bound: 448, lower_bound: 0 },
            HamerlyPoint { index: 1, upper_bound: u32::MAX, lower_bound: 0 },
            HamerlyPoint { index: 0, upper_bound: 1003, lower_bound: 1 },
        ]
    );
}

#[test]
fn update_bounds_leaves_points_alone_where_nothing_moved() {
    let centers = HamerlyCentroids {
        centroids: vec![Color::new(0, 0, 0), Color::new(9, 9, 9)],
        deltas: vec![0, 0],
        half_distances: vec![7, 7],
    };
    let before = vec![
        HamerlyPoint { index: 0, upper_bound: 10, lower_bound: 20 },
        HamerlyPoint { index: 1, upper_bound: 5000, lower_bound: 0 },
        HamerlyPoint { index: 1, upper_bound: u32::MAX, lower_bound: u32::MAX },
    ];
    let mut points = before.clone();
    Color::update_bounds(&centers, &mut points);
    assert_eq!(points, before);
}

#[test]
fn recalculate_centroids_hamerly_records_how_far_each_moved() {
    let samples = vec![Color::new(3, 4, 0), Color::new(3, 4, 0), Color::new(50, 50, 50)];
    let mut centers = HamerlyCentroids::new(vec![Color::new(0, 0, 0), Color::new(50, 50, 51)]);
    let points = vec![
        HamerlyPoint { index: 0, upper_bound: 5, lower_bound: 0 },
        HamerlyPoint { index: 0, upper_bound: 5, lower_bound: 0 },
        HamerlyPoint { index: 1, upper_bound: 1, lower_bound: 0 },
    ];
    let mut rng = StdRng::seed_from_u64(1);
    Color::recalculate_centroids_hamerly(&mut rng, &samples, &mut centers, &points);
    assert_eq!(centers.centroids, vec![Color::new(3, 4, 0), Color::new(50, 50, 50)]);
    assert_eq!(centers.deltas, vec![5, 1]);
}

#[test]
fn bounds_hold_after_every_phase() {
    for seed in 0..12u64 {
        let samples = scattered(seed, 80);
        let mut rng = StdRng::seed_from_u64(seed + 100);
        let mut centers = HamerlyCentroids::new(scattered(seed + 50, 6));
        let mut points = init_points(&samples, &centers.centroids);
        for _ in 0..10 {
            Color::get_closest_centroid_hamerly(&samples, &centers, &mut points);
            for (x, p) in samples.iter().zip(points.iter()) {
                assert!(exact_bounds_hold(x, &centers.centroids, p));
                let own = Color::difference(x, &centers.centroids[p.index as usize]);
                assert!(centers.centroids.iter().all(|c| Color::difference(x, c) >= own));
            }
            Color::recalculate_centroids_hamerly(&mut rng, &samples, &mut centers, &points);
            Color::compute_half_distances(&mut centers);
            Color::update_bounds(&centers, &mut points);
            for (x, p) in samples.iter().zip(points.iter()) {
                assert!(exact_bounds_hold(x, &centers.centroids, p));
            }
        }
    }
}

#[test]
fn half_distance_of_one_centroid() {
    let centroids = vec![Color::new(0, 0, 0), Color::new(10, 0, 0), Color::new(0, 0, 7)];
    assert_eq!(half_distance_of(&centroids, 0), 3);
    assert_eq!(half_distance_of(&centroids, 1), 5);
    assert_eq!(half_distance_of(&centroids, 2), 3);
    assert_eq!(half_distance_of(&vec![Color::new(1, 1, 1)], 0), u32::MAX);
}

#[test]
fn compute_half_distances_follows_the_centroids() {
    let mut centers = HamerlyCentroids::new(vec![Color::new(0, 0, 0), Color::new(100, 0, 0)]);
    centers.centroids[1] = Color::new(0, 9, 0);
    Color::compute_half_distances(&mut centers);
    assert_eq!(centers.half_distances, vec![4, 4]);
    assert_eq!(centers.centroids, vec![Color::new(0, 0, 0), Color::new(0, 9, 0)]);
}

#[test]
fn the_assignment_phase_moves_stale_points_only() {
    let centers = HamerlyCentroids::new(vec![Color::new(0, 0, 0), Color::new(100, 0, 0)]);
    let samples = vec![Color::new(30, 0, 0), Color::new(80, 0, 0), Color::new(30, 0, 0)];
    let mut points = vec![
        HamerlyPoint { index: 0, upper_bound: 40, lower_bound: 10 },
        HamerlyPoint { index: 0, upper_bound: 90, lower_bound: 0 },
        HamerlyPoint { index: 0, upper_bound: 90, lower_bound: 10 },
    ];
    Color::get_closest_centroid_hamerly(&samples, &centers, &mut points);
    assert_eq!(
        points,
        vec![
            HamerlyPoint { index: 0, upper_bound: 40, lower_bound: 10 },
            HamerlyPoint { index: 1, upper_bound: 20, lower_bound: 80 },
            HamerlyPoint { index: 0, upper_bound: 30, lower_bound: 10 },
        ]
    );
}

#[test]
fn a_single_centroid_leaves_the_lower_bound_open() {
    let centroids = vec![Color::new(3, 4, 0)];
    let points = init_points(&[Color::new(0, 0, 0)], &centroids);
    assert_eq!(points, vec![HamerlyPoint { index: 0, upper_bound: 5, lower_bound: UNBOUNDED }]);
}
