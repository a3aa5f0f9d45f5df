use kmeans::assign::{assign_labels, find_closest_centroid};
use kmeans::centroids::{has_converged, initialize_centroids};
use kmeans::dataset::Dataset;
use kmeans::distance::{distance, isqrt, squared_distance};
use kmeans::driver::{kmeans, Termination};
use kmeans::error::KMeansError;
use kmeans::update::recompute_centroids;
use kmeans::wide::{wide_product, U256};

fn column(values: Vec<i64>) -> Dataset {
    Dataset::from_flat(1, values).unwrap()
}

#[test]
fn two_well_separated_groups_converge() {
    // One unit is a ten-thousandth: the points 1, 2, 10 and 11.
    let data = column(vec![10_000, 20_000, 100_000, 110_000]);
    let start = initialize_centroids(&data, 2).unwrap();
    assert_eq!(start, vec![vec![10_000], vec![20_000]]);
    let result = kmeans(&data, 2, 10, 1).unwrap();
    assert_eq!(result.centroids, vec![vec![15_000], vec![105_000]]);
    assert_eq!(result.labels, vec![0, 0, 1, 1]);
    assert_eq!(result.termination, Termination::Converged);
    assert_eq!(result.iterations, 3);
}

#[test]
fn more_clusters_than_points_is_insufficient_data() {
    let data = column(vec![1, 2, 3]);
    assert_eq!(kmeans(&data, 5, 10, 1).unwrap_err(), KMeansError::InsufficientData);
    assert_eq!(initialize_centroids(&data, 5).unwrap_err(), KMeansError::InsufficientData);
}

#[test]
fn identical_points_leave_one_cluster_empty() {
    let data = column(vec![5, 5, 5, 5]);
    let once = kmeans(&data, 2, 1, 1).unwrap();
    assert_eq!(once.centroids, vec![vec![5], vec![0]]);
    assert_eq!(once.labels, vec![0, 0, 0, 0]);
    assert_eq!(once.termination, Termination::IterationLimitReached);
    assert_eq!(once.iterations, 1);

    let settled = kmeans(&data, 2, 10, 1).unwrap();
    assert_eq!(settled.centroids, vec![vec![5], vec![0]]);
    assert_eq!(settled.labels, vec![0, 0, 0, 0]);
    assert_eq!(settled.termination, Termination::Converged);
    assert_eq!(settled.iterations, 2);

    // A later point goes to whichever centroid is nearer to it.
    assert_eq!(find_closest_centroid(&vec![4], &settled.centroids), 0);
    assert_eq!(find_closest_centroid(&vec![2], &settled.centroids), 1);
}

#[test]
fn parameters_are_judged_before_the_data() {
    let data = column(vec![1, 2, 3]);
    assert_eq!(kmeans(&data, 0, 10, 1).unwrap_err(), KMeansError::InvalidParameter);
    assert_eq!(kmeans(&data, 2, 0, 1).unwrap_err(), KMeansError::InvalidParameter);
    assert_eq!(kmeans(&data, 2, 10, 0).unwrap_err(), KMeansError::InvalidParameter);
    // Too many clusters and a zero tolerance: the parameter is named.
    assert_eq!(kmeans(&data, 5, 10, 0).unwrap_err(), KMeansError::InvalidParameter);
}

#[test]
fn dataset_shapes_are_checked() {
    assert_eq!(Dataset::from_flat(0, vec![1, 2]).unwrap_err(), KMeansError::InvalidParameter);
    assert_eq!(Dataset::from_flat(0, vec![]).unwrap_err(), KMeansError::InvalidParameter);
    assert_eq!(Dataset::from_flat(2, vec![1, 2, 3]).unwrap_err(), KMeansError::DimensionMismatch);
    let empty = Dataset::from_flat(3, vec![]).unwrap();
    assert_eq!(empty.len(), 0);
    assert_eq!(empty.dim(), 3);
    assert_eq!(kmeans(&empty, 1, 10, 1).unwrap_err(), KMeansError::InsufficientData);
}

#[test]
fn dataset_from_rows_keeps_each_observation() {
    let rows = vec![vec![1, -2], vec![3, 4], vec![-5, 6]];
    let data = Dataset::from_rows(2, &rows).unwrap();
    assert_eq!(data.len(), 3);
    assert_eq!(data.dim(), 2);
    assert_eq!(data.row(0), vec![1, -2]);
    assert_eq!(data.row(1), vec![3, 4]);
    assert_eq!(data.row(2), vec![-5, 6]);
    let none: Vec<Vec<i64>> = Vec::new();
    let empty = Dataset::from_rows(4, &none).unwrap();
    assert_eq!(empty.len(), 0);
    assert_eq!(empty.dim(), 4);
}

#[test]
fn dataset_from_rows_refuses_ragged_observations() {
    let ragged = vec![vec![1, 2], vec![3], vec![5, 6]];
    assert_eq!(Dataset::from_rows(2, &ragged).unwrap_err(), KMeansError::DimensionMismatch);
    let long = vec![vec![1, 2], vec![3, 4, 5]];
    assert_eq!(Dataset::from_rows(2, &long).unwrap_err(), KMeansError::DimensionMismatch);
    let pairs = vec![vec![1, 2], vec![3, 4]];
    assert_eq!(Dataset::from_rows(3, &pairs).unwrap_err(), KMeansError::DimensionMismatch);
    // A dimension of zero is named first, whatever the rows hold.
    assert_eq!(Dataset::from_rows(0, &pairs).unwrap_err(), KMeansError::InvalidParameter);
    let hollow: Vec<Vec<i64>> = vec![vec![], vec![]];
    assert_eq!(Dataset::from_rows(0, &hollow).unwrap_err(), KMeansError::InvalidParameter);
}

#[test]
fn dataset_reads_values_row_by_row() {
    let data = Dataset::from_flat(2, vec![1, 2, 3, 4, 5, 6]).unwrap();
    assert_eq!(data.len(), 3);
    assert_eq!(data.dim(), 2);
    assert_eq!(data.row(0), vec![1, 2]);
    assert_eq!(data.row(1), vec![3, 4]);
    assert_eq!(data.row(2), vec![5, 6]);
    let wide = Dataset::from_flat(3, vec![1, 2, 3, 4, 5, 6]).unwrap();
    assert_eq!(wide.len(), 2);
    assert_eq!(wide.row(1), vec![4, 5, 6]);
}

fn narrow(low: u128) -> U256 {
    U256 { high: 0, low }
}

#[test]
fn squared_distance_is_exact() {
    assert_eq!(squared_distance(&vec![0, 0], &vec![3, 4]), narrow(25));
    assert_eq!(squared_distance(&vec![1, -2, 3], &vec![4, 2, 3]), narrow(25));
    assert_eq!(squared_distance(&vec![], &vec![]), narrow(0));
    assert_eq!(
        squared_distance(&vec![3_000_000_000], &vec![-3_000_000_000]),
        narrow(36_000_000_000_000_000_000)
    );
}

#[test]
fn squared_distance_of_extreme_coordinates_does_not_wrap() {
    assert_eq!(
        squared_distance(&vec![i64::MIN], &vec![i64::MAX]),
        narrow(340_282_366_920_938_463_426_481_119_284_349_108_225)
    );
    assert_eq!(
        squared_distance(&vec![i64::MIN, i64::MAX], &vec![i64::MAX, i64::MIN]),
        U256 { high: 1, low: 340_282_366_920_938_463_389_587_631_136_930_004_994 }
    );
    assert_eq!(
        squared_distance(&vec![i64::MIN, i64::MAX, i64::MIN], &vec![i64::MAX, i64::MIN, i64::MAX]),
        U256 { high: 2, low: 340_282_366_920_938_463_352_694_142_989_510_901_763 }
    );
}

#[test]
fn distance_is_the_rounded_down_root() {
    assert_eq!(distance(&vec![0, 0], &vec![3, 4]), 5);
    assert_eq!(distance(&vec![0], &vec![7]), 7);
    // The root of 2 is 1.41..., that of 8 is 2.82...
    assert_eq!(distance(&vec![0, 0], &vec![1, 1]), 1);
    assert_eq!(distance(&vec![0, 0], &vec![2, 2]), 2);
    assert_eq!(distance(&vec![i64::MIN], &vec![i64::MAX]), 18_446_744_073_709_551_615);
    assert_eq!(
        distance(&vec![i64::MIN, i64::MAX], &vec![i64::MAX, i64::MIN]),
        26_087_635_650_665_564_423
    );
    assert_eq!(
        distance(&vec![i64::MIN, i64::MAX, i64::MIN], &vec![i64::MAX, i64::MIN, i64::MAX]),
        31_950_697_969_885_030_201
    );
}

#[test]
fn distance_is_symmetric_and_zero_on_itself() {
    let a = vec![3, -7, 12];
    let b = vec![-4, 9, 0];
    assert_eq!(squared_distance(&a, &b), squared_distance(&b, &a));
    assert_eq!(squared_distance(&a, &b), narrow(49 + 256 + 144));
    assert_eq!(distance(&a, &b), distance(&b, &a));
    assert_eq!(distance(&a, &b), 21);
    assert_eq!(squared_distance(&a, &a), narrow(0));
    assert_eq!(distance(&a, &a), 0);
    assert_eq!(distance(&b, &b), 0);
}

#[test]
fn integer_square_root_edges() {
    assert_eq!(isqrt(narrow(0)), 0);
    assert_eq!(isqrt(narrow(1)), 1);
    assert_eq!(isqrt(narrow(3)), 1);
    assert_eq!(isqrt(narrow(4)), 2);
    assert_eq!(isqrt(narrow(99)), 9);
    assert_eq!(isqrt(narrow(100)), 10);
    assert_eq!(isqrt(narrow(u128::MAX)), u64::MAX as u128);
    assert_eq!(isqrt(U256 { high: 1, low: 0 }), 1 << 64);
    assert_eq!(isqrt(U256 { high: u128::MAX, low: u128::MAX }), u128::MAX);
    assert_eq!(isqrt(U256 { high: u128::MAX - 1, low: 1 }), u128::MAX);
    assert_eq!(isqrt(U256 { high: u128::MAX - 1, low: 0 }), u128::MAX - 1);
    assert_eq!(
        isqrt(U256 { high: 36_280_689_513, low: 227_257_678_629_468_009_572_100_866_482_768_906_962 }),
        3_513_641_828_820_144_253_111_222
    );
}

#[test]
fn wide_arithmetic_carries() {
    assert_eq!(wide_product(0, u128::MAX), narrow(0));
    assert_eq!(wide_product(7, 6), narrow(42));
    assert_eq!(wide_product(1 << 64, 1 << 64), U256 { high: 1, low: 0 });
    assert_eq!(wide_product(u128::MAX, u128::MAX), U256 { high: u128::MAX - 1, low: 1 });
    assert_eq!(wide_product(u128::MAX, 2), U256 { high: 1, low: u128::MAX - 1 });
    assert_eq!(
        wide_product(12_345_678_901_234_567_890_123, 2),
        narrow(24_691_357_802_469_135_780_246)
    );
    assert_eq!(U256::from_u128(9), narrow(9));
    assert_eq!(narrow(u128::MAX).plus(1), U256 { high: 1, low: 0 });
    assert_eq!(narrow(u128::MAX - 1).plus(1), narrow(u128::MAX));
    assert_eq!(U256 { high: 3, low: u128::MAX - 4 }.plus(10), U256 { high: 4, low: 5 });
    assert!(narrow(u128::MAX).less_than(&U256 { high: 1, low: 0 }));
    assert!(!U256 { high: 1, low: 0 }.less_than(&narrow(u128::MAX)));
    assert!(U256 { high: 2, low: 3 }.less_than(&U256 { high: 2, low: 4 }));
    assert!(!U256 { high: 2, low: 4 }.less_than(&U256 { high: 2, low: 4 }));
}

#[test]
fn initial_centroids_are_the_first_rows() {
    let data = Dataset::from_flat(2, vec![9, 8, 7, 6, 5, 4, 3, 2]).unwrap();
    assert_eq!(initialize_centroids(&data, 2).unwrap(), vec![vec![9, 8], vec![7, 6]]);
    assert_eq!(
        initialize_centroids(&data, 4).unwrap(),
        vec![vec![9, 8], vec![7, 6], vec![5, 4], vec![3, 2]]
    );
    assert_eq!(initialize_centroids(&data, 0).unwrap(), Vec::<Vec<i64>>::new());
    assert_eq!(initialize_centroids(&data, 5).unwrap_err(), KMeansError::InsufficientData);
}

#[test]
fn nearest_centroid_ties_go_to_the_lowest_index() {
    let centroids = vec![vec![10], vec![0], vec![4], vec![0]];
    assert_eq!(find_closest_centroid(&vec![2], &centroids), 1);
    assert_eq!(find_closest_centroid(&vec![7], &centroids), 0);
    assert_eq!(find_closest_centroid(&vec![3], &centroids), 2);
    assert_eq!(find_closest_centroid(&vec![-5], &centroids), 1);
    assert_eq!(find_closest_centroid(&vec![100], &centroids), 0);
    let same = vec![vec![1, 1], vec![1, 1], vec![1, 1]];
    assert_eq!(find_closest_centroid(&vec![8, 8], &same), 0);
}

#[test]
fn assignment_overwrites_every_label() {
    let data = column(vec![1, 2, 10, 11, 6]);
    let centroids = vec![vec![1], vec![11]];
    let mut labels = vec![7, 7, 7, 7, 7];
    assign_labels(&data, &centroids, &mut labels);
    // 6 is as far from 1 as from 11: the lower index wins.
    assert_eq!(labels, vec![0, 0, 1, 1, 0]);
}

#[test]
fn labels_cover_the_dataset_and_name_a_cluster() {
    let data = Dataset::from_flat(2, vec![0, 0, 10, 10, 1, 1, 9, 9, 50, 50, -3, 4, 7, 7]).unwrap();
    for k in 1..=7usize {
        let result = kmeans(&data, k, 100, 1).unwrap();
        assert_eq!(result.labels.len(), data.len());
        assert!(result.labels.iter().all(|&label| label < k));
        assert_eq!(result.centroids.len(), k);
        assert!(result.centroids.iter().all(|c| c.len() == 2));
    }
}

#[test]
fn means_are_rounded_down() {
    let data = column(vec![1, 2, 2, -1, -2, -2, 7]);
    let labels = vec![0, 0, 0, 1, 1, 1, 2];
    // 5 / 3 and -5 / 3, rounded towards minus infinity.
    assert_eq!(recompute_centroids(&data, &labels, 3), vec![vec![1], vec![-2], vec![7]]);
}

#[test]
fn means_are_taken_coordinate_by_coordinate() {
    let data = Dataset::from_flat(2, vec![0, 10, 4, 20, 100, -100, 2, 30]).unwrap();
    let labels = vec![1, 1, 0, 1];
    assert_eq!(recompute_centroids(&data, &labels, 2), vec![vec![100, -100], vec![2, 20]]);
}

#[test]
fn means_of_extreme_values_stay_in_range() {
    let data = column(vec![i64::MAX, i64::MAX, i64::MAX, i64::MIN, i64::MIN, i64::MAX, i64::MIN]);
    let labels = vec![0, 0, 0, 1, 1, 2, 2];
    assert_eq!(
        recompute_centroids(&data, &labels, 3),
        vec![vec![i64::MAX], vec![i64::MIN], vec![-1]]
    );
}

#[test]
fn clustering_survives_extreme_coordinates() {
    let data = column(vec![i64::MIN, i64::MAX, i64::MIN + 2, i64::MAX - 2]);
    let result = kmeans(&data, 2, 10, 1).unwrap();
    assert_eq!(result.labels, vec![0, 1, 0, 1]);
    assert_eq!(result.centroids, vec![vec![i64::MIN + 1], vec![i64::MAX - 1]]);
    assert_eq!(result.termination, Termination::Converged);
}

#[test]
fn empty_cluster_becomes_the_zero_vector() {
    let data = Dataset::from_flat(3, vec![1, 2, 3, 5, 6, 7]).unwrap();
    let labels = vec![2, 2];
    assert_eq!(
        recompute_centroids(&data, &labels, 4),
        vec![vec![0, 0, 0], vec![0, 0, 0], vec![3, 4, 5], vec![0, 0, 0]]
    );
}

#[test]
fn empty_cluster_mid_run_is_reset_to_zero() {
    // The two starting centroids coincide, so the second one loses every
    // point in the first round.
    let data = column(vec![40, 40, 44, 48]);
    let once = kmeans(&data, 2, 1, 1).unwrap();
    assert_eq!(once.labels, vec![0, 0, 0, 0]);
    assert_eq!(once.centroids, vec![vec![43], vec![0]]);
}

#[test]
fn convergence_needs_every_centroid_within_tolerance() {
    let old = vec![vec![0, 0], vec![10, 10]];
    let near = vec![vec![3, 4], vec![10, 10]];
    // The first centroid moved by exactly 5.
    assert!(has_converged(&old, &near, 6));
    assert!(!has_converged(&old, &near, 5));
    assert!(!has_converged(&old, &near, 1));
    let one_far = vec![vec![0, 0], vec![10, 17]];
    assert!(!has_converged(&old, &one_far, 7));
    assert!(has_converged(&old, &one_far, 8));
    assert!(has_converged(&old, &old, 1));
    assert!(!has_converged(&old, &old, 0));
    // The root of 2 is below 2 and not below 1.
    let diagonal = vec![vec![1, 1], vec![10, 10]];
    assert!(has_converged(&old, &diagonal, 2));
    assert!(!has_converged(&old, &diagonal, 1));
    assert!(has_converged(&old, &near, u64::MAX));
    // A move too long for any tolerance.
    let far = vec![vec![i64::MIN, i64::MAX], vec![10, 10]];
    let opposite = vec![vec![i64::MAX, i64::MIN], vec![10, 10]];
    assert!(!has_converged(&far, &opposite, u64::MAX));
}

#[test]
fn iteration_limit_is_reported() {
    let data = column(vec![10_000, 20_000, 100_000, 110_000]);
    let one = kmeans(&data, 2, 1, 1).unwrap();
    assert_eq!(one.termination, Termination::IterationLimitReached);
    assert_eq!(one.iterations, 1);
    assert_eq!(one.labels, vec![0, 1, 1, 1]);
    assert_eq!(one.centroids, vec![vec![10_000], vec![76_666]]);
    let two = kmeans(&data, 2, 2, 1).unwrap();
    assert_eq!(two.termination, Termination::IterationLimitReached);
    assert_eq!(two.iterations, 2);
    assert_eq!(two.labels, vec![0, 0, 1, 1]);
    assert_eq!(two.centroids, vec![vec![15_000], vec![105_000]]);
    let three = kmeans(&data, 2, 3, 1).unwrap();
    assert_eq!(three.termination, Termination::Converged);
    assert_eq!(three.iterations, 3);
}

#[test]
fn two_runs_agree() {
    let values = vec![12, 7, 3, 99, 41, 40, 8, 57, 13, 2, 77, 76];
    let data = column(values.clone());
    let again = column(values);
    let first = kmeans(&data, 3, 100, 1).unwrap();
    let second = kmeans(&again, 3, 100, 1).unwrap();
    assert_eq!(first.centroids, second.centroids);
    assert_eq!(first.labels, second.labels);
    assert_eq!(first.termination, second.termination);
    assert_eq!(first.iterations, second.iterations);
}

#[test]
fn converged_result_is_a_fixed_point_at_unit_tolerance() {
    let data = column(vec![12, 7, 3, 99, 41, 40, 8, 57, 13, 2, 77, 76]);
    let result = kmeans(&data, 3, 100, 1).unwrap();
    assert_eq!(result.termination, Termination::Converged);
    let mut labels = result.labels.clone();
    assign_labels(&data, &result.centroids, &mut labels);
    let again = recompute_centroids(&data, &labels, 3);
    assert_eq!(again, result.centroids);
    assert!(has_converged(&result.centroids, &again, 1));
}

#[test]
fn coarse_tolerance_can_stop_short_of_a_fixed_point() {
    let data = column(vec![3, 4, 7]);
    let result = kmeans(&data, 2, 10, 2).unwrap();
    assert_eq!(result.termination, Termination::Converged);
    assert_eq!(result.iterations, 1);
    assert_eq!(result.centroids, vec![vec![3], vec![5]]);
    assert_eq!(result.labels, vec![0, 1, 1]);
    // The labels still change under the returned centroids.
    let mut labels = result.labels.clone();
    assign_labels(&data, &result.centroids, &mut labels);
    assert_eq!(labels, vec![0, 0, 1]);
    let again = recompute_centroids(&data, &labels, 2);
    assert_eq!(again, vec![vec![3], vec![7]]);
    assert!(!has_converged(&result.centroids, &again, 2));
}

#[test]
fn one_cluster_is_the_overall_mean() {
    let data = Dataset::from_flat(2, vec![1, 10, 2, 20, 6, 30]).unwrap();
    let result = kmeans(&data, 1, 100, 1).unwrap();
    assert_eq!(result.centroids, vec![vec![3, 20]]);
    assert_eq!(result.labels, vec![0, 0, 0]);
    assert_eq!(result.termination, Termination::Converged);
    assert_eq!(result.iterations, 2);
}

#[test]
fn like_counts_fall_into_four_clusters() {
    // Like counts of articles, in ten-thousandths of a like.
    let likes: Vec<u32> = vec![
        12, 1_540, 87, 23_000, 455, 9, 310_000, 2_200, 64, 18_750, 7, 1_020, 96_000, 31, 5_600,
        130, 4_294_967_295, 2, 880, 41_000,
    ];
    let values: Vec<i64> = likes.iter().map(|&count| i64::from(count) * 10_000).collect();
    let data = Dataset::from_flat(1, values).unwrap();
    let k = 4;
    let result = kmeans(&data, k, 100, 1).unwrap();
    assert_eq!(result.labels.len(), likes.len());
    for (i, count) in likes.iter().enumerate() {
        assert!(*count > 0);
        assert!(result.labels[i] < k);
    }
    assert_eq!(
        result.labels,
        vec![0, 0, 0, 0, 0, 0, 1, 0, 0, 0, 0, 0, 2, 0, 0, 0, 3, 0, 0, 2]
    );
    assert_eq!(
        result.centroids,
        vec![vec![33_616_875], vec![3_100_000_000], vec![685_000_000], vec![42_949_672_950_000]]
    );
    assert_eq!(result.termination, Termination::Converged);
    assert_eq!(result.iterations, 8);
}

#[test]
fn multi_dimensional_points_are_clustered() {
    let rows = vec![vec![0, 0], vec![100, 100], vec![2, 0], vec![102, 100], vec![0, 2], vec![100, 98]];
    let data = Dataset::from_rows(2, &rows).unwrap();
    let result = kmeans(&data, 2, 20, 1).unwrap();
    assert_eq!(result.labels, vec![0, 1, 0, 1, 0, 1]);
    assert_eq!(result.centroids, vec![vec![0, 0], vec![100, 99]]);
    assert_eq!(result.termination, Termination::Converged);
    assert_eq!(result.iterations, 2);
}
