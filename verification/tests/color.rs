use palette_kmeans::color::{dist_euclid_squared, nearest_distance, same_color, MAX_DISTANCE};

#[test]
fn distance_adds_up_the_squares_of_all_four_channels() {
    assert_eq!(dist_euclid_squared([1, 2, 3, 4], [2, 4, 6, 8]), 1 + 4 + 9 + 16);
    assert_eq!(dist_euclid_squared([10, 0, 0, 0], [0, 0, 0, 0]), 100);
    assert_eq!(dist_euclid_squared([0, 0, 0, 200], [0, 0, 0, 197]), 9);
}

#[test]
fn largest_distance() {
    assert_eq!(dist_euclid_squared([0; 4], [255; 4]), 260_100);
    assert_eq!(dist_euclid_squared([0; 4], [255; 4]), MAX_DISTANCE);
}

#[test]
fn distance_is_symmetric_and_separates_colors() {
    let a = [7, 200, 13, 255];
    let b = [9, 100, 14, 0];
    assert_eq!(dist_euclid_squared(a, b), dist_euclid_squared(b, a));
    assert_eq!(dist_euclid_squared(a, a), 0);
    assert_ne!(dist_euclid_squared(a, b), 0);
}

#[test]
fn nearest_of_several_centroids() {
    let centroids = [[0, 0, 0, 0], [10, 10, 10, 10], [200, 0, 0, 0]];
    assert_eq!(nearest_distance([11, 10, 10, 10], &centroids), 1);
    assert_eq!(nearest_distance([198, 0, 0, 0], &centroids), 4);
    assert_eq!(nearest_distance([200, 0, 0, 0], &centroids), 0);
    assert_eq!(nearest_distance([1, 1, 1, 1], &centroids[..1]), 4);
}

#[test]
fn colors_are_the_same_in_every_channel() {
    assert!(same_color([1, 2, 3, 4], [1, 2, 3, 4]));
    assert!(!same_color([1, 2, 3, 4], [0, 2, 3, 4]));
    assert!(!same_color([1, 2, 3, 4], [1, 2, 3, 5]));
}
