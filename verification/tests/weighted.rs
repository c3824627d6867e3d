use palette_kmeans::weighted::{is_below_total, WeightedDistr};

#[test]
fn numbers_are_dealt_out_by_weight() {
    let distr = WeightedDistr::new(&[2, 0, 3, 1]);
    let dealt: Vec<usize> = (0..6).map(|chosen| distr.index_for(chosen)).collect();
    assert_eq!(dealt, vec![0, 0, 2, 2, 2, 3]);
}

#[test]
fn leading_and_trailing_zero_weights_get_nothing() {
    let distr = WeightedDistr::new(&[0, 0, 4, 0, 0]);
    for chosen in 0..4 {
        assert_eq!(distr.index_for(chosen), 2);
    }
}

#[test]
fn single_weight() {
    let distr = WeightedDistr::new(&[1]);
    assert_eq!(distr.index_for(0), 0);
}

#[test]
fn update_replaces_the_weights() {
    let mut distr = WeightedDistr::new(&[1]);
    distr.update(&[0, 5, 5]);
    assert_eq!(distr.index_for(0), 1);
    assert_eq!(distr.index_for(4), 1);
    assert_eq!(distr.index_for(5), 2);
    distr.update(&[7, 1]);
    assert_eq!(distr.index_for(6), 0);
    assert_eq!(distr.index_for(7), 1);
}

#[test]
fn weights_up_to_the_limit_of_their_type() {
    let distr = WeightedDistr::new(&[u64::MAX - 1, 1]);
    assert_eq!(distr.index_for(u64::MAX - 2), 0);
    assert_eq!(distr.index_for(u64::MAX - 1), 1);
}

#[test]
fn samples_have_positive_weight() {
    let weights = [0, 3, 0, 0, 1, 0];
    let distr = WeightedDistr::new(&weights);
    let mut rng = rand::rng();
    let mut hits = [0u32; 6];
    for _ in 0..2000 {
        let index = distr.sample(&mut rng);
        assert!(weights[index] > 0);
        hits[index] += 1;
    }
    assert!(hits[1] > hits[4]);
    assert!(hits[4] > 0);
}

#[test]
fn numbers_below_the_sum() {
    assert!(is_below_total(&[2, 0, 3], 4));
    assert!(!is_below_total(&[2, 0, 3], 5));
    assert!(!is_below_total(&[0, 0], 0));
    assert!(!is_below_total(&[], 0));
}
