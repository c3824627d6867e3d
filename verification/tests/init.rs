use palette_kmeans::init::{
    forgy, forgy_at, has_distinct_colors, kmeans_pp, kmeans_pp_at, next_centroid, pixel_at_index,
    try_next_centroid, InitializationMethod,
};
use palette_kmeans::weighted::WeightedDistr;
use palette_kmeans::Image;

/// A picture of `width` by `height` pixels whose colours repeat after `colors` pixels.
fn striped(width: u32, height: u32, colors: u32) -> Image {
    let data = (0..width * height)
        .flat_map(|i| [(i % colors) as u8, 100, 0, 255])
        .collect();
    Image::from_raw(width, height, data).unwrap()
}

fn pixels(image: &Image) -> Vec<[u8; 4]> {
    let (width, height) = image.dimensions();
    (0..height).flat_map(|y| (0..width).map(move |x| image.get_pixel(x, y))).collect()
}

fn all_distinct(colors: &[[u8; 4]]) -> bool {
    (0..colors.len()).all(|i| !colors[..i].contains(&colors[i]))
}

#[test]
fn forgy_takes_the_pixels_drawn() {
    let image = striped(4, 3, 12);
    let centroids = forgy_at(&image, &vec![(0, 0), (3, 2), (1, 1), (1, 1)]);
    assert_eq!(
        centroids,
        vec![[0, 100, 0, 255], [11, 100, 0, 255], [5, 100, 0, 255], [5, 100, 0, 255]]
    );
}

#[test]
fn forgy_gives_k_pixels_of_the_image() {
    let image = striped(5, 4, 7);
    let all = pixels(&image);
    let centroids = forgy(&image, 50);
    assert_eq!(centroids.len(), 50);
    assert!(centroids.iter().all(|c| all.contains(c)));
}

#[test]
fn forgy_reaches_every_pixel() {
    let image = striped(2, 2, 4);
    let centroids = forgy(&image, 500);
    for color in pixels(&image) {
        assert!(centroids.contains(&color));
    }
}

#[test]
fn forgy_of_nothing() {
    let image = Image::from_raw(0, 0, Vec::new()).unwrap();
    assert!(forgy(&image, 0).is_empty());
    assert_eq!(forgy(&striped(2, 2, 1), 0).len(), 0);
}

#[test]
fn kmeans_pp_gives_distinct_pixels_of_the_image() {
    let image = striped(8, 8, 10);
    let all = pixels(&image);
    for _ in 0..50 {
        let centroids = kmeans_pp(&image, 6);
        assert_eq!(centroids.len(), 6);
        assert!(centroids.iter().all(|c| all.contains(c)));
        assert!(all_distinct(&centroids));
    }
}

#[test]
fn kmeans_pp_can_use_up_all_colors() {
    let image = striped(8, 8, 10);
    let mut centroids = kmeans_pp(&image, 10);
    centroids.sort();
    let colors: Vec<[u8; 4]> = (0..10).map(|i| [i, 100, 0, 255]).collect();
    assert_eq!(centroids, colors);
}

#[test]
fn kmeans_pp_gives_at_least_one_centroid() {
    let image = striped(3, 3, 9);
    assert_eq!(kmeans_pp(&image, 0).len(), 1);
    assert_eq!(kmeans_pp(&image, 1).len(), 1);
}

#[test]
fn one_step_of_kmeans_pp() {
    let image = striped(4, 1, 4);
    let mut weights = Vec::new();
    image.nearest_distances(&vec![[1, 100, 0, 255]], &mut weights);
    assert_eq!(weights, vec![1, 0, 1, 4]);
    let distr = WeightedDistr::new(&weights);
    let drawn: Vec<[u8; 4]> =
        (0..6).map(|chosen| pixel_at_index(&image, distr.index_for(chosen))).collect();
    assert_eq!(drawn[0], [0, 100, 0, 255]);
    assert_eq!(drawn[1], [2, 100, 0, 255]);
    for color in &drawn[2..] {
        assert_eq!(*color, [3, 100, 0, 255]);
    }
}

#[test]
fn an_index_is_a_column_and_a_row() {
    let image = striped(3, 2, 6);
    for index in 0..6 {
        assert_eq!(pixel_at_index(&image, index), [index as u8, 100, 0, 255]);
    }
}

#[test]
fn colors_are_counted_once() {
    let image = striped(8, 8, 10);
    assert!(has_distinct_colors(&image, 0));
    assert!(has_distinct_colors(&image, 10));
    assert!(!has_distinct_colors(&image, 11));
    let none = Image::from_raw(0, 0, Vec::new()).unwrap();
    assert!(has_distinct_colors(&none, 0));
    assert!(!has_distinct_colors(&none, 1));
}

#[test]
fn methods_dispatch() {
    let image = striped(3, 3, 9);
    assert_eq!(InitializationMethod::Forgy.initialize(&image, 0).len(), 0);
    assert_eq!(InitializationMethod::Kmeanspp.initialize(&image, 0).len(), 1);
    assert_eq!(InitializationMethod::Forgy.initialize(&image, 20).len(), 20);
    assert!(all_distinct(&InitializationMethod::Kmeanspp.initialize(&image, 9)));
}

#[test]
fn initialization_is_refused_where_nothing_can_be_drawn() {
    let image = striped(8, 8, 10);
    assert!(InitializationMethod::Kmeanspp.can_initialize(&image, 10));
    assert!(!InitializationMethod::Kmeanspp.can_initialize(&image, 11));
    assert!(InitializationMethod::Kmeanspp.try_initialize(&image, 11).is_none());
    assert_eq!(InitializationMethod::Kmeanspp.try_initialize(&image, 4).unwrap().len(), 4);
    assert_eq!(InitializationMethod::Forgy.try_initialize(&image, 11).unwrap().len(), 11);

    let empty = Image::from_raw(4, 0, Vec::new()).unwrap();
    assert!(InitializationMethod::Kmeanspp.try_initialize(&empty, 0).is_none());
    assert!(InitializationMethod::Forgy.try_initialize(&empty, 1).is_none());
    assert!(InitializationMethod::Forgy.try_initialize(&empty, 0).unwrap().is_empty());
}

#[test]
fn next_centroid_is_drawn_by_distance() {
    let image = striped(4, 1, 4);
    let centroids = vec![[1, 100, 0, 255]];
    let reds: Vec<u8> = (0..6).map(|chosen| next_centroid(&image, &centroids, chosen)[0]).collect();
    assert_eq!(reds, vec![0, 2, 3, 3, 3, 3]);
    assert_eq!(try_next_centroid(&image, &centroids, 5), Some([3, 100, 0, 255]));
    assert_eq!(try_next_centroid(&image, &centroids, 6), None);
    assert_eq!(try_next_centroid(&image, &Vec::new(), 0), None);
    let all: Vec<[u8; 4]> = (0..4).map(|i| [i, 100, 0, 255]).collect();
    assert_eq!(try_next_centroid(&image, &all, 0), None);
}

#[test]
fn kmeans_pp_takes_the_numbers_drawn() {
    let image = striped(4, 1, 4);
    let reds = |draws: &Vec<u64>| {
        kmeans_pp_at(&image, (1, 0), draws)
            .map(|centroids| centroids.iter().map(|c| c[0]).collect::<Vec<u8>>())
    };
    assert_eq!(reds(&vec![]), Some(vec![1]));
    assert_eq!(reds(&vec![2]), Some(vec![1, 3]));
    assert_eq!(reds(&vec![2, 1]), Some(vec![1, 3, 2]));
    assert_eq!(reds(&vec![2, 1, 0]), Some(vec![1, 3, 2, 0]));
    assert_eq!(reds(&vec![2, 2]), None);
    assert_eq!(reds(&vec![6]), None);
    assert_eq!(reds(&vec![2, 1, 0, 0]), None);
    assert!(kmeans_pp_at(&image, (4, 0), &vec![]).is_none());
    assert!(kmeans_pp_at(&image, (0, 1), &vec![]).is_none());
}

#[test]
fn one_more_draw_only_appends() {
    let image = striped(8, 8, 10);
    let draws = vec![200, 20, 5, 1];
    let longest = kmeans_pp_at(&image, (3, 4), &draws).unwrap();
    for n in 0..4 {
        let shorter = kmeans_pp_at(&image, (3, 4), &draws[..n].to_vec()).unwrap();
        assert_eq!(shorter, longest[..n + 1]);
    }
}

#[test]
fn every_order_of_colors_can_be_drawn() {
    let image = striped(3, 1, 3);
    let mut orders = Vec::new();
    for x in 0..3 {
        for a in 0..5 {
            if let Some(centroids) = kmeans_pp_at(&image, (x, 0), &vec![a, 0]) {
                let order: Vec<u8> = centroids.iter().map(|c| c[0]).collect();
                if !orders.contains(&order) {
                    orders.push(order);
                }
            }
        }
    }
    orders.sort();
    assert_eq!(
        orders,
        vec![
            vec![0, 1, 2],
            vec![0, 2, 1],
            vec![1, 0, 2],
            vec![1, 2, 0],
            vec![2, 0, 1],
            vec![2, 1, 0]
        ]
    );
}
