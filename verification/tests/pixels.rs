use palette_kmeans::Image;

fn gradient(width: u32, height: u32) -> Vec<u8> {
    (0..width * height).flat_map(|i| [i as u8, 2 * i as u8, 3, 255]).collect()
}

#[test]
fn pixels_lie_row_by_row() {
    let image = Image::from_raw(3, 2, gradient(3, 2)).unwrap();
    assert_eq!(image.dimensions(), (3, 2));
    assert_eq!(image.width(), 3);
    assert_eq!(image.height(), 2);
    assert_eq!(image.get_pixel(0, 0), [0, 0, 3, 255]);
    assert_eq!(image.get_pixel(2, 0), [2, 4, 3, 255]);
    assert_eq!(image.get_pixel(0, 1), [3, 6, 3, 255]);
    assert_eq!(image.get_pixel(2, 1), [5, 10, 3, 255]);
}

#[test]
fn short_data_is_refused() {
    assert!(Image::from_raw(3, 2, vec![0; 23]).is_none());
    assert!(Image::from_raw(3, 2, vec![0; 24]).is_some());
    assert!(Image::from_raw(u32::MAX, u32::MAX, vec![0; 24]).is_none());
}

#[test]
fn data_left_over_is_ignored() {
    let image = Image::from_raw(1, 1, vec![1, 2, 3, 4, 5, 6]).unwrap();
    let mut weights = vec![9, 9, 9];
    image.nearest_distances(&vec![[0, 2, 3, 4]], &mut weights);
    assert_eq!(weights, vec![1]);
    assert_eq!(image.get_pixel(0, 0), [1, 2, 3, 4]);
}

#[test]
fn distances_come_in_the_order_of_the_pixels() {
    let image = Image::from_raw(2, 2, vec![0, 0, 0, 0, 1, 0, 0, 0, 2, 0, 0, 0, 9, 0, 0, 0]).unwrap();
    let mut weights = Vec::new();
    image.nearest_distances(&vec![[0, 0, 0, 0]], &mut weights);
    assert_eq!(weights, vec![0, 1, 4, 81]);
    image.nearest_distances(&vec![[0, 0, 0, 0], [9, 0, 0, 0]], &mut weights);
    assert_eq!(weights, vec![0, 1, 4, 0]);
}

#[test]
fn empty_image() {
    let image = Image::from_raw(0, 7, Vec::new()).unwrap();
    assert_eq!(image.dimensions(), (0, 7));
    let mut weights = vec![1];
    image.nearest_distances(&vec![[0, 0, 0, 0]], &mut weights);
    assert!(weights.is_empty());
}

#[test]
fn agrees_with_the_image_crate() {
    let data = gradient(5, 4);
    let buffer: image::ImageBuffer<image::Rgba<u8>, Vec<u8>> =
        image::ImageBuffer::from_raw(5, 4, data.clone()).unwrap();
    let image = Image::from_raw(5, 4, data).unwrap();
    for y in 0..4 {
        for x in 0..5 {
            assert_eq!(image.get_pixel(x, y), buffer.get_pixel(x, y).0);
        }
    }
}

#[test]
fn bytes_are_kept_as_given() {
    let image = Image::from_raw(1, 2, vec![1, 2, 3, 4, 5, 6, 7, 8, 9]).unwrap();
    assert_eq!(image.as_bytes(), [1, 2, 3, 4, 5, 6, 7, 8, 9]);
    assert_eq!(image.as_bytes()[4..8], image.get_pixel(0, 1));
    assert!(Image::from_raw(0, 0, Vec::new()).unwrap().as_bytes().is_empty());
}
