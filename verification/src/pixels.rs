//! RGBA images, held in the `image` crate's buffer.

use image::{EncodableLayout, ImageBuffer, Rgba};
use rayon::iter::{IndexedParallelIterator, ParallelIterator};
use vstd::arithmetic::div_mod::lemma_fundamental_div_mod;
use vstd::prelude::*;

use crate::color::{
    are_weights, distance, nearest_distance, nearest_distance_is_zero_on_centroids, MAX_DISTANCE,
};

verus! {

/// An RGBA image with eight bits per channel.
///
/// The buffer is opaque to proofs: `image_bytes` and `image_size` name what it holds.
#[verifier::external_body]
pub struct Image {
    buffer: ImageBuffer<Rgba<u8>, Vec<u8>>,
}

/// The bytes that an image holds: those of its pixels, and any that are left over.
pub uninterp spec fn image_bytes(image: Image) -> Seq<u8>;

/// The width and the height that an image was made with.
pub uninterp spec fn image_size(image: Image) -> (u32, u32);

/// The colour whose channels are the bytes `4 * i` to `4 * i + 3` of `data`.
pub open spec fn color_in(data: Seq<u8>, i: int) -> [u8; 4] {
    [data[4 * i], data[4 * i + 1], data[4 * i + 2], data[4 * i + 3]]
}

impl Image {
    /// Width in pixels.
    pub open spec fn spec_width(self) -> u32 {
        image_size(self).0
    }

    /// Height in pixels.
    pub open spec fn spec_height(self) -> u32 {
        image_size(self).1
    }
}

impl View for Image {
    type V = Seq<[u8; 4]>;

    /// The pixels, row by row from the top, each row from the left.
    open spec fn view(&self) -> Seq<[u8; 4]> {
        Seq::new(
            (self.spec_width() * self.spec_height()) as nat,
            |i: int| color_in(image_bytes(*self), i),
        )
    }
}

/// `ImageBuffer::from_raw`: refuses a width whose rows have more bytes than a `usize` counts,
/// and a `data` too short for `width * height` pixels of four bytes each; else keeps `data`, what
/// is left over included.
#[verifier::external_body]
fn buffer_from_raw(width: u32, height: u32, data: Vec<u8>) -> (image: Option<Image>)
    ensures
        image is Some <==> (4 * width <= usize::MAX && 4 * width * height <= data@.len()),
        image matches Some(image) ==> {
            &&& image_size(image) == (width, height)
            &&& image_bytes(image) == data@
        },
{
    ImageBuffer::from_raw(width, height, data).map(|buffer| Image { buffer })
}

/// `ImageBuffer::dimensions`: the width and the height.
#[verifier::external_body]
fn buffer_dimensions(image: &Image) -> (size: (u32, u32))
    ensures
        size == image_size(*image),
{
    image.buffer.dimensions()
}

/// `ImageBuffer::get_pixel`: the pixel in column `x` of row `y`. It panics outside the image.
#[verifier::external_body]
fn buffer_get_pixel(image: &Image, x: u32, y: u32) -> (color: [u8; 4])
    requires
        x < image.spec_width(),
        y < image.spec_height(),
    ensures
        color == color_in(image_bytes(*image), y * image.spec_width() + x),
{
    image.buffer.get_pixel(x, y).0
}

/// `EncodableLayout::as_bytes` on a buffer: all its bytes. No buffer has fewer than its pixels
/// take.
#[verifier::external_body]
fn buffer_as_bytes(image: &Image) -> (bytes: &[u8])
    ensures
        bytes@ == image_bytes(*image),
        4 * image.spec_width() * image.spec_height() <= bytes@.len(),
{
    image.buffer.as_bytes()
}

/// `ImageBuffer::par_pixels`, rayon's `map` and `collect_into_vec`: calls `nearest_distance` on
/// each pixel, and stores the results in the order of the pixels in place of what `weights`
/// held.
#[verifier::external_body]
fn buffer_map_nearest_distance(image: &Image, centroids: &Vec<[u8; 4]>, weights: &mut Vec<u64>)
    requires
        centroids@.len() > 0,
    ensures
        are_weights(image@, centroids@, final(weights)@),
{
    image.buffer.par_pixels().map(|p| nearest_distance(p.0, centroids)).collect_into_vec(weights)
}

/// A size has a number of pixels, and four times as many bytes.
proof fn lemma_size_is_positive(width: u32, height: u32)
    ensures
        0 <= width * height,
        4 * width * height == 4 * (width * height),
{
    assert(0 <= width * height) by (nonlinear_arith);
    assert(4 * width * height == 4 * (width * height)) by (nonlinear_arith);
}

/// An image has width times height pixels.
pub proof fn pixels_fill_the_size(image: Image)
    ensures
        image@.len() == image.spec_width() * image.spec_height(),
{
    lemma_size_is_positive(image.spec_width(), image.spec_height());
}

/// Channel `c` of pixel `i` of an image is byte `4 * i + c` of what the image holds, and an image
/// has as many pixels as its width times its height.
pub proof fn pixels_are_four_bytes_each(image: Image, i: int, c: int)
    requires
        0 <= i < image@.len(),
        0 <= c < 4,
    ensures
        image@.len() == image_size(image).0 * image_size(image).1,
        image@[i][c] == image_bytes(image)[4 * i + c],
{
    pixels_fill_the_size(image);
    colors_are_four_bytes(image_bytes(image), i, c);
}

/// Channel `c` of colour `i` in `data` is byte `4 * i + c`.
pub proof fn colors_are_four_bytes(data: Seq<u8>, i: int, c: int)
    requires
        0 <= c < 4,
    ensures
        color_in(data, i)[c] == data[4 * i + c],
{
    let color = color_in(data, i);
    assert(color[0] == data[4 * i]);
    assert(color[1] == data[4 * i + 1]);
    assert(color[2] == data[4 * i + 2]);
    assert(color[3] == data[4 * i + 3]);
}

/// A position inside a grid has an index below the number of its cells.
pub proof fn position_in_bounds(x: int, y: int, width: int, height: int)
    requires
        0 <= x < width,
        0 <= y < height,
    ensures
        0 <= y * width + x < width * height,
{
    assert(0 <= y * width + x < width * height) by (nonlinear_arith)
        requires
            0 <= x < width,
            0 <= y < height,
    ;
}

/// An index below the number of cells of a grid has a position inside it.
pub proof fn index_in_bounds(index: int, width: int, height: int)
    requires
        0 <= index < width * height,
        0 < width,
    ensures
        0 <= index % width < width,
        0 <= index / width < height,
        (index / width) * width + index % width == index,
{
    lemma_fundamental_div_mod(index, width);
    let q = index / width;
    let r = index % width;
    assert(0 <= r < width) by (nonlinear_arith)
        requires
            r == index % width,
            0 < width,
    ;
    assert(0 <= q < height) by (nonlinear_arith)
        requires
            index == width * q + r,
            0 <= r < width,
            0 <= index < width * height,
    ;
    assert(width * q == q * width) by (nonlinear_arith);
}

impl Image {
    /// An image of the pixels that `data` starts with; `None` if `data` is too short, or a row too
    /// long to be addressed.
    pub fn from_raw(width: u32, height: u32, data: Vec<u8>) -> (image: Option<Image>)
        ensures
            image is Some <==> (4 * width <= usize::MAX && 4 * width * height <= data@.len()),
            image matches Some(image) ==> {
                &&& image.spec_width() == width
                &&& image.spec_height() == height
                &&& image_bytes(image) == data@
                &&& image@ == Seq::new((width * height) as nat, |i: int| color_in(data@, i))
                &&& image_size(image) == (width, height)
                &&& image@.len() == width * height
                &&& forall|i: int, c: int|
                    0 <= i < width * height && 0 <= c < 4 ==> #[trigger] image@[i][c] == data@[4
                        * i + c]
            },
    {
        let image: Option<Image> = buffer_from_raw(width, height, data);
        proof {
            if image is Some {
                let image = image->0;
                pixels_fill_the_size(image);
                assert forall|i: int, c: int|
                    0 <= i < width * height && 0 <= c < 4 implies #[trigger] image@[i][c]
                    == data@[4 * i + c] by {
                    pixels_are_four_bytes_each(image, i, c);
                }
            }
        }
        image
    }

    /// Width and height.
    pub fn dimensions(&self) -> (size: (u32, u32))
        ensures
            size == (self.spec_width(), self.spec_height()),
            size == image_size(*self),
            self@.len() == self.spec_width() * self.spec_height(),
    {
        proof {
            pixels_fill_the_size(*self);
        }
        buffer_dimensions(self)
    }

    /// Width in pixels.
    pub fn width(&self) -> (width: u32)
        ensures
            width == self.spec_width(),
            width == image_size(*self).0,
    {
        self.dimensions().0
    }

    /// Height in pixels.
    pub fn height(&self) -> (height: u32)
        ensures
            height == self.spec_height(),
            height == image_size(*self).1,
    {
        self.dimensions().1
    }

    /// The bytes of the pixels, row by row, followed by any that are left over.
    pub fn as_bytes(&self) -> (bytes: &[u8])
        ensures
            bytes@ == image_bytes(*self),
            4 * self@.len() <= bytes@.len(),
            forall|i: int| 0 <= i < self@.len() ==> #[trigger] self@[i] == color_in(bytes@, i),
    {
        let bytes: &[u8] = buffer_as_bytes(self);
        proof {
            lemma_size_is_positive(self.spec_width(), self.spec_height());
        }
        bytes
    }

    /// The pixel in column `x` of row `y`.
    pub fn get_pixel(&self, x: u32, y: u32) -> (color: [u8; 4])
        requires
            x < self.spec_width(),
            y < self.spec_height(),
        ensures
            color == self@[y * self.spec_width() + x],
            self@.contains(color),
            forall|c: int|
                0 <= c < 4 ==> #[trigger] color[c] == image_bytes(*self)[4 * (y * image_size(
                    *self,
                ).0 + x) + c],
    {
        let (width, height) = self.dimensions();
        let color: [u8; 4] = buffer_get_pixel(self, x, y);
        proof {
            position_in_bounds(x as int, y as int, width as int, height as int);
            assert(self@[y * width + x] == color);
            assert forall|c: int| 0 <= c < 4 implies #[trigger] color[c] == image_bytes(*self)[4
                * (y * width + x) + c] by {
                colors_are_four_bytes(image_bytes(*self), y * width + x, c);
            }
        }
        color
    }

    /// Stores for each pixel its distance to the closest of `centroids`.
    pub fn nearest_distances(&self, centroids: &Vec<[u8; 4]>, weights: &mut Vec<u64>)
        requires
            centroids@.len() > 0,
        ensures
            are_weights(self@, centroids@, final(weights)@),
            final(weights)@.len() == image_size(*self).0 * image_size(*self).1,
            forall|i: int, j: int|
                0 <= i < self@.len() && 0 <= j < centroids@.len() ==> #[trigger] final(weights)@[i]
                    <= distance(self@[i], #[trigger] centroids@[j]),
            forall|i: int|
                0 <= i < self@.len() ==> #[trigger] final(weights)@[i] <= MAX_DISTANCE && exists|
                    j: int,
                |
                    0 <= j < centroids@.len() && final(weights)@[i] == distance(
                        self@[i],
                        #[trigger] centroids@[j],
                    ),
    {
        buffer_map_nearest_distance(self, centroids, weights);
        proof {
            pixels_fill_the_size(*self);
            assert forall|i: int| 0 <= i < self@.len() implies #[trigger] weights@[i]
                <= MAX_DISTANCE && exists|j: int|
                0 <= j < centroids@.len() && weights@[i] == distance(
                    self@[i],
                    #[trigger] centroids@[j],
                ) by {
                nearest_distance_is_zero_on_centroids(self@[i], centroids@, weights@[i] as int);
            }
        }
    }
}

} // verus!
