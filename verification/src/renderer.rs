//! State of the renderer, and the work it hands to the GPU.

use vstd::endian::{endianness, Endian};
use vstd::prelude::*;
use vstd::std_specs::cmp::PartialEqSpec;

use crate::bytes::{
    big_endian, big_endian_is_zero, bytes_of, cast_slice, four_bytes_make_the_number,
    in_memory, laid_out, small_numbers_are_one_byte, u32_from_be_bytes, u32_words, u64_words,
    words_follow_each_other,
};
use crate::gpu::{
    spec_buffer_size, spec_composite_group, spec_kmeans_group, spec_shader_constant,
    spec_surface_usages, surface_usages, BufferId, PipelineId, TextureUsages,
};
use crate::init::InitializationMethod;
use crate::pixels::{
    color_in, image_bytes, image_size, pixels_fill_the_size, position_in_bounds, Image,
};

verus! {

/// Number of workgroups in each dimension.
#[derive(Copy, Clone, PartialEq, Eq, Debug, Structural)]
pub struct Workgroups {
    pub x: u32,
    pub y: u32,
    pub z: u32,
}

/// Whether `count` workgroups of eight cells each cover `length` pixels, and one fewer does
/// not.
pub open spec fn covers(count: u32, length: u32) -> bool {
    8 * count - 8 < length <= 8 * count
}

/// Whether `groups` of eight by eight cells cover a picture, with none to spare.
pub open spec fn covers_picture(groups: Workgroups, width: u32, height: u32) -> bool {
    covers(groups.x, width) && covers(groups.y, height) && groups.z == 1
}

/// A length is covered by one number of workgroups only.
pub proof fn cover_is_unique(a: u32, b: u32, length: u32)
    requires
        covers(a, length),
        covers(b, length),
    ensures
        a == b,
{
}

/// Eight more pixels take one more workgroup, and a length of up to eight takes one unless it is
/// zero.
pub proof fn covers_grow_by_eight(count: u32, length: u32)
    requires
        length + 8 <= u32::MAX,
        covers(count, length),
    ensures
        covers((count + 1) as u32, (length + 8) as u32),
        length <= 8 ==> count == if length == 0 { 0int } else { 1 },
        count == (length + 7) / 8,
{
}

/// Number of workgroups of eight cells that cover `length` pixels.
fn workgroup_count(length: u32) -> (count: u32)
    ensures
        covers(count, length),
{
    if length % 8 == 0 {
        length / 8
    } else {
        length / 8 + 1
    }
}

/// Workgroups of eight by eight cells that cover a picture.
pub fn picture_workgroups(width: u32, height: u32) -> (groups: Workgroups)
    ensures
        covers_picture(groups, width, height),
        groups.x == (width + 7) / 8,
        groups.y == (height + 7) / 8,
        groups.z == 1,
{
    Workgroups { x: workgroup_count(width), y: workgroup_count(height), z: 1 }
}

/// Whether the bits are those of no number: the exponent is the largest, the fraction is not
/// zero.
pub open spec fn is_nan(bits: u32) -> bool {
    bits % 0x8000_0000 > 0x7f80_0000
}

/// Whether the bits are those of a zero, of either sign.
pub open spec fn is_zero(bits: u32) -> bool {
    bits % 0x8000_0000 == 0
}

/// Whether the bits are those of two equal 32-bit floating-point numbers: they are the same or
/// both zero, and neither is the bits of no number.
pub open spec fn same_number(a: u32, b: u32) -> bool {
    !is_nan(a) && !is_nan(b) && (a == b || (is_zero(a) && is_zero(b)))
}

/// Whether the bits are those of two equal 32-bit floating-point numbers.
pub fn bits_equal(a: u32, b: u32) -> (equal: bool)
    ensures
        equal == same_number(a, b),
        a % 0x8000_0000 > 0x7f80_0000 || b % 0x8000_0000 > 0x7f80_0000 ==> !equal,
        a % 0x8000_0000 <= 0x7f80_0000 && b % 0x8000_0000 <= 0x7f80_0000 ==> (equal <==> (a == b
            || (a % 0x8000_0000 == 0 && b % 0x8000_0000 == 0))),
{
    let size_a: u32 = a % 0x8000_0000;
    let size_b: u32 = b % 0x8000_0000;
    size_a <= 0x7f80_0000 && size_b <= 0x7f80_0000 && (a == b || (size_a == 0 && size_b == 0))
}

/// State of the mouse, as the composite shader gets it. The position is kept as the bits of two
/// 32-bit floating-point numbers, and compared as those numbers are.
#[derive(Copy, Clone, Debug)]
pub struct MouseState {
    /// 1 while the button is down, else 0.
    pub mouse_clicked: u32,
    /// Bits of the horizontal position.
    pub mouse_x: u32,
    /// Bits of the vertical position.
    pub mouse_y: u32,
}

impl PartialEq for MouseState {
    fn eq(&self, other: &Self) -> (equal: bool) {
        self.mouse_clicked == other.mouse_clicked && bits_equal(self.mouse_x, other.mouse_x)
            && bits_equal(self.mouse_y, other.mouse_y)
    }
}

impl vstd::std_specs::cmp::PartialEqSpecImpl for MouseState {
    open spec fn obeys_eq_spec() -> bool {
        true
    }

    open spec fn eq_spec(&self, other: &Self) -> bool {
        self.mouse_clicked == other.mouse_clicked && same_number(self.mouse_x, other.mouse_x)
            && same_number(self.mouse_y, other.mouse_y)
    }
}

/// Two states of the mouse are equal if and only if the buttons are and both coordinates are
/// equal as numbers: what is no number equals nothing, itself included, the two zeros are
/// equal, and all else equals only itself.
pub proof fn mouse_states_compare_as_numbers(a: MouseState, b: MouseState)
    ensures
        a.eq_spec(&b) == b.eq_spec(&a),
        a.mouse_clicked != b.mouse_clicked ==> !a.eq_spec(&b),
        a.mouse_x % 0x8000_0000 > 0x7f80_0000 ==> !a.eq_spec(&b),
        a.mouse_y % 0x8000_0000 > 0x7f80_0000 ==> !a.eq_spec(&b),
        a.mouse_x != b.mouse_x && a.mouse_x % 0x8000_0000 != 0 ==> !a.eq_spec(&b),
        a.mouse_y != b.mouse_y && a.mouse_y % 0x8000_0000 != 0 ==> !a.eq_spec(&b),
        ({
            &&& a.mouse_clicked == b.mouse_clicked
            &&& a.mouse_x % 0x8000_0000 <= 0x7f80_0000
            &&& a.mouse_y % 0x8000_0000 <= 0x7f80_0000
            &&& a.mouse_x == b.mouse_x || (a.mouse_x % 0x8000_0000 == 0 && b.mouse_x % 0x8000_0000
                == 0)
            &&& a.mouse_y == b.mouse_y || (a.mouse_y % 0x8000_0000 == 0 && b.mouse_y % 0x8000_0000
                == 0)
        }) ==> a.eq_spec(&b),
{
}

/// The four bytes of a word, in the byte order of the machine, make the word.
proof fn lemma_native_word(bytes: Seq<u8>, words: Seq<int>, i: int)
    requires
        in_memory(bytes, words, 4),
        0 <= i < words.len(),
        0 <= words[i] < 0x1_0000_0000,
    ensures
        bytes.len() == 4 * words.len(),
        words[i] == if endianness() == Endian::Little {
            bytes[4 * i] + 0x100 * bytes[4 * i + 1] + 0x1_0000 * bytes[4 * i + 2] + 0x100_0000
                * bytes[4 * i + 3]
        } else {
            bytes[4 * i + 3] + 0x100 * bytes[4 * i + 2] + 0x1_0000 * bytes[4 * i + 1] + 0x100_0000
                * bytes[4 * i]
        },
{
    let little = endianness() == Endian::Little;
    words_follow_each_other(words, 4, little, i, 0);
    words_follow_each_other(words, 4, little, i, 1);
    words_follow_each_other(words, 4, little, i, 2);
    words_follow_each_other(words, 4, little, i, 3);
    four_bytes_make_the_number(words[i]);
}

/// The bytes that the mouse buffer takes hold the button, then the horizontal and then the
/// vertical position: read as three numbers of four bytes each, in the byte order of the
/// machine, they are the three.
pub proof fn mouse_bytes_hold_the_state(bytes: Seq<u8>, state: MouseState)
    requires
        in_memory(bytes, state.words(), 4),
    ensures
        bytes.len() == 12,
        endianness() == Endian::Little ==> {
            &&& state.mouse_clicked == bytes[0] + 0x100 * bytes[1] + 0x1_0000 * bytes[2]
                + 0x100_0000 * bytes[3]
            &&& state.mouse_x == bytes[4] + 0x100 * bytes[5] + 0x1_0000 * bytes[6] + 0x100_0000
                * bytes[7]
            &&& state.mouse_y == bytes[8] + 0x100 * bytes[9] + 0x1_0000 * bytes[10] + 0x100_0000
                * bytes[11]
        },
        endianness() == Endian::Big ==> {
            &&& state.mouse_clicked == bytes[3] + 0x100 * bytes[2] + 0x1_0000 * bytes[1]
                + 0x100_0000 * bytes[0]
            &&& state.mouse_x == bytes[7] + 0x100 * bytes[6] + 0x1_0000 * bytes[5] + 0x100_0000
                * bytes[4]
            &&& state.mouse_y == bytes[11] + 0x100 * bytes[10] + 0x1_0000 * bytes[9] + 0x100_0000
                * bytes[8]
        },
{
    let words = state.words();
    lemma_native_word(bytes, words, 0);
    lemma_native_word(bytes, words, 1);
    lemma_native_word(bytes, words, 2);
    assert(words[0] == state.mouse_clicked);
    assert(words[1] == state.mouse_x);
    assert(words[2] == state.mouse_y);
}

impl MouseState {
    /// The three words in the order of the shader's declaration.
    pub open spec fn words(self) -> Seq<int> {
        seq![self.mouse_clicked as int, self.mouse_x as int, self.mouse_y as int]
    }

    /// The button is a flag.
    pub open spec fn wf(self) -> bool {
        self.mouse_clicked <= 1
    }

    /// No button down, at the origin.
    pub fn new() -> (state: Self)
        ensures
            state.wf(),
            state == (MouseState { mouse_clicked: 0, mouse_x: 0, mouse_y: 0 }),
    {
        MouseState { mouse_clicked: 0, mouse_x: 0, mouse_y: 0 }
    }

    /// Records whether the button is down.
    pub fn set_mouse_state(&mut self, clicked: bool)
        ensures
            *final(self) == (MouseState {
                mouse_clicked: if clicked { 1 } else { 0 },
                ..*old(self)
            }),
            final(self).wf(),
    {
        self.mouse_clicked = if clicked { 1 } else { 0 };
    }

    /// Records the position.
    pub fn set_mouse_pos(&mut self, mouse_x: u32, mouse_y: u32)
        ensures
            *final(self) == (MouseState { mouse_x, mouse_y, ..*old(self) }),
            old(self).wf() ==> final(self).wf(),
    {
        self.mouse_x = mouse_x;
        self.mouse_y = mouse_y;
    }

    /// The bytes that the mouse buffer takes.
    pub fn to_bytes(&self) -> (bytes: Vec<u8>)
        ensures
            in_memory(bytes@, self.words(), 4),
            bytes@ == laid_out(
                seq![self.mouse_clicked as int, self.mouse_x as int, self.mouse_y as int],
                4,
                endianness() == Endian::Little,
            ),
            bytes@.len() == 12,
    {
        let words: [u32; 3] = [self.mouse_clicked, self.mouse_x, self.mouse_y];
        assert(u32_words(words) =~= self.words());
        let raw: &[u8] = bytes_of(&words);
        let mut bytes: Vec<u8> = Vec::new();
        bytes.extend_from_slice(raw);
        assert(bytes@ =~= raw@);
        bytes
    }
}

/// What matters of a texture format that a surface offers.
#[derive(Copy, Clone, PartialEq, Eq, Debug, Structural)]
pub struct SurfaceFormat {
    /// Whether texels are converted to sRGB on a write.
    pub is_srgb: bool,
    /// Whether it is the format of the composite texture.
    pub is_bgra8_unorm: bool,
}

/// Whether the composite can be copied to a surface of this format as it is.
pub open spec fn is_preferred(format: SurfaceFormat) -> bool {
    !format.is_srgb && format.is_bgra8_unorm
}

/// Whether `index` is that of the first preferred format, or of the first if none is preferred.
pub open spec fn is_choice(formats: Seq<SurfaceFormat>, index: usize) -> bool {
    &&& index < formats.len()
    &&& is_preferred(formats[index as int]) ==> forall|i: int|
        0 <= i < index ==> !is_preferred(#[trigger] formats[i])
    &&& !is_preferred(formats[index as int]) ==> index == 0 && forall|i: int|
        0 <= i < formats.len() ==> !is_preferred(#[trigger] formats[i])
}

/// Index of the surface format to use: the first preferred one, or else the first.
pub fn choose_surface_format(formats: &[SurfaceFormat]) -> (index: usize)
    requires
        formats@.len() > 0,
    ensures
        is_choice(formats@, index),
        index < formats@.len(),
        forall|i: int|
            0 <= i < index ==> (#[trigger] formats@[i]).is_srgb || !formats@[i].is_bgra8_unorm,
        formats@[index as int].is_srgb || !formats@[index as int].is_bgra8_unorm ==> {
            &&& index == 0
            &&& forall|i: int|
                0 <= i < formats@.len() ==> (#[trigger] formats@[i]).is_srgb
                    || !formats@[i].is_bgra8_unorm
        },
{
    let mut i: usize = 0;
    while i < formats.len()
        invariant
            i <= formats@.len(),
            forall|j: int| 0 <= j < i ==> !is_preferred(#[trigger] formats@[j]),
        decreases formats@.len() - i,
    {
        if !formats[i].is_srgb && formats[i].is_bgra8_unorm {
            return i;
        }
        i += 1;
    }
    0
}

/// The composite is copied to a surface of its own format wherever the surface offers it: the
/// choice is then the first such format, and no other choice is right.
pub proof fn choice_is_the_first_that_fits(
    formats: Seq<SurfaceFormat>,
    index: usize,
    other: usize,
)
    requires
        is_choice(formats, index),
        other < formats.len(),
        !formats[other as int].is_srgb,
        formats[other as int].is_bgra8_unorm,
    ensures
        !formats[index as int].is_srgb,
        formats[index as int].is_bgra8_unorm,
        index <= other,
        is_choice(formats, other) ==> other == index,
{
}

/// Where no offered format is that of the composite, the choice is the first.
pub proof fn choice_falls_back_to_the_first(formats: Seq<SurfaceFormat>, index: usize)
    requires
        is_choice(formats, index),
        forall|i: int|
            0 <= i < formats.len() ==> (#[trigger] formats[i]).is_srgb
                || !formats[i].is_bgra8_unorm,
    ensures
        index == 0,
{
}

/// How the surface is set up.
#[derive(Copy, Clone, PartialEq, Eq, Debug, Structural)]
pub struct SurfaceConfig {
    /// Index of the format among those offered.
    pub format: usize,
    pub width: u32,
    pub height: u32,
    pub usages: TextureUsages,
}

/// How a surface that offers `formats` is set up to show a picture.
pub fn surface_config(width: u32, height: u32, formats: &[SurfaceFormat]) -> (config:
    SurfaceConfig)
    requires
        formats@.len() > 0,
    ensures
        config.width == width,
        config.height == height,
        config.usages == spec_surface_usages(),
        is_choice(formats@, config.format),
        config.usages == (TextureUsages {
            copy_src: false,
            copy_dst: true,
            texture_binding: true,
            storage_binding: false,
            render_attachment: true,
        }),
{
    SurfaceConfig {
        format: choose_surface_format(formats),
        width,
        height,
        usages: surface_usages(),
    }
}

/// How the pixels of an image lie in memory.
#[derive(Copy, Clone, PartialEq, Eq, Debug, Structural)]
pub struct ImageLayout {
    pub bytes_per_row: u32,
    pub rows_per_image: u32,
}

/// Whether `layout` is that of an image of the given size: four bytes for each pixel, no gaps.
pub open spec fn is_layout_of(layout: ImageLayout, width: u32, height: u32) -> bool {
    layout.bytes_per_row == 4 * width && layout.rows_per_image == height
}

/// The layout finds the pixels: the four bytes at column `x` of row `y` are the colour of the
/// pixel there, and lie inside the rows of the image.
pub proof fn layout_finds_pixels(
    layout: ImageLayout,
    data: Seq<u8>,
    width: u32,
    height: u32,
    x: int,
    y: int,
)
    requires
        is_layout_of(layout, width, height),
        0 <= x < width,
        0 <= y < height,
    ensures
        ({
            let start = y * layout.bytes_per_row + 4 * x;
            &&& 0 <= start
            &&& start + 4 <= layout.bytes_per_row * layout.rows_per_image
            &&& [data[start], data[start + 1], data[start + 2], data[start + 3]] == color_in(
                data,
                y * width + x,
            )
        }),
{
    let i = y * width + x;
    position_in_bounds(x, y, width as int, height as int);
    assert(y * (4 * width) + 4 * x == 4 * i) by (nonlinear_arith)
        requires
            i == y * width + x,
    ;
    assert((4 * width) * height == 4 * (width * height)) by (nonlinear_arith);
}

/// What is uploaded is the image that k-means reads: with the layout of its size, the bytes of
/// an image hold at column `x` of row `y` the pixel there.
pub proof fn upload_holds_the_image(image: Image, layout: ImageLayout, x: int, y: int)
    requires
        is_layout_of(layout, image.spec_width(), image.spec_height()),
        0 <= x < image.spec_width(),
        0 <= y < image.spec_height(),
    ensures
        ({
            let data = image_bytes(image);
            let start = y * layout.bytes_per_row + 4 * x;
            [data[start], data[start + 1], data[start + 2], data[start + 3]] == image@[y
                * image.spec_width() + x]
        }),
{
    let (width, height) = (image.spec_width(), image.spec_height());
    layout_finds_pixels(layout, image_bytes(image), width, height, x, y);
    pixels_fill_the_size(image);
    position_in_bounds(x, y, width as int, height as int);
}

/// Layout of an image of the given size.
pub fn image_layout(width: u32, height: u32) -> (layout: ImageLayout)
    requires
        4 * width <= u32::MAX,
    ensures
        is_layout_of(layout, width, height),
        layout.bytes_per_row == 4 * width,
        layout.rows_per_image == height,
        layout.bytes_per_row * layout.rows_per_image == 4 * (width * height),
{
    assert((4 * width) * height == 4 * (width * height)) by (nonlinear_arith);
    ImageLayout { bytes_per_row: 4 * width, rows_per_image: height }
}

/// Centroids with channels of 64 bits, as the shaders add them up.
pub open spec fn widened(centroids: Seq<[u8; 4]>) -> Seq<[u64; 4]> {
    Seq::new(
        centroids.len(),
        |i: int|
            [
                centroids[i][0] as u64,
                centroids[i][1] as u64,
                centroids[i][2] as u64,
                centroids[i][3] as u64,
            ],
    )
}

/// Widens each channel to 64 bits.
pub fn widen(centroids: &Vec<[u8; 4]>) -> (rows: Vec<[u64; 4]>)
    ensures
        rows@ == widened(centroids@),
        rows@.len() == centroids@.len(),
        forall|i: int, c: int|
            0 <= i < rows@.len() && 0 <= c < 4 ==> #[trigger] rows@[i][c] == centroids@[i][c],
{
    let mut rows: Vec<[u64; 4]> = Vec::with_capacity(centroids.len());
    let mut i: usize = 0;
    while i < centroids.len()
        invariant
            i <= centroids@.len(),
            rows@ == widened(centroids@.take(i as int)),
        decreases centroids@.len() - i,
    {
        let c: [u8; 4] = centroids[i];
        let row: [u64; 4] = [c[0] as u64, c[1] as u64, c[2] as u64, c[3] as u64];
        rows.push(row);
        proof {
            let after = widened(centroids@.take(i + 1));
            assert(row =~= after[i as int]);
            assert(rows@ =~= after);
        }
        i += 1;
    }
    assert(centroids@.take(i as int) =~= centroids@);
    rows
}

/// Whether `bytes` are `centroids` as the centroid buffers hold them.
pub open spec fn encodes_centroids(bytes: Seq<u8>, centroids: Seq<[u8; 4]>) -> bool {
    in_memory(bytes, u64_words(widened(centroids)), 8)
}

/// The centroid buffers hold four 64-bit numbers for each centroid, one for each channel, in
/// the byte order of the machine: the channel itself is the least significant byte, and the
/// seven others are zero.
pub proof fn centroid_bytes_hold_the_channels(
    bytes: Seq<u8>,
    centroids: Seq<[u8; 4]>,
    i: int,
    c: int,
    b: int,
)
    requires
        encodes_centroids(bytes, centroids),
        0 <= i < centroids.len(),
        0 <= c < 4,
        0 <= b < 8,
    ensures
        bytes.len() == 32 * centroids.len(),
        endianness() == Endian::Little ==> bytes[32 * i + 8 * c + b] == if b == 0 {
            centroids[i][c]
        } else {
            0
        },
        endianness() == Endian::Big ==> bytes[32 * i + 8 * c + b] == if b == 7 {
            centroids[i][c]
        } else {
            0
        },
{
    let words = u64_words(widened(centroids));
    let little = endianness() == Endian::Little;
    let j = 4 * i + c;
    assert(j / 4 == i && j % 4 == c);
    assert(words[j] == widened(centroids)[i][c]);
    assert(words[j] == centroids[i][c]);
    let place = if little { b } else { 7 - b };
    words_follow_each_other(words, 8, little, j, place);
    small_numbers_are_one_byte(words[j], place as nat);
}

/// Bytes for the centroid buffers encode one list of centroids only.
pub proof fn centroid_bytes_are_unambiguous(
    bytes: Seq<u8>,
    a: Seq<[u8; 4]>,
    b: Seq<[u8; 4]>,
)
    requires
        encodes_centroids(bytes, a),
        encodes_centroids(bytes, b),
    ensures
        a == b,
{
    lemma_encoded_length(bytes, a);
    lemma_encoded_length(bytes, b);
    let low = if endianness() == Endian::Little { 0int } else { 7 };
    assert forall|i: int| 0 <= i < a.len() implies a[i] == b[i] by {
        assert forall|c: int| 0 <= c < 4 implies a[i][c] == b[i][c] by {
            centroid_bytes_hold_the_channels(bytes, a, i, c, low);
            centroid_bytes_hold_the_channels(bytes, b, i, c, low);
        }
        assert(a[i] =~= b[i]);
    }
    assert(a =~= b);
}

/// Each centroid takes 32 bytes.
proof fn lemma_encoded_length(bytes: Seq<u8>, centroids: Seq<[u8; 4]>)
    requires
        encodes_centroids(bytes, centroids),
    ensures
        bytes.len() == 32 * centroids.len(),
{
}

/// The bytes that the centroid buffers take: four 64-bit channels for each centroid.
pub fn centroid_bytes(centroids: &Vec<[u8; 4]>) -> (bytes: Vec<u8>)
    ensures
        encodes_centroids(bytes@, centroids@),
        bytes@ == laid_out(
            u64_words(widened(centroids@)),
            8,
            endianness() == Endian::Little,
        ),
        bytes@.len() == 32 * centroids@.len(),
{
    let rows: Vec<[u64; 4]> = widen(centroids);
    let raw: &[u8] = cast_slice(&rows);
    let mut bytes: Vec<u8> = Vec::new();
    bytes.extend_from_slice(raw);
    assert(bytes@ =~= raw@);
    bytes
}

/// What one iteration of k-means runs: a pass over the picture, then one over the centroids,
/// both with the same bind group.
#[derive(Copy, Clone, PartialEq, Eq, Debug, Structural)]
pub struct Iteration {
    /// Which of the two k-means bind groups is used.
    pub group: usize,
    /// Workgroups of the assignment pass.
    pub assignment: Workgroups,
    /// Workgroups of the second pass.
    pub phase2: Workgroups,
}

/// What follows an iteration.
#[derive(Copy, Clone, PartialEq, Eq, Debug, Structural)]
pub enum Progress {
    /// One more iteration.
    Running,
    /// Nothing more to do after the iteration of this number.
    Converged { iteration: usize },
}

/// Whether the tracker says that the iteration changed nothing.
pub open spec fn tracker_is_clear(tracker: Seq<u8>) -> bool {
    big_endian(tracker) == 0
}

/// What is done after iteration `iteration` with `tracker` read back: the run ends on a clear
/// tracker, but only after an even iteration.
pub open spec fn progress_after(iteration: usize, tracker: Seq<u8>) -> Progress {
    if tracker_is_clear(tracker) && iteration % 2 == 0 {
        Progress::Converged { iteration }
    } else {
        Progress::Running
    }
}

/// Whether a run that reads back `trackers`, one after each iteration, is still running after
/// all of them.
pub open spec fn still_running(trackers: Seq<Seq<u8>>) -> bool
    decreases trackers.len(),
{
    trackers.len() == 0 || (still_running(trackers.drop_last()) && progress_after(
        (trackers.len() - 1) as usize,
        trackers.last(),
    ) == Progress::Running)
}

/// A run goes on as long as no even iteration has left the tracker clear.
pub proof fn run_ends_at_first_even_clear_tracker(trackers: Seq<Seq<u8>>)
    requires
        trackers.len() <= usize::MAX,
    ensures
        still_running(trackers) <==> forall|i: int|
            0 <= i < trackers.len() && i % 2 == 0 ==> !tracker_is_clear(#[trigger] trackers[i]),
    decreases trackers.len(),
{
    if trackers.len() > 0 {
        let rest = trackers.drop_last();
        let last = trackers.len() - 1;
        run_ends_at_first_even_clear_tracker(rest);
        assert forall|i: int| 0 <= i < last implies #[trigger] rest[i] == trackers[i] by {}
        if still_running(trackers) {
            assert forall|i: int| 0 <= i < trackers.len() && i % 2 == 0 implies !tracker_is_clear(
                #[trigger] trackers[i],
            ) by {
                if i < last {
                    assert(rest[i] == trackers[i]);
                }
            }
        }
        if forall|i: int|
            0 <= i < trackers.len() && i % 2 == 0 ==> !tracker_is_clear(#[trigger] trackers[i]) {
            assert forall|i: int| 0 <= i < rest.len() && i % 2 == 0 implies !tracker_is_clear(
                #[trigger] rest[i],
            ) by {
                assert(rest[i] == trackers[i]);
            }
            assert(trackers[last] == trackers.last());
        }
    }
}

/// A run without iterations is running, and one more iteration leaves a run running if and only
/// if it was running, and the iteration is odd or its tracker not clear.
pub proof fn one_more_iteration(trackers: Seq<Seq<u8>>, next: Seq<u8>)
    requires
        trackers.len() < usize::MAX,
    ensures
        still_running(Seq::empty()),
        still_running(trackers.push(next)) <==> (still_running(trackers) && (trackers.len() % 2
            == 1 || exists|b: int| 0 <= b < next.len() && next[b] != 0)),
{
    assert(trackers.push(next).drop_last() =~= trackers);
    big_endian_is_zero(next);
}

/// When a run ends, the centroid buffer at binding 2 of the last iteration is the one that the
/// composite pass reads.
pub proof fn run_ends_on_shown_centroids(iteration: usize, tracker: Seq<u8>)
    requires
        progress_after(iteration, tracker) != Progress::Running,
    ensures
        spec_kmeans_group(iteration as int % 2)[2] == spec_composite_group()[1],
{
}

/// The centroid buffer at binding 2 of an iteration is the one at binding 1 of the next.
pub proof fn iterations_hand_centroids_on(iteration: int)
    ensures
        spec_kmeans_group(iteration % 2)[2] == spec_kmeans_group((iteration + 1) % 2)[1],
{
}

/// What k-means works on.
pub struct KmeansState {
    input_image_buf: Image,
    k: u32,
    initialization_method: InitializationMethod,
}

impl KmeansState {
    /// The image to find a palette for.
    pub closed spec fn image(self) -> Image {
        self.input_image_buf
    }

    /// Number of centroids.
    pub closed spec fn spec_k(self) -> u32 {
        self.k
    }

    /// How the first centroids are chosen.
    pub closed spec fn method(self) -> InitializationMethod {
        self.initialization_method
    }

    /// Whether `bytes` encode centroids that can come out of the method for some draw.
    pub open spec fn is_start(self, bytes: Seq<u8>) -> bool {
        exists|centroids: Seq<[u8; 4]>|
            self.method().is_outcome(self.image(), self.spec_k(), centroids)
                && #[trigger] encodes_centroids(bytes, centroids)
    }

    /// Whether `bytes` encode centroids that the method gave with what the generator drew.
    pub open spec fn drew_start(self, bytes: Seq<u8>) -> bool {
        exists|centroids: Seq<[u8; 4]>|
            self.method().drew(self.image(), self.spec_k(), centroids)
                && #[trigger] encodes_centroids(bytes, centroids)
    }

    /// A state for `k` centroids.
    pub fn new(
        input_image_buf: Image,
        k: u32,
        initialization_method: InitializationMethod,
    ) -> (state: Self)
        ensures
            state.image() == input_image_buf,
            state.spec_k() == k,
            state.method() == initialization_method,
    {
        KmeansState { input_image_buf, k, initialization_method }
    }

    /// Number of centroids.
    pub fn k(&self) -> (k: u32)
        ensures
            k == self.spec_k(),
    {
        self.k
    }

    /// Zeros for the whole of the count buffer.
    pub fn zeros(&self) -> (zeros: Vec<u8>)
        requires
            8 * self.spec_k() <= usize::MAX,
        ensures
            zeros@.len() == spec_buffer_size(BufferId::Counts, self.spec_k()),
            zeros@.len() == 8 * self.spec_k(),
            forall|i: int| 0 <= i < zeros@.len() ==> #[trigger] zeros@[i] == 0,
    {
        vec![0u8; 8 * self.k as usize]
    }

    /// The bytes of the first centroids, which both centroid buffers take.
    pub fn start(&self) -> (bytes: Vec<u8>)
        requires
            self.method().applies(self.image(), self.spec_k()),
        ensures
            self.is_start(bytes@),
            self.drew_start(bytes@),
            self.spec_k() > 0 ==> bytes@.len() == spec_buffer_size(
                BufferId::FirstCentroids,
                self.spec_k(),
            ),
            self.spec_k() > 0 ==> bytes@.len() == 32 * self.spec_k(),
            exists|centroids: Seq<[u8; 4]>|
                {
                    &&& self.method().is_outcome(self.image(), self.spec_k(), centroids)
                    &&& self.method().drew(self.image(), self.spec_k(), centroids)
                    &&& bytes@ == laid_out(
                        u64_words(#[trigger] widened(centroids)),
                        8,
                        endianness() == Endian::Little,
                    )
                },
    {
        let centroids: Vec<[u8; 4]> = self.initialization_method.initialize(
            &self.input_image_buf,
            self.k,
        );
        centroid_bytes(&centroids)
    }

    /// The bytes of the first centroids, or `None` if the method cannot give them.
    pub fn try_start(&self) -> (bytes: Option<Vec<u8>>)
        ensures
            bytes is Some <==> self.method().applies(self.image(), self.spec_k()),
            bytes matches Some(bytes) ==> self.is_start(bytes@) && self.drew_start(bytes@),
            bytes is Some && self.spec_k() > 0 ==> bytes->0@.len() == 32 * self.spec_k(),
            bytes is Some && self.spec_k() > 0 ==> bytes->0@.len() == spec_buffer_size(
                BufferId::FirstCentroids,
                self.spec_k(),
            ),
    {
        if self.initialization_method.can_initialize(&self.input_image_buf, self.k) {
            Some(self.start())
        } else {
            None
        }
    }

    /// What iteration `i` runs.
    pub fn iteration(&self, i: usize) -> (iteration: Iteration)
        ensures
            iteration.group == i % 2,
            covers_picture(
                iteration.assignment,
                self.image().spec_width(),
                self.image().spec_height(),
            ),
            iteration.phase2 == (Workgroups { x: self.spec_k(), y: 1, z: 1 }),
            iteration.assignment == (Workgroups {
                x: ((image_size(self.image()).0 + 7) / 8) as u32,
                y: ((image_size(self.image()).1 + 7) / 8) as u32,
                z: 1,
            }),
            spec_shader_constant(PipelineId::Assignment, self.spec_k()) == Some(
                iteration.phase2.x,
            ),
            spec_shader_constant(PipelineId::Phase2, self.spec_k()) == Some(iteration.phase2.x),
            spec_buffer_size(BufferId::FirstCentroids, self.spec_k()) == 32 * iteration.phase2.x,
            spec_buffer_size(BufferId::SecondCentroids, self.spec_k()) == 32 * iteration.phase2.x,
            spec_buffer_size(BufferId::Counts, self.spec_k()) == 8 * iteration.phase2.x,
    {
        let (width, height) = self.input_image_buf.dimensions();
        Iteration {
            group: i % 2,
            assignment: picture_workgroups(width, height),
            phase2: Workgroups { x: self.k, y: 1, z: 1 },
        }
    }

    /// Whether the bytes of the tracker say that an iteration changed nothing.
    pub fn is_converged(tracker: &[u8]) -> (converged: bool)
        requires
            tracker@.len() == 4,
        ensures
            converged == tracker_is_clear(tracker@),
            converged <==> forall|i: int| 0 <= i < 4 ==> tracker@[i] == 0,
    {
        proof {
            big_endian_is_zero(tracker@);
        }
        u32_from_be_bytes(tracker) == 0
    }

    /// What to do after iteration `i`, with `tracker` read back.
    pub fn progress(i: usize, tracker: &[u8]) -> (progress: Progress)
        requires
            tracker@.len() == 4,
        ensures
            progress == progress_after(i, tracker@),
            progress == Progress::Running || progress == (Progress::Converged { iteration: i }),
            progress != Progress::Running <==> (i % 2 == 0 && forall|b: int|
                0 <= b < 4 ==> tracker@[b] == 0),
    {
        if Self::is_converged(tracker) && i % 2 == 0 {
            Progress::Converged { iteration: i }
        } else {
            Progress::Running
        }
    }
}

/// What one frame needs.
#[derive(Copy, Clone, PartialEq, Eq, Debug, Structural)]
pub struct Frame {
    /// Whether k-means has to run first.
    pub run_k_means: bool,
    /// Workgroups of the composite pass.
    pub composite: Workgroups,
    /// Width of what is copied to the surface.
    pub width: u32,
    /// Height of what is copied to the surface.
    pub height: u32,
}

/// What is kept from frame to frame.
pub struct Renderer {
    k_means_state: KmeansState,
    mouse_state: MouseState,
    k_means_done: bool,
}

impl Renderer {
    /// What k-means works on.
    pub closed spec fn k_means(self) -> KmeansState {
        self.k_means_state
    }

    /// State of the mouse.
    pub closed spec fn mouse(self) -> MouseState {
        self.mouse_state
    }

    /// Whether k-means has been run.
    pub closed spec fn done(self) -> bool {
        self.k_means_done
    }

    /// A renderer for a palette of `k` colours.
    pub fn new(image: Image, k: u32) -> (renderer: Self)
        ensures
            renderer.k_means().image() == image,
            renderer.k_means().spec_k() == k,
            renderer.k_means().method() == InitializationMethod::Kmeanspp,
            renderer.mouse() == (MouseState { mouse_clicked: 0, mouse_x: 0, mouse_y: 0 }),
            !renderer.done(),
    {
        Renderer {
            k_means_state: KmeansState::new(image, k, InitializationMethod::Kmeanspp),
            mouse_state: MouseState::new(),
            k_means_done: false,
        }
    }

    /// What k-means works on.
    pub fn k_means_state(&self) -> (state: &KmeansState)
        ensures
            *state == self.k_means(),
    {
        &self.k_means_state
    }

    /// Takes note of a new mouse position, given as the bits of its two coordinates, and
    /// returns what the mouse buffer takes.
    pub fn update_mouse_position(&mut self, x: u32, y: u32) -> (upload: Vec<u8>)
        ensures
            final(self).mouse() == (MouseState { mouse_x: x, mouse_y: y, ..old(self).mouse() }),
            final(self).k_means() == old(self).k_means(),
            final(self).done() == old(self).done(),
            in_memory(upload@, final(self).mouse().words(), 4),
    {
        self.mouse_state.set_mouse_pos(x, y);
        self.upload_mouse_state()
    }

    /// Takes note of the button, and returns what the mouse buffer takes.
    pub fn mouse_clicked(&mut self, down: bool) -> (upload: Vec<u8>)
        ensures
            final(self).mouse() == (MouseState {
                mouse_clicked: if down { 1 } else { 0 },
                ..old(self).mouse()
            }),
            final(self).k_means() == old(self).k_means(),
            final(self).done() == old(self).done(),
            in_memory(upload@, final(self).mouse().words(), 4),
    {
        self.mouse_state.set_mouse_state(down);
        self.upload_mouse_state()
    }

    /// What the mouse buffer takes.
    pub fn upload_mouse_state(&self) -> (upload: Vec<u8>)
        ensures
            in_memory(upload@, self.mouse().words(), 4),
            upload@.len() == spec_buffer_size(BufferId::Mouse, self.k_means().spec_k()),
    {
        self.mouse_state.to_bytes()
    }

    /// What the next frame needs. k-means runs before the first.
    pub fn render(&mut self) -> (frame: Frame)
        ensures
            frame.run_k_means == !old(self).done(),
            covers_picture(
                frame.composite,
                old(self).k_means().image().spec_width(),
                old(self).k_means().image().spec_height(),
            ),
            frame.width == old(self).k_means().image().spec_width(),
            frame.height == old(self).k_means().image().spec_height(),
            frame.composite == (Workgroups {
                x: ((image_size(old(self).k_means().image()).0 + 7) / 8) as u32,
                y: ((image_size(old(self).k_means().image()).1 + 7) / 8) as u32,
                z: 1,
            }),
            (frame.width, frame.height) == image_size(old(self).k_means().image()),
            final(self).done(),
            final(self).k_means() == old(self).k_means(),
            final(self).mouse() == old(self).mouse(),
    {
        let run_k_means = !self.k_means_done;
        self.k_means_done = true;
        let (width, height) = self.k_means_state.input_image_buf.dimensions();
        Frame { run_k_means, composite: picture_workgroups(width, height), width, height }
    }
}

} // verus!
