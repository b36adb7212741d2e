//! The pixel buffer: a grid of colours stored row by row, three samples to a
//! pixel. The imaging crate holds it; what this library relies on of that
//! crate is stated here and nowhere proved.

use crate::color::RGB;
use crate::forms::Dimension;
use vstd::prelude::*;

verus! {

/// A grid of pixels, kept in an `image::RgbImage`. Nothing of the grid is
/// open to proof: what it holds is known only by `samples`, `columns` and
/// `rows`, and only as far as the functions below state.
#[verifier::external_body]
pub struct PixelBuffer {
    grid: image::RgbImage,
}

/// `image::ImageError`, the imaging crate's error: carried, never looked into.
#[verifier::external_type_specification]
#[verifier::external_body]
pub struct ExImageError(image::ImageError);

/// The samples that a buffer stores, in the order in which it stores them:
/// row after row, pixel after pixel, red before green before blue.
pub uninterp spec fn samples(buffer: PixelBuffer) -> Seq<u8>;

/// The number of pixels in each row of a buffer.
pub uninterp spec fn columns(buffer: PixelBuffer) -> nat;

/// The number of rows of a buffer.
pub uninterp spec fn rows(buffer: PixelBuffer) -> nat;

/// The PNG file that the imaging crate writes for a picture of `width` by
/// `height` pixels with the given samples; `None` where it refuses.
pub uninterp spec fn png_encoding(samples: Seq<u8>, width: u32, height: u32) -> Option<Seq<u8>>;

/// The channel of `color` that stands at place `k` of a pixel's three samples.
pub open spec fn channel(color: RGB, k: int) -> u8 {
    if k == 0 {
        color.red
    } else if k == 1 {
        color.green
    } else {
        color.blue
    }
}

/// Where the first sample of the pixel in column `x` of row `y` stands.
pub open spec fn sample_index(columns: nat, x: int, y: int) -> int {
    3 * (y * columns + x)
}

/// The samples of a grid of `width` by `height` pixels that all have one
/// colour.
pub open spec fn uniform(width: nat, height: nat, color: RGB) -> Seq<u8> {
    Seq::new(3 * width * height, |i: int| channel(color, i % 3))
}

/// `samples` with the three samples from `at` on replaced by `color`.
pub open spec fn with_pixel(samples: Seq<u8>, at: int, color: RGB) -> Seq<u8> {
    samples.update(at, color.red).update(at + 1, color.green).update(at + 2, color.blue)
}

/// The most samples that a buffer may be asked to hold.
pub open spec fn most_samples() -> int {
    isize::MAX as int
}

/// `ImageBuffer::from_pixel`: a buffer of `width` by `height` pixels, each of
/// them `color`. The crate stores exactly three samples for each pixel. It
/// counts them as three times the width, and that times the height, and
/// panics where either product does not fit a `usize`, whatever the other
/// extent is, or where the vector cannot be that long. `requires` rules out
/// all three.
#[verifier::external_body]
fn buffer_from_pixel(width: u32, height: u32, color: RGB) -> (buffer: PixelBuffer)
    requires
        3 * width <= usize::MAX,
        3 * width * height <= most_samples(),
    ensures
        columns(buffer) == width,
        rows(buffer) == height,
        samples(buffer) == uniform(width as nat, height as nat, color),
{
    let pixel = image::Rgb([color.red, color.green, color.blue]);
    PixelBuffer { grid: image::ImageBuffer::from_pixel(width, height, pixel) }
}

/// `ImageBuffer::width`: the number of pixels in a row.
#[verifier::external_body]
fn buffer_width(buffer: &PixelBuffer) -> (width: u32)
    ensures
        width == columns(*buffer),
{
    buffer.grid.width()
}

/// `ImageBuffer::height`: the number of rows.
#[verifier::external_body]
fn buffer_height(buffer: &PixelBuffer) -> (height: u32)
    ensures
        height == rows(*buffer),
{
    buffer.grid.height()
}

/// `ImageBuffer::put_pixel`: overwrites the three samples of the pixel in
/// column `x` of row `y`, which the crate finds at three times `y * width + x`,
/// and nothing else. It panics for a pixel outside the grid, which `requires`
/// rules out; for one inside, the three samples exist.
#[verifier::external_body]
pub(crate) fn buffer_put_pixel(buffer: &mut PixelBuffer, x: u32, y: u32, color: RGB)
    requires
        x < columns(*old(buffer)),
        y < rows(*old(buffer)),
    ensures
        columns(*final(buffer)) == columns(*old(buffer)),
        rows(*final(buffer)) == rows(*old(buffer)),
        sample_index(columns(*old(buffer)), x as int, y as int) + 3 <= samples(*old(buffer)).len(),
        samples(*final(buffer)) == with_pixel(
            samples(*old(buffer)),
            sample_index(columns(*old(buffer)), x as int, y as int),
            color,
        ),
{
    buffer.grid.put_pixel(x, y, image::Rgb([color.red, color.green, color.blue]));
}

/// `ImageBuffer::into_raw`: the stored samples, as they stand.
#[verifier::external_body]
fn buffer_into_raw(buffer: PixelBuffer) -> (raw: Vec<u8>)
    ensures
        raw@ == samples(buffer),
{
    buffer.grid.into_raw()
}

/// `PngEncoder::new` and `ImageEncoder::write_image` for eight-bit RGB, into a
/// vector: the bytes of the PNG file, or the crate's error. The outcome
/// depends on the samples and the two extents alone. The crate panics where
/// the samples are not three for each pixel, which `requires` rules out.
#[verifier::external_body]
pub(crate) fn encode_png(samples: &Vec<u8>, width: u32, height: u32) -> (encoded: Result<
    Vec<u8>,
    image::ImageError,
>)
    requires
        samples@.len() == 3 * width * height,
    ensures
        match encoded {
            Ok(bytes) => png_encoding(samples@, width, height) == Some(bytes@),
            Err(_) => png_encoding(samples@, width, height) is None,
        },
{
    let mut bytes: Vec<u8> = Vec::new();
    let encoder = image::codecs::png::PngEncoder::new(&mut bytes);
    image::ImageEncoder::write_image(encoder, samples, width, height, image::ExtendedColorType::Rgb8)?;
    Ok(bytes)
}

impl PixelBuffer {
    /// A grid of `width` by `height` pixels, all of them `color`.
    pub fn new(width: Dimension, height: Dimension, color: RGB) -> (buffer: PixelBuffer)
        ensures
            columns(buffer) == width@,
            rows(buffer) == height@,
            samples(buffer) == uniform(width@, height@, color),
    {
        let w: u32 = u32::from(width);
        let h: u32 = u32::from(height);
        assert(3 * w * h <= 0x7fff_ffff) by (nonlinear_arith)
            requires
                w < 10_000,
                h < 10_000,
        ;
        buffer_from_pixel(w, h, color)
    }

    /// The number of pixels in each row.
    pub fn width(&self) -> (width: u32)
        ensures
            width == columns(*self),
    {
        buffer_width(self)
    }

    /// The number of rows.
    pub fn height(&self) -> (height: u32)
        ensures
            height == rows(*self),
    {
        buffer_height(self)
    }

    /// Gives up the grid for its samples.
    pub fn into_raw(self) -> (raw: Vec<u8>)
        ensures
            raw@ == samples(self),
    {
        buffer_into_raw(self)
    }
}

} // verus!
