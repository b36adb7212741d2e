//! From a request to a picture: a grid in the background colour, the glyphs
//! of the label blended into it, and the PNG file in a stream.

use crate::canvas::{
    buffer_put_pixel, columns, encode_png, png_encoding, rows, sample_index, samples, uniform,
    with_pixel, PixelBuffer,
};
use crate::color::{blended, contrast_of, Amount, Contrast, RGB};
use crate::forms::{Dimension, ImageForm};
use crate::response::{Image, Stream};
use crate::text::decimal_text;
use vstd::prelude::*;
use vstd::string::StringExecFns;

verus! {

/// A place on the grid, or off it.
#[derive(Debug, Clone, Copy, PartialEq, Eq, Structural)]
pub struct Point {
    pub x: i32,
    pub y: i32,
}

/// One pixel that a glyph covers: where it lies inside the glyph's bounding
/// box, and how much of it the glyph covers.
#[derive(Debug, Clone, Copy)]
pub struct Coverage {
    pub x: u32,
    pub y: u32,
    pub amount: Amount,
}

/// A glyph laid out and rasterised: where its bounding box begins on the
/// grid, and the pixels that it covers. A glyph without a bounding box draws
/// nothing.
#[derive(Debug)]
pub struct Glyph {
    pub origin: Option<Point>,
    pub coverage: Vec<Coverage>,
}

/// Why no picture came out.
#[derive(Debug, Clone, Copy, PartialEq, Eq, Structural)]
pub enum RenderError {
    /// The encoder refused the picture.
    Encoding,
}

/// Whether the pixel in column `x` of row `y` lies on a grid of `columns` by
/// `rows` pixels.
pub open spec fn on_grid(columns: nat, rows: nat, x: int, y: int) -> bool {
    0 <= x < columns && 0 <= y < rows
}

/// The samples after one covered pixel is drawn: its colour stands at its
/// place if that lies on the grid, and else nothing has changed.
pub open spec fn stamped(
    samples: Seq<u8>,
    columns: nat,
    rows: nat,
    origin: Point,
    pixel: Coverage,
    background: RGB,
    contrast: Contrast,
) -> Seq<u8> {
    let x = origin.x + pixel.x;
    let y = origin.y + pixel.y;
    if on_grid(columns, rows, x, y) {
        with_pixel(
            samples,
            sample_index(columns, x, y),
            blended(background, contrast, pixel.amount),
        )
    } else {
        samples
    }
}

/// The samples after the covered pixels of one glyph are drawn in order, a
/// later one over an earlier one.
pub open spec fn traced(
    samples: Seq<u8>,
    columns: nat,
    rows: nat,
    origin: Point,
    coverage: Seq<Coverage>,
    background: RGB,
    contrast: Contrast,
) -> Seq<u8>
    decreases coverage.len(),
{
    if coverage.len() == 0 {
        samples
    } else {
        stamped(
            traced(samples, columns, rows, origin, coverage.drop_last(), background, contrast),
            columns,
            rows,
            origin,
            coverage.last(),
            background,
            contrast,
        )
    }
}

/// The samples after one glyph is drawn.
pub open spec fn drawn(
    samples: Seq<u8>,
    columns: nat,
    rows: nat,
    glyph: Glyph,
    background: RGB,
    contrast: Contrast,
) -> Seq<u8> {
    match glyph.origin {
        Some(origin) => traced(
            samples,
            columns,
            rows,
            origin,
            glyph.coverage@,
            background,
            contrast,
        ),
        None => samples,
    }
}

/// The samples after the glyphs are drawn in order.
pub open spec fn composited(
    samples: Seq<u8>,
    columns: nat,
    rows: nat,
    glyphs: Seq<Glyph>,
    background: RGB,
    contrast: Contrast,
) -> Seq<u8>
    decreases glyphs.len(),
{
    if glyphs.len() == 0 {
        samples
    } else {
        drawn(
            composited(samples, columns, rows, glyphs.drop_last(), background, contrast),
            columns,
            rows,
            glyphs.last(),
            background,
            contrast,
        )
    }
}

/// Draws one covered pixel of a glyph whose bounding box begins at `origin`.
fn stamp(
    buffer: &mut PixelBuffer,
    origin: Point,
    pixel: Coverage,
    background: RGB,
    contrast: Contrast,
)
    ensures
        columns(*final(buffer)) == columns(*old(buffer)),
        rows(*final(buffer)) == rows(*old(buffer)),
        samples(*final(buffer)) == stamped(
            samples(*old(buffer)),
            columns(*old(buffer)),
            rows(*old(buffer)),
            origin,
            pixel,
            background,
            contrast,
        ),
{
    let x: i64 = origin.x as i64 + pixel.x as i64;
    let y: i64 = origin.y as i64 + pixel.y as i64;
    if 0 <= x && x < buffer.width() as i64 && 0 <= y && y < buffer.height() as i64 {
        let color: RGB = background.blend(contrast, pixel.amount);
        buffer_put_pixel(buffer, x as u32, y as u32, color);
    }
}

/// Blends the covered pixels of `glyphs` into `buffer`, glyph after glyph and
/// pixel after pixel. A pixel on the grid takes the blend of `background`
/// for its coverage, whatever stood there; one off the grid is passed over.
pub fn composite(
    buffer: &mut PixelBuffer,
    background: RGB,
    contrast: Contrast,
    glyphs: &Vec<Glyph>,
)
    ensures
        columns(*final(buffer)) == columns(*old(buffer)),
        rows(*final(buffer)) == rows(*old(buffer)),
        samples(*final(buffer)) == composited(
            samples(*old(buffer)),
            columns(*old(buffer)),
            rows(*old(buffer)),
            glyphs@,
            background,
            contrast,
        ),
{
    let ghost start = samples(*buffer);
    let ghost width = columns(*buffer);
    let ghost height = rows(*buffer);
    let mut g: usize = 0;
    while g < glyphs.len()
        invariant
            g <= glyphs.len(),
            columns(*buffer) == width,
            rows(*buffer) == height,
            samples(*buffer) == composited(
                start,
                width,
                height,
                glyphs@.take(g as int),
                background,
                contrast,
            ),
        decreases glyphs.len() - g,
    {
        let glyph = &glyphs[g];
        let ghost before = samples(*buffer);
        assert(glyphs@.take(g + 1).drop_last() == glyphs@.take(g as int));
        assert(glyphs@.take(g + 1).last() == *glyph);
        if let Some(origin) = glyph.origin {
            let mut p: usize = 0;
            while p < glyph.coverage.len()
                invariant
                    p <= glyph.coverage.len(),
                    columns(*buffer) == width,
                    rows(*buffer) == height,
                    samples(*buffer) == traced(
                        before,
                        width,
                        height,
                        origin,
                        glyph.coverage@.take(p as int),
                        background,
                        contrast,
                    ),
                decreases glyph.coverage.len() - p,
            {
                assert(glyph.coverage@.take(p + 1).drop_last() == glyph.coverage@.take(p as int));
                assert(glyph.coverage@.take(p + 1).last() == glyph.coverage@[p as int]);
                stamp(buffer, origin, glyph.coverage[p], background, contrast);
                p = p + 1;
            }
            assert(glyph.coverage@.take(p as int) == glyph.coverage@);
        }
        g = g + 1;
    }
    assert(glyphs@.take(g as int) == glyphs@);
}

/// The colour behind the label: the one asked for, and black where none was.
pub open spec fn background_of(image: ImageForm) -> RGB {
    match image.color {
        Some(color) => color,
        None => RGB { red: 0, green: 0, blue: 0 },
    }
}

/// The samples of the finished picture: the background colour everywhere,
/// and the glyphs drawn over it for that colour's contrast.
pub open spec fn painted(image: ImageForm, glyphs: Seq<Glyph>) -> Seq<u8> {
    composited(
        uniform(image.width@, image.height@, background_of(image)),
        image.width@,
        image.height@,
        glyphs,
        background_of(image),
        contrast_of(background_of(image)),
    )
}

/// The text of the label: the width, a multiplication sign, the height.
pub open spec fn label_text(width: Dimension, height: Dimension) -> Seq<char> {
    decimal_text(width@) + "\u{d7}"@ + decimal_text(height@)
}

/// What a request gets for an encoder's outcome: the file in a stream whose
/// cursor is at the start, or the fact that encoding failed.
pub open spec fn response_for(encoding: Option<Seq<u8>>, response: Result<Image, RenderError>) -> bool {
    match encoding {
        Some(bytes) => response matches Ok(image) && image@ == (Stream { bytes, cursor: 0 }),
        None => response == Err::<Image, RenderError>(RenderError::Encoding),
    }
}

/// Drawing pixels changes none of a full grid's size.
pub proof fn lemma_composited_len(
    samples: Seq<u8>,
    columns: nat,
    rows: nat,
    glyphs: Seq<Glyph>,
    background: RGB,
    contrast: Contrast,
)
    requires
        samples.len() == 3 * columns * rows,
    ensures
        composited(samples, columns, rows, glyphs, background, contrast).len() == samples.len(),
    decreases glyphs.len(),
{
    if glyphs.len() > 0 {
        lemma_composited_len(samples, columns, rows, glyphs.drop_last(), background, contrast);
        let before = composited(samples, columns, rows, glyphs.drop_last(), background, contrast);
        if let Some(origin) = glyphs.last().origin {
            lemma_traced_len(
                before,
                columns,
                rows,
                origin,
                glyphs.last().coverage@,
                background,
                contrast,
            );
        }
    }
}

/// Drawing one glyph's pixels changes none of a full grid's size.
pub proof fn lemma_traced_len(
    samples: Seq<u8>,
    columns: nat,
    rows: nat,
    origin: Point,
    coverage: Seq<Coverage>,
    background: RGB,
    contrast: Contrast,
)
    requires
        samples.len() == 3 * columns * rows,
    ensures
        traced(samples, columns, rows, origin, coverage, background, contrast).len()
            == samples.len(),
    decreases coverage.len(),
{
    if coverage.len() > 0 {
        lemma_traced_len(
            samples,
            columns,
            rows,
            origin,
            coverage.drop_last(),
            background,
            contrast,
        );
        let x = origin.x + coverage.last().x;
        let y = origin.y + coverage.last().y;
        if on_grid(columns, rows, x, y) {
            lemma_pixel_fits(columns, rows, x, y);
        }
    }
}

/// The three samples of a pixel on the grid lie inside a full grid.
pub proof fn lemma_pixel_fits(columns: nat, rows: nat, x: int, y: int)
    requires
        on_grid(columns, rows, x, y),
    ensures
        0 <= sample_index(columns, x, y),
        sample_index(columns, x, y) + 3 <= 3 * columns * rows,
{
    assert(y * columns + x + 1 <= rows * columns && 0 <= y * columns) by (nonlinear_arith)
        requires
            0 <= x < columns,
            0 <= y < rows,
    ;
    assert(3 * columns * rows == 3 * (rows * columns)) by (nonlinear_arith);
}

/// The text that the picture shows: its two extents, as in `640×480`.
pub fn label(width: Dimension, height: Dimension) -> (text: String)
    ensures
        text@ == label_text(width, height),
{
    let text: String = width.to_string();
    let text: String = text.concat("\u{d7}");
    text.concat(height.to_string().as_str())
}

/// Puts an encoded picture into a stream, ready to be read from its start.
pub fn into_response(encoded: Result<Vec<u8>, image::ImageError>) -> (response: Result<
    Image,
    RenderError,
>)
    ensures
        response_for(
            match encoded {
                Ok(bytes) => Some(bytes@),
                Err(_) => None,
            },
            response,
        ),
{
    match encoded {
        Ok(bytes) => Ok(Image::from_bytes(bytes.as_slice())),
        Err(_) => Err(RenderError::Encoding),
    }
}

/// Makes the picture that `image` asks for: the background in its colour
/// (black where it names none), the covered pixels of `glyphs` blended in by
/// the background's contrast, and the whole as a PNG file in a stream. The
/// encoder alone decides whether there is a file.
pub fn render(image: &ImageForm, glyphs: &Vec<Glyph>) -> (response: Result<Image, RenderError>)
    ensures
        response_for(
            png_encoding(painted(*image, glyphs@), image.width@ as u32, image.height@ as u32),
            response,
        ),
{
    let color: RGB = match image.color {
        Some(color) => color,
        None => RGB::black(),
    };
    let contrast: Contrast = color.contrast();
    let mut buffer: PixelBuffer = PixelBuffer::new(image.width, image.height, color);
    composite(&mut buffer, color, contrast, glyphs);
    proof {
        lemma_composited_len(
            uniform(image.width@, image.height@, color),
            image.width@,
            image.height@,
            glyphs@,
            color,
            contrast,
        );
    }
    let raw: Vec<u8> = buffer.into_raw();
    into_response(encode_png(&raw, u32::from(image.width), u32::from(image.height)))
}

/// The colour of the pixel in column `x` of row `y`, read from the samples of
/// a grid with `columns` pixels in a row.
pub open spec fn pixel_at(samples: Seq<u8>, columns: nat, x: int, y: int) -> RGB {
    RGB {
        red: samples[sample_index(columns, x, y)],
        green: samples[sample_index(columns, x, y) + 1],
        blue: samples[sample_index(columns, x, y) + 2],
    }
}

/// A covered pixel on the grid takes the blend of the background for its
/// coverage, whatever stood there. Covered wholly on a `Dark` background it
/// is white; not covered at all it is the background.
pub proof fn lemma_covered_pixel(
    samples: Seq<u8>,
    columns: nat,
    rows: nat,
    origin: Point,
    pixel: Coverage,
    background: RGB,
    contrast: Contrast,
)
    requires
        samples.len() == 3 * columns * rows,
        on_grid(columns, rows, origin.x + pixel.x, origin.y + pixel.y),
        pixel.amount.is_fraction(),
    ensures
        pixel_at(
            stamped(samples, columns, rows, origin, pixel, background, contrast),
            columns,
            origin.x + pixel.x,
            origin.y + pixel.y,
        ) == blended(background, contrast, pixel.amount),
        contrast == Contrast::Dark && pixel.amount.num() == pixel.amount.den() ==> blended(
            background,
            contrast,
            pixel.amount,
        ) == (RGB { red: 255, green: 255, blue: 255 }),
        pixel.amount.num() == 0 ==> blended(background, contrast, pixel.amount) == background,
{
    lemma_pixel_fits(columns, rows, origin.x + pixel.x, origin.y + pixel.y);
    crate::color::lemma_lighten_saturates(background, pixel.amount);
    if pixel.amount.num() == 0 {
        crate::color::lemma_blend_by_nothing(background, pixel.amount);
    }
}

/// A covered pixel changes no sample but its own three: every other pixel
/// of the grid is what it was.
pub proof fn lemma_other_pixels_stay(
    samples: Seq<u8>,
    columns: nat,
    rows: nat,
    origin: Point,
    pixel: Coverage,
    background: RGB,
    contrast: Contrast,
    i: int,
)
    requires
        samples.len() == 3 * columns * rows,
        0 <= i < samples.len(),
        !(sample_index(columns, origin.x + pixel.x, origin.y + pixel.y) <= i < sample_index(
            columns,
            origin.x + pixel.x,
            origin.y + pixel.y,
        ) + 3),
    ensures
        stamped(samples, columns, rows, origin, pixel, background, contrast)[i] == samples[i],
{
    if on_grid(columns, rows, origin.x + pixel.x, origin.y + pixel.y) {
        lemma_pixel_fits(columns, rows, origin.x + pixel.x, origin.y + pixel.y);
    }
}

/// A covered pixel that falls off the grid changes nothing.
pub proof fn lemma_clipped_pixel(
    samples: Seq<u8>,
    columns: nat,
    rows: nat,
    origin: Point,
    pixel: Coverage,
    background: RGB,
    contrast: Contrast,
)
    requires
        !on_grid(columns, rows, origin.x + pixel.x, origin.y + pixel.y),
    ensures
        stamped(samples, columns, rows, origin, pixel, background, contrast) == samples,
{
}

/// Whether every covered pixel of `glyph` falls off a grid of `columns` by
/// `rows` pixels.
pub open spec fn off_grid(columns: nat, rows: nat, glyph: Glyph) -> bool {
    glyph.origin matches Some(origin) ==> forall|p: int|
        0 <= p < glyph.coverage@.len() ==> !on_grid(
            columns,
            rows,
            origin.x + (#[trigger] glyph.coverage@[p]).x,
            origin.y + glyph.coverage@[p].y,
        )
}

/// Glyphs whose covered pixels all fall off the grid leave the buffer as it
/// was.
pub proof fn lemma_clipped_glyphs(
    samples: Seq<u8>,
    columns: nat,
    rows: nat,
    glyphs: Seq<Glyph>,
    background: RGB,
    contrast: Contrast,
)
    requires
        forall|g: int| 0 <= g < glyphs.len() ==> off_grid(columns, rows, #[trigger] glyphs[g]),
    ensures
        composited(samples, columns, rows, glyphs, background, contrast) == samples,
    decreases glyphs.len(),
{
    if glyphs.len() > 0 {
        let front = glyphs.drop_last();
        assert forall|g: int| 0 <= g < front.len() implies off_grid(
            columns,
            rows,
            #[trigger] front[g],
        ) by {
            assert(front[g] == glyphs[g]);
        }
        lemma_clipped_glyphs(samples, columns, rows, front, background, contrast);
        assert(off_grid(columns, rows, glyphs[glyphs.len() - 1]));
        if let Some(origin) = glyphs.last().origin {
            lemma_clipped_trace(
                samples,
                columns,
                rows,
                origin,
                glyphs.last().coverage@,
                background,
                contrast,
            );
        }
    }
}

/// Covered pixels that all fall off the grid leave the buffer as it was.
pub proof fn lemma_clipped_trace(
    samples: Seq<u8>,
    columns: nat,
    rows: nat,
    origin: Point,
    coverage: Seq<Coverage>,
    background: RGB,
    contrast: Contrast,
)
    requires
        forall|p: int|
            0 <= p < coverage.len() ==> !on_grid(
                columns,
                rows,
                origin.x + (#[trigger] coverage[p]).x,
                origin.y + coverage[p].y,
            ),
    ensures
        traced(samples, columns, rows, origin, coverage, background, contrast) == samples,
    decreases coverage.len(),
{
    if coverage.len() > 0 {
        let front = coverage.drop_last();
        assert forall|p: int| 0 <= p < front.len() implies !on_grid(
            columns,
            rows,
            origin.x + (#[trigger] front[p]).x,
            origin.y + front[p].y,
        ) by {
            assert(front[p] == coverage[p]);
        }
        lemma_clipped_trace(samples, columns, rows, origin, front, background, contrast);
        let last = coverage[coverage.len() - 1];
        assert(!on_grid(columns, rows, origin.x + last.x, origin.y + last.y));
    }
}

} // verus!
