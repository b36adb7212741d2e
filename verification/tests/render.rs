use placeholder::canvas::PixelBuffer;
use placeholder::color::{Amount, Contrast, RGB};
use placeholder::forms::{Dimension, ImageForm};
use placeholder::render::{composite, into_response, label, render, Coverage, Glyph, Point, RenderError};

fn dimension(text: &str) -> Dimension {
    Dimension::from_form_value(text).unwrap()
}

fn amount(numerator: u32, denominator: u32) -> Amount {
    Amount::new(numerator, denominator).unwrap()
}

fn covered(x: u32, y: u32, numerator: u32, denominator: u32) -> Coverage {
    Coverage { x, y, amount: amount(numerator, denominator) }
}

fn glyph_at(x: i32, y: i32, coverage: Vec<Coverage>) -> Glyph {
    Glyph { origin: Some(Point { x, y }), coverage }
}

fn pixel(raw: &[u8], columns: usize, x: usize, y: usize) -> RGB {
    let at: usize = 3 * (y * columns + x);
    RGB { red: raw[at], green: raw[at + 1], blue: raw[at + 2] }
}

const GREY: RGB = RGB { red: 200, green: 100, blue: 50 };

#[test]
fn new_buffer_is_one_colour() {
    let buffer = PixelBuffer::new(dimension("3"), dimension("2"), GREY);
    assert_eq!(buffer.width(), 3);
    assert_eq!(buffer.height(), 2);
    let raw = buffer.into_raw();
    assert_eq!(raw.len(), 18);
    for y in 0..2 {
        for x in 0..3 {
            assert_eq!(pixel(&raw, 3, x, y), GREY);
        }
    }
    assert_eq!(&raw[..6], &[200, 100, 50, 200, 100, 50]);
}

#[test]
fn empty_buffer_holds_nothing() {
    let buffer = PixelBuffer::new(dimension("0"), dimension("5"), GREY);
    assert_eq!(buffer.width(), 0);
    assert_eq!(buffer.height(), 5);
    assert!(buffer.into_raw().is_empty());
}

#[test]
fn full_coverage_on_dark_is_fully_lightened() {
    let mut buffer = PixelBuffer::new(dimension("4"), dimension("3"), GREY);
    let glyphs = vec![glyph_at(1, 1, vec![covered(1, 0, 1, 1)])];
    composite(&mut buffer, GREY, Contrast::Dark, &glyphs);
    let raw = buffer.into_raw();
    for y in 0..3 {
        for x in 0..4 {
            let expected = if (x, y) == (2, 1) { GREY.lighten(amount(1, 1)) } else { GREY };
            assert_eq!(pixel(&raw, 4, x, y), expected);
        }
    }
    assert_eq!(pixel(&raw, 4, 2, 1), RGB { red: 255, green: 255, blue: 255 });
}

#[test]
fn no_coverage_is_the_background() {
    for contrast in [Contrast::Dark, Contrast::Light] {
        let mut buffer = PixelBuffer::new(dimension("4"), dimension("3"), GREY);
        let glyphs = vec![glyph_at(0, 0, vec![covered(2, 2, 0, 1)])];
        composite(&mut buffer, GREY, contrast, &glyphs);
        let raw = buffer.into_raw();
        assert_eq!(raw, PixelBuffer::new(dimension("4"), dimension("3"), GREY).into_raw());
    }
}

#[test]
fn coverage_on_light_darkens() {
    let mut buffer = PixelBuffer::new(dimension("2"), dimension("2"), GREY);
    let glyphs = vec![glyph_at(0, 0, vec![covered(1, 1, 1, 2), covered(0, 1, 1, 1)])];
    composite(&mut buffer, GREY, Contrast::Light, &glyphs);
    let raw = buffer.into_raw();
    assert_eq!(
        raw,
        vec![200, 100, 50, 200, 100, 50, 0, 0, 0, 100, 50, 25]
    );
}

#[test]
fn pixels_off_the_grid_change_nothing() {
    let untouched = PixelBuffer::new(dimension("4"), dimension("3"), GREY).into_raw();
    let outside = vec![
        // Left of the grid and above it.
        glyph_at(-1, 0, vec![covered(0, 0, 1, 1)]),
        glyph_at(0, -1, vec![covered(0, 0, 1, 1)]),
        glyph_at(-5, -5, vec![covered(4, 4, 1, 1), covered(5, 4, 1, 1), covered(4, 5, 1, 1)]),
        // On the boundary and beyond it.
        glyph_at(0, 0, vec![covered(4, 0, 1, 1), covered(0, 3, 1, 1), covered(4, 3, 1, 1)]),
        glyph_at(3, 2, vec![covered(1, 0, 1, 1), covered(0, 1, 1, 1)]),
        glyph_at(i32::MAX, i32::MAX, vec![covered(u32::MAX, u32::MAX, 1, 1)]),
        glyph_at(i32::MIN, i32::MIN, vec![covered(0, 0, 1, 1), covered(u32::MAX, 0, 1, 1)]),
        // Would land on the grid if coordinates wrapped round at 32 bits.
        glyph_at(1, 1, vec![covered(u32::MAX, u32::MAX, 1, 1)]),
    ];
    let mut buffer = PixelBuffer::new(dimension("4"), dimension("3"), GREY);
    composite(&mut buffer, GREY, Contrast::Dark, &outside);
    assert_eq!(buffer.width(), 4);
    assert_eq!(buffer.height(), 3);
    assert_eq!(buffer.into_raw(), untouched);
}

#[test]
fn negative_origin_reaches_the_grid() {
    let mut buffer = PixelBuffer::new(dimension("2"), dimension("2"), GREY);
    let glyphs = vec![glyph_at(-3, -2, vec![covered(3, 2, 1, 1), covered(4, 3, 1, 1), covered(2, 2, 1, 1)])];
    composite(&mut buffer, GREY, Contrast::Dark, &glyphs);
    let raw = buffer.into_raw();
    assert_eq!(pixel(&raw, 2, 0, 0), RGB::white());
    assert_eq!(pixel(&raw, 2, 1, 1), RGB::white());
    assert_eq!(pixel(&raw, 2, 1, 0), GREY);
    assert_eq!(pixel(&raw, 2, 0, 1), GREY);
}

#[test]
fn last_write_wins() {
    let mut buffer = PixelBuffer::new(dimension("2"), dimension("1"), GREY);
    let glyphs = vec![
        glyph_at(0, 0, vec![covered(0, 0, 1, 1), covered(1, 0, 1, 1)]),
        glyph_at(1, 0, vec![covered(0, 0, 1, 2)]),
        glyph_at(0, 0, vec![covered(0, 0, 1, 4), covered(0, 0, 0, 1)]),
    ];
    composite(&mut buffer, GREY, Contrast::Light, &glyphs);
    let raw = buffer.into_raw();
    assert_eq!(pixel(&raw, 2, 0, 0), GREY);
    assert_eq!(pixel(&raw, 2, 1, 0), RGB { red: 100, green: 50, blue: 25 });
}

#[test]
fn glyph_without_a_box_draws_nothing() {
    let mut buffer = PixelBuffer::new(dimension("2"), dimension("2"), GREY);
    let glyphs = vec![Glyph { origin: None, coverage: vec![covered(0, 0, 1, 1)] }];
    composite(&mut buffer, GREY, Contrast::Dark, &glyphs);
    assert_eq!(buffer.into_raw(), PixelBuffer::new(dimension("2"), dimension("2"), GREY).into_raw());
}

#[test]
fn label_names_both_extents() {
    assert_eq!(label(dimension("640"), dimension("480")), "640\u{d7}480");
    assert_eq!(label(dimension("0"), dimension("9999")), "0\u{d7}9999");
}

#[test]
fn into_response_wraps_the_file() {
    let mut image = into_response(Ok(vec![1, 2, 3])).ok().unwrap();
    assert_eq!(image.raw, vec![1, 2, 3]);
    let mut buf = [0u8; 8];
    assert_eq!(image.read(&mut buf), 3);
    assert_eq!(&buf[..3], &[1, 2, 3]);
    let failed = into_response(Err(image::ImageError::IoError(std::io::Error::other("full"))));
    assert_eq!(failed.err(), Some(RenderError::Encoding));
}

#[test]
fn render_gives_a_png_of_the_painted_grid() {
    // A dim background counts as light, so coverage darkens.
    let dim = RGB { red: 100, green: 80, blue: 60 };
    let form = ImageForm { width: dimension("5"), height: dimension("4"), color: Some(dim) };
    let glyphs = vec![
        glyph_at(1, 1, vec![covered(0, 0, 1, 2), covered(1, 0, 1, 1), covered(9, 9, 1, 1)]),
        glyph_at(-1, 3, vec![covered(1, 0, 1, 4)]),
    ];
    let response = render(&form, &glyphs).ok().unwrap();
    assert_eq!(&response.raw[..8], &[0x89, b'P', b'N', b'G', 0x0d, 0x0a, 0x1a, 0x0a]);
    let decoded = image::load_from_memory(&response.raw).unwrap().into_rgb8();
    assert_eq!(decoded.dimensions(), (5, 4));
    for y in 0..4u32 {
        for x in 0..5u32 {
            let expected = match (x, y) {
                (1, 1) => RGB { red: 50, green: 40, blue: 30 },
                (2, 1) => RGB { red: 0, green: 0, blue: 0 },
                (0, 3) => RGB { red: 75, green: 60, blue: 45 },
                _ => dim,
            };
            let got = decoded.get_pixel(x, y).0;
            assert_eq!(RGB { red: got[0], green: got[1], blue: got[2] }, expected);
        }
    }
}

#[test]
fn render_lightens_on_a_bright_background() {
    let bright = RGB { red: 200, green: 200, blue: 100 };
    let form = ImageForm { width: dimension("2"), height: dimension("1"), color: Some(bright) };
    let glyphs = vec![glyph_at(0, 0, vec![covered(1, 0, 1, 5)])];
    let response = render(&form, &glyphs).ok().unwrap();
    let decoded = image::load_from_memory(&response.raw).unwrap().into_rgb8();
    assert_eq!(decoded.get_pixel(0, 0).0, [200, 200, 100]);
    // 255 / 5 = 51.
    assert_eq!(decoded.get_pixel(1, 0).0, [251, 251, 151]);
}

#[test]
fn render_defaults_to_black() {
    let form = ImageForm { width: dimension("3"), height: dimension("2"), color: None };
    let mut response = render(&form, &Vec::new()).ok().unwrap();
    let decoded = image::load_from_memory(&response.raw).unwrap().into_rgb8();
    assert_eq!(decoded.dimensions(), (3, 2));
    assert!(decoded.pixels().all(|p| p.0 == [0, 0, 0]));
    // The stream is ready to be read from its start, chunk by chunk.
    let mut all: Vec<u8> = Vec::new();
    let mut buf = [0u8; 16];
    loop {
        let count: usize = response.read(&mut buf);
        if count == 0 {
            break;
        }
        all.extend_from_slice(&buf[..count]);
    }
    assert_eq!(all, response.raw);
}

#[test]
fn render_is_the_same_every_time() {
    let form = ImageForm { width: dimension("16"), height: dimension("16"), color: Some(GREY) };
    let glyphs = vec![glyph_at(2, 2, vec![covered(0, 0, 1, 3), covered(5, 5, 2, 3)])];
    let first = render(&form, &glyphs).ok().unwrap();
    let second = render(&form, &glyphs).ok().unwrap();
    assert_eq!(first.raw, second.raw);
}

#[test]
fn render_fails_where_the_encoder_refuses() {
    let form = ImageForm { width: dimension("0"), height: dimension("4"), color: None };
    assert_eq!(render(&form, &Vec::new()).err(), Some(RenderError::Encoding));
}
