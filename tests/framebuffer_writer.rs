use font8x8::UnicodeFonts;
use kernel_core::framebuffer::{FrameBufferInfo, FramebufferWriter, PixelFormat};

fn info(width: usize, height: usize, bytes_per_pixel: usize, pixel_format: PixelFormat) -> FrameBufferInfo {
    FrameBufferInfo {
        horizontal_resolution: width,
        vertical_resolution: height,
        stride: width,
        bytes_per_pixel,
        pixel_format,
    }
}

fn writer(info: FrameBufferInfo) -> FramebufferWriter {
    let len = info.stride * info.vertical_resolution * info.bytes_per_pixel;
    FramebufferWriter::new(info, vec![0x5a; len])
}

fn pixel(w: &FramebufferWriter, x: usize, y: usize) -> Vec<u8> {
    let i = w.info();
    let at = (y * i.stride + x) * i.bytes_per_pixel;
    w.buffer()[at..at + i.bytes_per_pixel].to_vec()
}

/// Checks that the glyph of `c` is drawn with its top left corner at `(x, y)`.
fn assert_glyph_at(w: &FramebufferWriter, c: char, x: usize, y: usize) {
    let glyph = font8x8::BASIC_FONTS.get(c).unwrap();
    for (row, byte) in glyph.iter().enumerate() {
        for col in 0..8 {
            let v = if byte & (1 << col) != 0 { 0xff } else { 0 };
            let p = pixel(w, x + col, y + row);
            assert_eq!(&p[..3], &[v, v, v], "glyph {:?} row {} col {}", c, row, col);
        }
    }
}

#[test]
fn new_writer_is_cleared_with_cursor_at_margin() {
    let w = writer(info(64, 64, 4, PixelFormat::Rgb));
    assert!(w.buffer().iter().all(|b| *b == 0));
    assert_eq!((w.x_pos(), w.y_pos()), (16, 16));
    assert_eq!(w.width(), 64);
    assert_eq!(w.height(), 64);
}

#[test]
fn writes_ab_newline_on_640_by_400() {
    let mut w = writer(info(640, 400, 4, PixelFormat::Rgb));
    w.write_str("AB\n");
    assert_glyph_at(&w, 'A', 16, 16);
    assert_glyph_at(&w, 'B', 24, 16);
    assert_eq!((w.x_pos(), w.y_pos()), (16, 32));
    // A lit pixel of 'A' is white with a zero fourth byte.
    let glyph = font8x8::BASIC_FONTS.get('A').unwrap();
    let row = glyph.iter().position(|b| *b != 0).unwrap();
    let col = (0..8).find(|c| glyph[row] & (1 << c) != 0).unwrap();
    assert_eq!(pixel(&w, 16 + col, 16 + row), vec![0xff, 0xff, 0xff, 0]);
}

#[test]
fn newline_resets_x_whatever_it_was() {
    let mut w = writer(info(640, 400, 4, PixelFormat::Rgb));
    w.write_str("hello");
    assert_eq!((w.x_pos(), w.y_pos()), (56, 16));
    w.write_char('\n');
    assert_eq!((w.x_pos(), w.y_pos()), (16, 32));
    w.write_char('\n');
    assert_eq!((w.x_pos(), w.y_pos()), (16, 48));
}

#[test]
fn carriage_return_keeps_the_line() {
    let mut w = writer(info(640, 400, 4, PixelFormat::Rgb));
    w.write_str("xyz\r");
    assert_eq!((w.x_pos(), w.y_pos()), (16, 16));
    w.write_char('Q');
    assert_glyph_at(&w, 'Q', 16, 16);
    assert_eq!((w.x_pos(), w.y_pos()), (24, 16));
}

#[test]
fn long_line_wraps_without_dropping_characters() {
    let mut w = writer(info(40, 96, 4, PixelFormat::Rgb));
    w.write_str("abcdefg");
    // Three glyphs fit before the cursor passes the right edge at x = 40.
    assert_glyph_at(&w, 'a', 16, 16);
    assert_glyph_at(&w, 'b', 24, 16);
    assert_glyph_at(&w, 'c', 32, 16);
    assert_glyph_at(&w, 'd', 16, 32);
    assert_glyph_at(&w, 'e', 24, 32);
    assert_glyph_at(&w, 'f', 32, 32);
    assert_glyph_at(&w, 'g', 16, 48);
    assert_eq!((w.x_pos(), w.y_pos()), (24, 48));
}

#[test]
fn scrolling_brings_cursor_back_and_keeps_the_bottom() {
    // Height 64: glyphs must start above row 48.
    let mut w = writer(info(40, 64, 4, PixelFormat::Rgb));
    w.write_str("a\nb\n");
    assert_eq!((w.x_pos(), w.y_pos()), (16, 48));
    w.write_pixel(3, 63, 1, 2, 3);
    let bottom_before = w.buffer()[40 * 4 * 48..].to_vec();
    w.write_char('c');
    // One scroll of a text line: 'b' moved from row 32 to row 16.
    assert_eq!((w.x_pos(), w.y_pos()), (24, 32));
    assert_glyph_at(&w, 'b', 16, 16);
    assert_glyph_at(&w, 'c', 16, 32);
    assert_eq!(&w.buffer()[40 * 4 * 48..], &bottom_before[..]);
}

#[test]
fn scrolling_repeats_after_many_newlines() {
    let mut w = writer(info(40, 64, 4, PixelFormat::Rgb));
    w.write_str("\n\n\n\n\n");
    assert_eq!(w.y_pos(), 96);
    w.write_char('z');
    assert_eq!(w.y_pos(), 32);
    assert_glyph_at(&w, 'z', 16, 32);
}

#[test]
fn shift_lines_up_moves_bytes_by_one_text_line() {
    let mut w = writer(info(32, 40, 1, PixelFormat::U8));
    let line = 32 * 16;
    w.write_pixel(5, 20, 7, 8, 9);
    w.write_pixel(6, 39, 4, 4, 4);
    let before = w.buffer().to_vec();
    let y = w.y_pos();
    w.shift_lines_up();
    assert_eq!(w.y_pos(), y - 16);
    let after = w.buffer();
    assert_eq!(after[5 + 32 * 4], 7);
    assert_eq!(&after[..before.len() - line], &before[line..]);
    assert_eq!(&after[before.len() - line..], &before[before.len() - line..]);
}

#[test]
fn write_pixel_rgb_round_trip() {
    let mut w = writer(info(64, 64, 4, PixelFormat::Rgb));
    w.write_pixel(10, 20, 0x11, 0x22, 0x33);
    assert_eq!(pixel(&w, 10, 20), vec![0x11, 0x22, 0x33, 0]);
    assert_eq!(pixel(&w, 11, 20), vec![0, 0, 0, 0]);
    assert_eq!(pixel(&w, 9, 20), vec![0, 0, 0, 0]);
}

#[test]
fn write_pixel_bgr_round_trip() {
    let mut w = writer(info(64, 64, 3, PixelFormat::Bgr));
    w.write_pixel(1, 2, 0x11, 0x22, 0x33);
    assert_eq!(pixel(&w, 1, 2), vec![0x33, 0x22, 0x11]);
    let at = (2 * 64 + 1) * 3;
    assert_eq!(&w.buffer()[at..at + 3], &[0x33, 0x22, 0x11]);
}

#[test]
fn other_formats_fall_back_to_rgb() {
    let mut w = writer(info(64, 64, 4, PixelFormat::Unknown));
    w.write_pixel(0, 0, 1, 2, 3);
    assert_eq!(pixel(&w, 0, 0), vec![1, 2, 3, 0]);
    let mut g = writer(info(64, 64, 1, PixelFormat::U8));
    g.write_pixel(4, 4, 9, 8, 7);
    assert_eq!(pixel(&g, 4, 4), vec![9]);
}

#[test]
fn clear_zeroes_and_breaks_the_line() {
    let mut w = writer(info(64, 64, 4, PixelFormat::Rgb));
    w.write_str("ab");
    w.clear();
    assert!(w.buffer().iter().all(|b| *b == 0));
    assert_eq!((w.x_pos(), w.y_pos()), (16, 32));
}

#[test]
fn explicit_newline_and_carriage_return_methods() {
    let mut w = writer(info(64, 64, 4, PixelFormat::Rgb));
    w.write_str("ab");
    w.carriage_return();
    assert_eq!((w.x_pos(), w.y_pos()), (16, 16));
    w.newline();
    assert_eq!((w.x_pos(), w.y_pos()), (16, 32));
}
