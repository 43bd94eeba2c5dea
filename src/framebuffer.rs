//! A text console drawn glyph by glyph onto a raw pixel framebuffer.
use vstd::prelude::*;
use font8x8::UnicodeFonts;

verus! {

/// Distance of the first glyph column from the left edge, in pixels.
pub const MARGIN: usize = 16;

/// Vertical distance between two text lines, in pixels.
pub const LINE_HEIGHT: usize = 16;

/// Horizontal advance of one glyph, in pixels.
pub const GLYPH_WIDTH: usize = 8;

/// Order of the colour channels of one pixel in memory.
#[derive(Clone, Copy, Debug, PartialEq, Eq, Structural)]
pub enum PixelFormat {
    Rgb,
    Bgr,
    U8,
    Unknown,
}

/// Layout of the pixel memory. `stride` counts pixels per row.
#[derive(Clone, Copy, Debug, PartialEq, Eq, Structural)]
pub struct FrameBufferInfo {
    pub horizontal_resolution: usize,
    pub vertical_resolution: usize,
    pub stride: usize,
    pub bytes_per_pixel: usize,
    pub pixel_format: PixelFormat,
}

/// A layout that the writer can draw on without leaving its memory.
pub open spec fn info_valid(info: FrameBufferInfo) -> bool {
    &&& 1 <= info.bytes_per_pixel <= 4
    &&& MARGIN < info.horizontal_resolution <= info.stride
    &&& 2 * LINE_HEIGHT <= info.vertical_resolution
    &&& info.stride * info.vertical_resolution * info.bytes_per_pixel <= usize::MAX
}

/// Number of bytes of pixel memory that a layout describes.
pub open spec fn byte_len(info: FrameBufferInfo) -> int {
    info.stride * info.vertical_resolution * info.bytes_per_pixel
}

/// Offset of the first byte of pixel `(x, y)`.
pub open spec fn pixel_offset(info: FrameBufferInfo, x: int, y: int) -> int {
    (y * info.stride + x) * info.bytes_per_pixel
}

/// The four channel bytes of a colour, in the order of the pixel format.
/// Every format other than BGR is drawn in RGB order.
pub open spec fn channel_bytes(format: PixelFormat, red: u8, green: u8, blue: u8) -> Seq<u8> {
    match format {
        PixelFormat::Rgb => seq![red, green, blue, 0u8],
        PixelFormat::Bgr => seq![blue, green, red, 0u8],
        _ => seq![red, green, blue, 0u8],
    }
}

/// `s` with the bytes from `at` on replaced by `bytes`.
pub open spec fn splice(s: Seq<u8>, at: int, bytes: Seq<u8>) -> Seq<u8> {
    Seq::new(s.len(), |i: int| if at <= i < at + bytes.len() { bytes[i - at] } else { s[i] })
}

/// `s` after moving every byte from `n` on toward the start by `n`;
/// the last `n` bytes keep their value.
pub open spec fn shifted(s: Seq<u8>, n: int) -> Seq<u8> {
    Seq::new(s.len(), |i: int| if i + n < s.len() { s[i + n] } else { s[i] })
}


/// Whether bit `col` of a glyph row is lit.
pub open spec fn bit_lit(row: u8, col: int) -> bool {
    row & (1u8 << (col as u8)) != 0
}

/// Bytes of the pixel layer after painting the first `n` of the 64 pixels of
/// `glyph`, row by row, with its top left corner at `(x, y)`: lit bits white,
/// the others black.
pub open spec fn painted(
    s: Seq<u8>,
    info: FrameBufferInfo,
    x: int,
    y: int,
    glyph: [u8; 8],
    n: nat,
) -> Seq<u8>
    decreases n,
{
    if n == 0 {
        s
    } else {
        let p = n - 1;
        let row = p / 8;
        let col = p % 8;
        let v: u8 = if bit_lit(glyph[row], col) { 0xff } else { 0 };
        splice(
            painted(s, info, x, y, glyph, (n - 1) as nat),
            pixel_offset(info, x + col, y + row),
            channel_bytes(info.pixel_format, v, v, v).take(info.bytes_per_pixel as int),
        )
    }
}

/// Bytes after scrolling up by one text line for as long as the cursor row
/// `y` is not above `limit`; each scroll moves the bytes by `n`.
pub open spec fn scrolled(s: Seq<u8>, n: int, y: int, limit: int) -> Seq<u8>
    decreases y,
{
    if LINE_HEIGHT <= y && limit <= y {
        scrolled(shifted(s, n), n, y - LINE_HEIGHT, limit)
    } else {
        s
    }
}

/// Cursor row after the scrolling of `scrolled`.
pub open spec fn scrolled_y(y: int, limit: int) -> int
    decreases y,
{
    if LINE_HEIGHT <= y && limit <= y {
        scrolled_y(y - LINE_HEIGHT, limit)
    } else {
        y
    }
}

/// Number of bytes that one scroll moves: a text line of rows.
pub open spec fn line_bytes(info: FrameBufferInfo) -> int {
    info.stride * info.bytes_per_pixel * LINE_HEIGHT
}

proof fn lemma_pixel_in_bounds(info: FrameBufferInfo, x: int, y: int)
    requires
        info_valid(info),
        0 <= x <= info.horizontal_resolution + GLYPH_WIDTH,
        0 <= y,
        y + 10 <= info.vertical_resolution,
    ensures
        0 <= pixel_offset(info, x, y),
        pixel_offset(info, x, y) + info.bytes_per_pixel <= byte_len(info),
{
    let s = info.stride as int;
    let h = info.vertical_resolution as int;
    let b = info.bytes_per_pixel as int;
    assert(y * s + x + 1 <= h * s) by (nonlinear_arith)
        requires
            x <= s + 8,
            y + 10 <= h,
            s >= 17,
            y >= 0;
    assert((y * s + x) * b + b <= h * s * b) by (nonlinear_arith)
        requires
            y * s + x + 1 <= h * s,
            b >= 1;
    assert(0 <= (y * s + x) * b) by (nonlinear_arith)
        requires
            y >= 0,
            s >= 0,
            x >= 0,
            b >= 1;
}

proof fn lemma_info_bounds(info: FrameBufferInfo)
    requires
        info_valid(info),
    ensures
        info.stride + 64 <= usize::MAX,
        info.vertical_resolution <= usize::MAX,
{
    let s = info.stride as int;
    let h = info.vertical_resolution as int;
    let b = info.bytes_per_pixel as int;
    assert(s * 32 <= s * h * b) by (nonlinear_arith)
        requires
            h >= 32,
            s >= 0,
            b >= 1;
}

proof fn lemma_line_fits(info: FrameBufferInfo)
    requires
        info_valid(info),
    ensures
        0 <= line_bytes(info) <= byte_len(info),
{
    let s = info.stride as int;
    let h = info.vertical_resolution as int;
    let b = info.bytes_per_pixel as int;
    assert(0 <= s * b * 16 <= s * h * b) by (nonlinear_arith)
        requires
            h >= 32,
            s >= 0,
            b >= 1;
}


/// The 8 x 8 bitmap of `c` in font8x8's basic table, one byte per row, bit
/// `i` of a row lighting column `i`.
pub uninterp spec fn basic_glyph(c: char) -> [u8; 8];

/// Relies on font8x8's `BASIC_FONTS.get`: the basic table holds exactly the
/// characters U+0000 to U+007F, each with its bitmap.
#[verifier::external_body]
fn basic_font_glyph(c: char) -> (r: Option<[u8; 8]>)
    ensures
        r is Some <==> (c as u32) < 128,
        r is Some ==> r->0 == basic_glyph(c),
{
    font8x8::BASIC_FONTS.get(c)
}

/// Whether `c` has a glyph to draw: every character of the basic table.
pub open spec fn drawable(c: char) -> bool {
    (c as u32) < 128
}

/// Whether `c` is a character that moves the cursor instead of being drawn.
pub open spec fn is_control(c: char) -> bool {
    c == '\n' || c == '\r'
}

/// Top left corner `(x, y)` at which a drawn character lands when the cursor
/// stands at `(x, y)`: wrapped to the next line when the cursor has passed the
/// right edge, then scrolled until a line fits below it.
pub open spec fn glyph_origin(info: FrameBufferInfo, x: int, y: int) -> (int, int) {
    let x1 = if x >= info.horizontal_resolution { MARGIN as int } else { x };
    let y1 = if x >= info.horizontal_resolution { y + LINE_HEIGHT } else { y };
    (x1, scrolled_y(y1, info.vertical_resolution - LINE_HEIGHT))
}

/// Bytes and cursor `(bytes, x, y)` after writing `c`. A newline moves to the
/// margin of the next line, a carriage return to the margin of the same line.
/// Any other character first wraps to the next line when the cursor has
/// passed the right edge, then scrolls until a line fits below the cursor,
/// then is painted and advances the cursor by one glyph.
pub open spec fn put_char(info: FrameBufferInfo, s: Seq<u8>, x: int, y: int, c: char) -> (
    Seq<u8>,
    int,
    int,
) {
    if c == '\n' {
        (s, MARGIN as int, y + LINE_HEIGHT)
    } else if c == '\r' {
        (s, MARGIN as int, y)
    } else {
        let y1 = if x >= info.horizontal_resolution { y + LINE_HEIGHT } else { y };
        let (gx, gy) = glyph_origin(info, x, y);
        (
            painted(
                scrolled(s, line_bytes(info), y1, info.vertical_resolution - LINE_HEIGHT),
                info,
                gx,
                gy,
                basic_glyph(c),
                64,
            ),
            gx + GLYPH_WIDTH,
            gy,
        )
    }
}

/// Bytes and cursor after writing the characters of `cs` in order.
pub open spec fn put_str(info: FrameBufferInfo, s: Seq<u8>, x: int, y: int, cs: Seq<char>) -> (
    Seq<u8>,
    int,
    int,
)
    decreases cs.len(),
{
    if cs.len() == 0 {
        (s, x, y)
    } else {
        let prev = put_str(info, s, x, y, cs.drop_last());
        put_char(info, prev.0, prev.1, prev.2, cs.last())
    }
}

/// Characters of `cs` whose glyphs `put_str` paints, in order, each with the
/// corner at which it is painted.
pub open spec fn glyph_trace(info: FrameBufferInfo, s: Seq<u8>, x: int, y: int, cs: Seq<char>) -> Seq<
    (char, int, int),
>
    decreases cs.len(),
{
    if cs.len() == 0 {
        Seq::empty()
    } else {
        let prev = put_str(info, s, x, y, cs.drop_last());
        let c = cs.last();
        let rest = glyph_trace(info, s, x, y, cs.drop_last());
        if is_control(c) {
            rest
        } else {
            let (gx, gy) = glyph_origin(info, prev.1, prev.2);
            rest.push((c, gx, gy))
        }
    }
}

/// A newline moves the cursor to the margin of the next line, wherever it
/// stood on the current one, and paints nothing.
pub proof fn lemma_newline_cursor(info: FrameBufferInfo, s: Seq<u8>, x: int, y: int)
    ensures
        put_char(info, s, x, y, '\n') == (s, MARGIN as int, y + LINE_HEIGHT),
{
}

/// Scrolling brings the cursor row back above `limit`, by whole lines, and
/// never further up than the line just above it.
pub proof fn lemma_scrolled_y_bounds(y: int, limit: int)
    requires
        LINE_HEIGHT <= limit,
        0 <= y,
    ensures
        0 <= scrolled_y(y, limit) <= y,
        scrolled_y(y, limit) < limit,
        y >= limit ==> limit - LINE_HEIGHT <= scrolled_y(y, limit),
        y < limit ==> scrolled_y(y, limit) == y,
        (y - scrolled_y(y, limit)) % (LINE_HEIGHT as int) == 0,
    decreases y,
{
    if LINE_HEIGHT <= y && limit <= y {
        lemma_scrolled_y_bounds(y - LINE_HEIGHT, limit);
    }
}

/// Scrolling keeps the length of the pixel memory and never alters its last
/// `n` bytes, the part below the window that moves up.
pub proof fn lemma_scroll_keeps_tail(s: Seq<u8>, n: int, y: int, limit: int)
    requires
        0 <= n <= s.len(),
    ensures
        scrolled(s, n, y, limit).len() == s.len(),
        forall|i: int| s.len() - n <= i < s.len() ==> #[trigger] scrolled(s, n, y, limit)[i] == s[i],
    decreases y,
{
    if LINE_HEIGHT <= y && limit <= y {
        lemma_scroll_keeps_tail(shifted(s, n), n, y - LINE_HEIGHT, limit);
    }
}

/// Writing a string paints one glyph for each character that is neither a
/// newline nor a carriage return, in order, however often the lines wrap; each
/// glyph starts inside the screen, a line above the bottom.
pub proof fn lemma_no_glyph_dropped(
    info: FrameBufferInfo,
    s: Seq<u8>,
    x: int,
    y: int,
    cs: Seq<char>,
)
    requires
        info_valid(info),
        0 <= x,
        0 <= y,
    ensures
        glyph_trace(info, s, x, y, cs).len() == cs.filter(|c: char| !is_control(c)).len(),
        forall|k: int|
            0 <= k < glyph_trace(info, s, x, y, cs).len() ==> {
                let (c, gx, gy) = #[trigger] glyph_trace(info, s, x, y, cs)[k];
                &&& c == cs.filter(|c: char| !is_control(c))[k]
                &&& 0 <= gx < info.horizontal_resolution
                &&& 0 <= gy
                &&& gy + LINE_HEIGHT < info.vertical_resolution
            },
        0 <= put_str(info, s, x, y, cs).1,
        0 <= put_str(info, s, x, y, cs).2,
        MARGIN <= x ==> MARGIN <= put_str(info, s, x, y, cs).1,
        MARGIN <= x ==> forall|k: int|
            0 <= k < glyph_trace(info, s, x, y, cs).len() ==> MARGIN <= (#[trigger] glyph_trace(
                info,
                s,
                x,
                y,
                cs,
            )[k]).1,
    decreases cs.len(),
{
    reveal(Seq::filter);
    if cs.len() > 0 {
        let dl = cs.drop_last();
        lemma_no_glyph_dropped(info, s, x, y, dl);
        let prev = put_str(info, s, x, y, dl);
        let y1 = if prev.1 >= info.horizontal_resolution {
            prev.2 + LINE_HEIGHT
        } else {
            prev.2
        };
        lemma_scrolled_y_bounds(y1, info.vertical_resolution - LINE_HEIGHT);
        let f = |c: char| !is_control(c);
        assert(cs.filter(f) == if f(cs.last()) {
            dl.filter(f).push(cs.last())
        } else {
            dl.filter(f)
        });
        let t = glyph_trace(info, s, x, y, cs);
        let tp = glyph_trace(info, s, x, y, dl);
        assert forall|k: int| 0 <= k < t.len() implies {
            let (c, gx, gy) = #[trigger] t[k];
            &&& c == cs.filter(f)[k]
            &&& 0 <= gx < info.horizontal_resolution
            &&& 0 <= gy
            &&& gy + LINE_HEIGHT < info.vertical_resolution
        } by {
            if k < tp.len() {
                assert(t[k] == tp[k]);
            }
        }
        if MARGIN <= x {
            assert forall|k: int| 0 <= k < t.len() implies MARGIN <= (#[trigger] t[k]).1 by {
                if k < tp.len() {
                    assert(t[k] == tp[k]);
                }
            }
        }
    }
}

/// What `write_pixel` stores reads back as the colour in the order of the
/// pixel format: `[r, g, b]` for RGB, `[b, g, r]` for BGR.
pub proof fn lemma_pixel_round_trip(
    s: Seq<u8>,
    info: FrameBufferInfo,
    x: int,
    y: int,
    red: u8,
    green: u8,
    blue: u8,
)
    requires
        3 <= info.bytes_per_pixel <= 4,
        0 <= pixel_offset(info, x, y),
        pixel_offset(info, x, y) + info.bytes_per_pixel <= s.len(),
    ensures
        ({
            let at = pixel_offset(info, x, y);
            let after = splice(
                s,
                at,
                channel_bytes(info.pixel_format, red, green, blue).take(info.bytes_per_pixel as int),
            );
            &&& info.pixel_format == PixelFormat::Rgb ==> after.subrange(at, at + 3) == seq![
                red,
                green,
                blue,
            ]
            &&& info.pixel_format == PixelFormat::Bgr ==> after.subrange(at, at + 3) == seq![
                blue,
                green,
                red,
            ]
        }),
{
    let at = pixel_offset(info, x, y);
    let after = splice(
        s,
        at,
        channel_bytes(info.pixel_format, red, green, blue).take(info.bytes_per_pixel as int),
    );
    assert(after.subrange(at, at + 3) =~= channel_bytes(info.pixel_format, red, green, blue).take(
        3,
    ));
    if info.pixel_format == PixelFormat::Rgb {
        assert(after.subrange(at, at + 3) =~= seq![red, green, blue]);
    }
    if info.pixel_format == PixelFormat::Bgr {
        assert(after.subrange(at, at + 3) =~= seq![blue, green, red]);
    }
}

/// Relies on volatile's `Volatile::write`: one byte of `buf` is stored with a
/// write that the compiler may neither elide nor reorder.
#[verifier::external_body]
fn store_byte(buf: &mut Vec<u8>, at: usize, value: u8)
    requires
        at < old(buf)@.len(),
    ensures
        final(buf)@ == old(buf)@.update(at as int, value),
{
    volatile::Volatile::new(&mut buf[at]).write(value);
}

/// A glyph painter and cursor over an owned pixel buffer.
pub struct FramebufferWriter {
    buffer: Vec<u8>,
    info: FrameBufferInfo,
    x_pos: usize,
    y_pos: usize,
}

impl FramebufferWriter {
    /// Contents of the pixel memory.
    pub closed spec fn bytes(&self) -> Seq<u8> {
        self.buffer@
    }

    /// Layout of the pixel memory.
    pub closed spec fn layout(&self) -> FrameBufferInfo {
        self.info
    }

    /// Column, in pixels, at which the next glyph starts.
    pub closed spec fn cursor_x(&self) -> int {
        self.x_pos as int
    }

    /// Row, in pixels, at which the next glyph starts.
    pub closed spec fn cursor_y(&self) -> int {
        self.y_pos as int
    }

    /// The buffer matches the layout, and the cursor can still advance by a glyph.
    pub closed spec fn wf(&self) -> bool {
        &&& info_valid(self.info)
        &&& self.buffer@.len() == byte_len(self.info)
        &&& self.x_pos < self.info.horizontal_resolution + GLYPH_WIDTH
    }

    /// What a well-formed writer guarantees: a layout it can draw on, pixel
    /// memory of exactly the size the layout describes, and a cursor column
    /// at most one glyph past the right edge.
    pub proof fn lemma_wf(&self)
        requires
            self.wf(),
        ensures
            info_valid(self.layout()),
            self.bytes().len() == byte_len(self.layout()),
            0 <= self.cursor_x() < self.layout().horizontal_resolution + GLYPH_WIDTH,
            0 <= self.cursor_y() <= usize::MAX,
    {
    }

    /// Stores one pixel `(x, y)` of colour `(red, green, blue)`: the first
    /// `bytes_per_pixel` channel bytes in the order of the pixel format, at
    /// byte `(y * stride + x) * bytes_per_pixel`.
    pub fn write_pixel(&mut self, x: usize, y: usize, red: u8, green: u8, blue: u8)
        requires
            old(self).wf(),
            pixel_offset(old(self).layout(), x as int, y as int) + old(self).layout().bytes_per_pixel
                <= old(self).bytes().len(),
        ensures
            final(self).wf(),
            final(self).layout() == old(self).layout(),
            final(self).cursor_x() == old(self).cursor_x(),
            final(self).cursor_y() == old(self).cursor_y(),
            final(self).bytes() == splice(
                old(self).bytes(),
                pixel_offset(old(self).layout(), x as int, y as int),
                channel_bytes(old(self).layout().pixel_format, red, green, blue).take(
                    old(self).layout().bytes_per_pixel as int,
                ),
            ),
    {
        let color: [u8; 4] = match self.info.pixel_format {
            PixelFormat::Rgb => [red, green, blue, 0],
            PixelFormat::Bgr => [blue, green, red, 0],
            _ => [red, green, blue, 0],
        };
        let bytes_per_pixel = self.info.bytes_per_pixel;
        proof {
            assert(y * self.info.stride + x <= (y * self.info.stride + x) * bytes_per_pixel)
                by (nonlinear_arith) requires bytes_per_pixel >= 1;
            assert(y * self.info.stride <= (y * self.info.stride + x) * bytes_per_pixel)
                by (nonlinear_arith) requires bytes_per_pixel >= 1;
        }
        let byte_offset = (y * self.info.stride + x) * bytes_per_pixel;
        let ghost before = self.buffer@;
        let ghost channels = channel_bytes(self.info.pixel_format, red, green, blue).take(
            bytes_per_pixel as int,
        );
        assert(color@ =~= channel_bytes(self.info.pixel_format, red, green, blue));
        let mut k: usize = 0;
        while k < bytes_per_pixel
            invariant
                self.info == old(self).info,
                self.x_pos == old(self).x_pos,
                self.y_pos == old(self).y_pos,
                before == old(self).buffer@,
                bytes_per_pixel == self.info.bytes_per_pixel,
                byte_offset == pixel_offset(self.info, x as int, y as int),
                byte_offset + bytes_per_pixel <= before.len(),
                before.len() == byte_len(self.info),
                info_valid(self.info),
                1 <= bytes_per_pixel <= 4,
                color@ == channel_bytes(self.info.pixel_format, red, green, blue),
                channels == color@.take(bytes_per_pixel as int),
                0 <= k <= bytes_per_pixel,
                self.buffer@ == splice(before, byte_offset as int, channels.take(k as int)),
            decreases bytes_per_pixel - k,
        {
            store_byte(&mut self.buffer, byte_offset + k, color[k]);
            k = k + 1;
            assert(self.buffer@ =~= splice(before, byte_offset as int, channels.take(k as int)));
        }
        assert(channels.take(k as int) =~= channels);
    }
    /// Paints the 8 x 8 `rendered_char` at the cursor and advances the cursor
    /// by one glyph.
    fn write_rendered_char(&mut self, rendered_char: [u8; 8])
        requires
            old(self).wf(),
            old(self).cursor_x() < old(self).layout().horizontal_resolution,
            old(self).cursor_y() + LINE_HEIGHT < old(self).layout().vertical_resolution,
        ensures
            final(self).wf(),
            final(self).layout() == old(self).layout(),
            final(self).cursor_x() == old(self).cursor_x() + GLYPH_WIDTH,
            final(self).cursor_y() == old(self).cursor_y(),
            final(self).bytes() == painted(
                old(self).bytes(),
                old(self).layout(),
                old(self).cursor_x(),
                old(self).cursor_y(),
                rendered_char,
                64,
            ),
    {
        let ghost before = self.buffer@;
        proof {
            lemma_info_bounds(self.info);
        }
        let mut y: usize = 0;
        while y < 8
            invariant
                self.wf(),
                self.info == old(self).info,
                self.x_pos == old(self).x_pos,
                self.y_pos == old(self).y_pos,
                self.x_pos < self.info.horizontal_resolution,
                self.y_pos + LINE_HEIGHT < self.info.vertical_resolution,
                self.info.stride + 64 <= usize::MAX,
                0 <= y <= 8,
                self.buffer@ == painted(
                    before,
                    self.info,
                    self.x_pos as int,
                    self.y_pos as int,
                    rendered_char,
                    (y * 8) as nat,
                ),
            decreases 8 - y,
        {
            let byte = rendered_char[y];
            let mut bit: usize = 0;
            while bit < 8
                invariant
                    self.wf(),
                    self.info == old(self).info,
                    self.x_pos == old(self).x_pos,
                    self.y_pos == old(self).y_pos,
                    self.x_pos < self.info.horizontal_resolution,
                    self.y_pos + LINE_HEIGHT < self.info.vertical_resolution,
                    self.info.stride + 64 <= usize::MAX,
                    0 <= y < 8,
                    0 <= bit <= 8,
                    byte == rendered_char[y as int],
                    self.buffer@ == painted(
                        before,
                        self.info,
                        self.x_pos as int,
                        self.y_pos as int,
                        rendered_char,
                        (y * 8 + bit) as nat,
                    ),
                decreases 8 - bit,
            {
                let px = self.x_pos + bit;
                let py = self.y_pos + y;
                proof {
                    lemma_pixel_in_bounds(self.info, px as int, py as int);
                    assert((y * 8 + bit) / 8 == y && (y * 8 + bit) % 8 == bit) by (nonlinear_arith)
                        requires
                            0 <= bit < 8,
                            0 <= y;
                }
                let v: u8 = if byte & (1u8 << (bit as u8)) != 0 { 0xff } else { 0 };
                self.write_pixel(px, py, v, v, v);
                bit = bit + 1;
            }
            y = y + 1;
        }
        self.x_pos = self.x_pos + GLYPH_WIDTH;
    }

    /// Moves the cursor to the left margin.
    pub fn carriage_return(&mut self)
        requires
            old(self).wf(),
        ensures
            final(self).wf(),
            final(self).layout() == old(self).layout(),
            final(self).bytes() == old(self).bytes(),
            final(self).cursor_x() == MARGIN,
            final(self).cursor_y() == old(self).cursor_y(),
    {
        self.x_pos = MARGIN;
    }

    /// Moves the cursor to the left margin of the next text line.
    pub fn newline(&mut self)
        requires
            old(self).wf(),
            old(self).cursor_y() + LINE_HEIGHT <= usize::MAX,
        ensures
            final(self).wf(),
            final(self).layout() == old(self).layout(),
            final(self).bytes() == old(self).bytes(),
            final(self).cursor_x() == MARGIN,
            final(self).cursor_y() == old(self).cursor_y() + LINE_HEIGHT,
    {
        self.y_pos = self.y_pos + LINE_HEIGHT;
        self.carriage_return();
    }

    /// Erases the screen: breaks the line, then zeroes every byte.
    pub fn clear(&mut self)
        requires
            old(self).wf(),
            old(self).cursor_y() + LINE_HEIGHT <= usize::MAX,
        ensures
            final(self).wf(),
            final(self).layout() == old(self).layout(),
            final(self).bytes() == Seq::new(old(self).bytes().len(), |i: int| 0u8),
            final(self).cursor_x() == MARGIN,
            final(self).cursor_y() == old(self).cursor_y() + LINE_HEIGHT,
    {
        self.newline();
        let len = self.buffer.len();
        let mut i: usize = 0;
        while i < len
            invariant
                self.wf(),
                self.info == old(self).info,
                self.x_pos == MARGIN,
                self.y_pos == old(self).y_pos + LINE_HEIGHT,
                len == self.buffer@.len(),
                0 <= i <= len,
                forall|j: int| 0 <= j < i ==> self.buffer@[j] == 0u8,
            decreases len - i,
        {
            store_byte(&mut self.buffer, i, 0);
            i = i + 1;
        }
        assert(self.buffer@ =~= Seq::new(old(self).buffer@.len(), |i: int| 0u8));
    }

    /// Scrolls the screen up by one text line: every byte moves toward the
    /// start by a line of rows, the top line is lost, and the cursor moves up
    /// a line. The bytes of the last line keep their value.
    pub fn shift_lines_up(&mut self)
        requires
            old(self).wf(),
            old(self).cursor_y() >= LINE_HEIGHT,
        ensures
            final(self).wf(),
            final(self).layout() == old(self).layout(),
            final(self).bytes() == shifted(old(self).bytes(), line_bytes(old(self).layout())),
            final(self).cursor_x() == old(self).cursor_x(),
            final(self).cursor_y() == old(self).cursor_y() - LINE_HEIGHT,
    {
        proof {
            lemma_line_fits(self.info);
        }
        let offset = self.info.stride * self.info.bytes_per_pixel * LINE_HEIGHT;
        let len = self.buffer.len();
        let ghost before = self.buffer@;
        let mut i: usize = 0;
        while i < len - offset
            invariant
                self.wf(),
                self.info == old(self).info,
                self.x_pos == old(self).x_pos,
                self.y_pos == old(self).y_pos,
                before == old(self).buffer@,
                offset == line_bytes(self.info),
                offset <= len,
                len == self.buffer@.len(),
                len == before.len(),
                0 <= i <= len - offset,
                forall|j: int| 0 <= j < i ==> self.buffer@[j] == before[j + offset],
                forall|j: int| i <= j < len ==> self.buffer@[j] == before[j],
            decreases len - offset - i,
        {
            let value = self.buffer[i + offset];
            store_byte(&mut self.buffer, i, value);
            i = i + 1;
        }
        assert(self.buffer@ =~= shifted(before, offset as int));
        self.y_pos = self.y_pos - LINE_HEIGHT;
    }

    /// Width of the screen in pixels.
    pub fn width(&self) -> (r: usize)
        ensures
            r == self.layout().horizontal_resolution,
    {
        self.info.horizontal_resolution
    }

    /// Height of the screen in pixels.
    pub fn height(&self) -> (r: usize)
        ensures
            r == self.layout().vertical_resolution,
    {
        self.info.vertical_resolution
    }
    /// Writes one character, wrapping and scrolling as needed.
    pub fn write_char(&mut self, c: char)
        requires
            old(self).wf(),
            drawable(c),
            old(self).cursor_y() + LINE_HEIGHT <= usize::MAX,
        ensures
            final(self).wf(),
            final(self).layout() == old(self).layout(),
            (final(self).bytes(), final(self).cursor_x(), final(self).cursor_y()) == put_char(
                old(self).layout(),
                old(self).bytes(),
                old(self).cursor_x(),
                old(self).cursor_y(),
                c,
            ),
    {
        match c {
            '\n' => self.newline(),
            '\r' => self.carriage_return(),
            c => {
                if self.x_pos >= self.width() {
                    self.newline();
                }
                let ghost y1 = self.y_pos as int;
                let ghost b1 = self.buffer@;
                let limit = self.height() - LINE_HEIGHT;
                while self.y_pos >= limit
                    invariant
                        self.wf(),
                        self.info == old(self).info,
                        limit == self.info.vertical_resolution - LINE_HEIGHT,
                        self.x_pos < self.info.horizontal_resolution,
                        self.x_pos == (if old(self).x_pos >= self.info.horizontal_resolution {
                            MARGIN as int
                        } else {
                            old(self).x_pos as int
                        }),
                        scrolled(self.buffer@, line_bytes(self.info), self.y_pos as int, limit as int)
                            == scrolled(b1, line_bytes(self.info), y1, limit as int),
                        scrolled_y(self.y_pos as int, limit as int) == scrolled_y(y1, limit as int),
                    decreases self.y_pos,
                {
                    self.shift_lines_up();
                }
                proof {
                    lemma_scrolled_y_bounds(self.y_pos as int, limit as int);
                }
                match basic_font_glyph(c) {
                    Some(rendered) => self.write_rendered_char(rendered),
                    None => {},
                }
            },
        }
    }

    /// Writes the characters of `s` in order.
    pub fn write_str(&mut self, s: &str)
        requires
            old(self).wf(),
            s.is_ascii(),
            old(self).cursor_y() + LINE_HEIGHT * s@.len() <= usize::MAX,
        ensures
            final(self).wf(),
            final(self).layout() == old(self).layout(),
            (final(self).bytes(), final(self).cursor_x(), final(self).cursor_y()) == put_str(
                old(self).layout(),
                old(self).bytes(),
                old(self).cursor_x(),
                old(self).cursor_y(),
                s@,
            ),
    {
        let bytes = s.as_bytes();
        proof {
            vstd::string::is_ascii_spec_bytes(s);
        }
        let n = bytes.len();
        let mut i: usize = 0;
        while i < n
            invariant
                self.wf(),
                self.info == old(self).info,
                n == s@.len(),
                bytes@ == Seq::new(s@.len(), |j: int| s@[j] as u8),
                vstd::string::is_ascii(s),
                0 <= i <= n,
                self.y_pos + LINE_HEIGHT * (n - i) <= usize::MAX,
                (self.buffer@, self.x_pos as int, self.y_pos as int) == put_str(
                    old(self).info,
                    old(self).buffer@,
                    old(self).x_pos as int,
                    old(self).y_pos as int,
                    s@.take(i as int),
                ),
            decreases n - i,
        {
            let c = bytes[i] as char;
            assert(c == s@[i as int]);
            assert(s@.take(i + 1).drop_last() =~= s@.take(i as int));
            proof {
                assert(LINE_HEIGHT * (n - i) >= LINE_HEIGHT) by (nonlinear_arith)
                    requires
                        n - i >= 1;
                let limit = self.info.vertical_resolution - LINE_HEIGHT;
                let y1 = if self.x_pos >= self.info.horizontal_resolution {
                    self.y_pos + LINE_HEIGHT
                } else {
                    self.y_pos as int
                };
                lemma_scrolled_y_bounds(y1, limit);
            }
            self.write_char(c);
            i = i + 1;
        }
        assert(s@.take(n as int) =~= s@);
    }

    /// A writer over `buffer` with layout `info`; the screen starts cleared,
    /// with the cursor at the margin of the first line.
    pub fn new(info: FrameBufferInfo, buffer: Vec<u8>) -> (r: FramebufferWriter)
        requires
            info_valid(info),
            buffer@.len() == byte_len(info),
        ensures
            r.wf(),
            r.layout() == info,
            r.bytes() == Seq::new(buffer@.len(), |i: int| 0u8),
            r.cursor_x() == MARGIN,
            r.cursor_y() == LINE_HEIGHT,
    {
        let mut writer = FramebufferWriter { buffer, info, x_pos: 0, y_pos: 0 };
        writer.clear();
        writer
    }

    /// Horizontal cursor position in pixels.
    pub fn x_pos(&self) -> (r: usize)
        ensures
            r == self.cursor_x(),
    {
        self.x_pos
    }

    /// Vertical cursor position in pixels.
    pub fn y_pos(&self) -> (r: usize)
        ensures
            r == self.cursor_y(),
    {
        self.y_pos
    }

    /// The layout of the pixel memory.
    pub fn info(&self) -> (r: FrameBufferInfo)
        ensures
            r == self.layout(),
    {
        self.info
    }

    /// The pixel memory.
    pub fn buffer(&self) -> (r: &[u8])
        ensures
            r@ == self.bytes(),
    {
        self.buffer.as_slice()
    }
}

} // verus!
