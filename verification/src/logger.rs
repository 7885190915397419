//! The framebuffer text console: cursor management, glyph drawing,
//! line wrap, and scroll-by-clear.

use vstd::prelude::*;
use vstd::string::StrSliceExecFns;

use crate::font::{glyph_lookup, glyph_of};
use crate::pixel::{encode_pixel, encode_spec, FrameBufferInfo};

verus! {

/// Extra vertical space, in pixel rows, between consecutive text lines.
pub const LINE_SPACING: usize = 0;

/// The abstract state of a console: the framebuffer bytes, its geometry,
/// and the cursor position in pixels.
#[verifier::ext_equal]
pub struct LogState {
    pub fb: Seq<u8>,
    pub info: FrameBufferInfo,
    pub x: int,
    pub y: int,
}

/// The smallest multiple of 8 that is at least `w`.
pub open spec fn round8(w: int) -> int {
    8 * ((w + 7) / 8)
}

/// The number of framebuffer bytes the geometry spans.
pub open spec fn fb_area(info: FrameBufferInfo) -> int {
    info.stride * info.height * info.bytes_per_pixel
}

/// A geometry the console can draw into: room for at least one glyph,
/// rows that hold a whole number of glyph columns, and a byte span
/// addressable with `usize` arithmetic.
pub open spec fn info_wf(info: FrameBufferInfo) -> bool {
    &&& 8 <= info.width
    &&& 8 <= info.height
    &&& round8(info.width as int) <= info.stride
    &&& (info.bytes_per_pixel == 1 || info.bytes_per_pixel == 3 || info.bytes_per_pixel == 4)
    &&& fb_area(info) <= usize::MAX
}

/// Well-formed console state: valid geometry, a buffer that covers it, and
/// a cursor standing at a glyph column no further than one slot past the
/// visible width.
pub open spec fn state_wf(s: LogState) -> bool {
    &&& info_wf(s.info)
    &&& fb_area(s.info) <= s.fb.len()
    &&& s.fb.len() <= usize::MAX
    &&& 0 <= s.x
    &&& s.x % 8 == 0
    &&& s.x <= round8(s.info.width as int)
    &&& 0 <= s.y
}

/// The byte offset of the pixel at column `x`, row `y`.
pub open spec fn px_offset(info: FrameBufferInfo, x: int, y: int) -> int {
    (y * info.stride + x) * info.bytes_per_pixel
}

/// The framebuffer after one pixel of the given intensity is written at
/// column `x`, row `y`: the pixel's `bytes_per_pixel` bytes take the
/// format's encoding, every other byte is unchanged.
pub open spec fn px_write_spec(
    fb: Seq<u8>,
    info: FrameBufferInfo,
    x: int,
    y: int,
    intensity: u8,
) -> Seq<u8> {
    let off = px_offset(info, x, y);
    Seq::new(
        fb.len(),
        |i: int|
            if off <= i < off + info.bytes_per_pixel {
                encode_spec(info.pixel_format, intensity)[i - off]
            } else {
                fb[i]
            },
    )
}

/// Whether the glyph row byte has the bit for column `col` set.
pub open spec fn glyph_bit(row: u8, col: int) -> bool {
    row & (1u8 << (col as u8)) != 0
}

/// A set glyph bit is drawn at full intensity, a clear one as black.
pub open spec fn glyph_intensity(row: u8, col: int) -> u8 {
    if glyph_bit(row, col) {
        255u8
    } else {
        0u8
    }
}

/// The framebuffer after the first `n` pixels of an 8x8 glyph (row-major)
/// are written with the glyph's top-left corner at column `x`, row `y`.
pub open spec fn blit_n(
    fb: Seq<u8>,
    info: FrameBufferInfo,
    x: int,
    y: int,
    glyph: Seq<u8>,
    n: int,
) -> Seq<u8>
    decreases n,
{
    if n <= 0 {
        fb
    } else {
        let k = n - 1;
        px_write_spec(
            blit_n(fb, info, x, y, glyph, k),
            info,
            x + k % 8,
            y + k / 8,
            glyph_intensity(glyph[k / 8], k % 8),
        )
    }
}

/// Drawing a whole glyph: all 64 pixels, then the cursor advances one slot.
pub open spec fn draw_glyph_spec(s: LogState, glyph: Seq<u8>) -> LogState {
    LogState { fb: blit_n(s.fb, s.info, s.x, s.y, glyph, 64), x: s.x + 8, ..s }
}

/// A line feed: down one glyph row plus spacing, back to the left edge.
pub open spec fn newline_spec(s: LogState) -> LogState {
    LogState { x: 0, y: s.y + 8 + (LINE_SPACING as int), ..s }
}

/// A carriage return: back to the left edge, same row.
pub open spec fn cr_spec(s: LogState) -> LogState {
    LogState { x: 0, ..s }
}

/// Extra vertical space: the cursor moves down without drawing.
pub open spec fn vspace_spec(s: LogState, space: int) -> LogState {
    LogState { y: s.y + space, ..s }
}

/// A cleared console: every framebuffer byte zero, cursor at the origin.
pub open spec fn clear_spec(s: LogState) -> LogState {
    LogState { fb: Seq::new(s.fb.len(), |i: int| 0u8), x: 0, y: 0, ..s }
}

/// What writing one character does. `'\n'` and `'\r'` move the cursor; a
/// character without a glyph is skipped; any other character wraps to a new
/// line if the cursor passed the visible width, clears the screen if the
/// glyph would run past the bottom, and is then drawn.
pub open spec fn step_char(s: LogState, c: char) -> LogState {
    if c == '\n' {
        newline_spec(s)
    } else if c == '\r' {
        cr_spec(s)
    } else {
        match glyph_of(c) {
            Option::None => s,
            Option::Some(g) => {
                let s1 = if s.x >= s.info.width { newline_spec(s) } else { s };
                let s2 = if s1.y >= s.info.height - 8 { clear_spec(s1) } else { s1 };
                draw_glyph_spec(s2, g)
            },
        }
    }
}

/// Writing a sequence of characters, first to last.
pub open spec fn write_seq(s: LogState, cs: Seq<char>) -> LogState
    decreases cs.len(),
{
    if cs.len() == 0 {
        s
    } else {
        write_seq(step_char(s, cs[0]), cs.drop_first())
    }
}

/// Every intermediate cursor position leaves room for one more line feed
/// in `usize` arithmetic.
pub open spec fn steps_ok(s: LogState, cs: Seq<char>) -> bool
    decreases cs.len(),
{
    cs.len() == 0 || {
        &&& s.y + 8 + (LINE_SPACING as int) <= usize::MAX as int
        &&& steps_ok(step_char(s, cs[0]), cs.drop_first())
    }
}

/// A text console over a linear pixel framebuffer. It owns the buffer,
/// draws fixed-width 8x8 glyphs at the cursor, wraps at the right edge,
/// and clears the whole screen instead of scrolling.
pub struct Logger {
    framebuffer: Vec<u8>,
    info: FrameBufferInfo,
    x_pos: usize,
    y_pos: usize,
}

impl Logger {
    /// The abstract state this console is in.
    pub closed spec fn view(&self) -> LogState {
        LogState {
            fb: self.framebuffer@,
            info: self.info,
            x: self.x_pos as int,
            y: self.y_pos as int,
        }
    }

    /// The console's invariant.
    pub open spec fn wf(&self) -> bool {
        state_wf(self@)
    }

    /// Creates a console over the given buffer and geometry; the screen
    /// starts cleared with the cursor at the origin.
    pub fn new(framebuffer: Vec<u8>, info: FrameBufferInfo) -> (r: Logger)
        requires
            info_wf(info),
            fb_area(info) <= framebuffer@.len(),
        ensures
            r.wf(),
            r@ == clear_spec(LogState { fb: framebuffer@, info, x: 0, y: 0 }),
    {
        let mut logger = Logger { framebuffer, info, x_pos: 0, y_pos: 0 };
        // Witnesses that the buffer's length fits in `usize`.
        let _len: usize = logger.framebuffer.len();
        logger.clear();
        logger
    }

    /// Erases all text: zeroes every framebuffer byte and returns the
    /// cursor to the origin.
    pub fn clear(&mut self)
        requires
            old(self).wf(),
        ensures
            final(self).wf(),
            final(self)@ == clear_spec(old(self)@),
    {
        self.x_pos = 0;
        self.y_pos = 0;
        let n = self.framebuffer.len();
        let mut i: usize = 0;
        while i < n
            invariant
                i <= n,
                n == self.framebuffer@.len(),
                self.info == old(self).info,
                self.x_pos == 0,
                self.y_pos == 0,
                forall|j: int| 0 <= j < i ==> self.framebuffer@[j] == 0u8,
            decreases n - i,
        {
            self.framebuffer[i] = 0u8;
            i += 1;
        }
        proof {
            assert(self@.fb =~= clear_spec(old(self)@).fb);
            assert(self@ =~= clear_spec(old(self)@));
        }
    }

    /// The visible width, in pixels.
    pub fn width(&self) -> (r: usize)
        ensures
            r == self@.info.width,
    {
        self.info.width
    }

    /// The visible height, in pixels.
    pub fn height(&self) -> (r: usize)
        ensures
            r == self@.info.height,
    {
        self.info.height
    }

    /// The cursor's horizontal position, in pixels.
    pub fn x_pos(&self) -> (r: usize)
        ensures
            r as int == self@.x,
    {
        self.x_pos
    }

    /// The cursor's vertical position, in pixels.
    pub fn y_pos(&self) -> (r: usize)
        ensures
            r as int == self@.y,
    {
        self.y_pos
    }

    /// The framebuffer contents.
    pub fn buffer(&self) -> (r: &Vec<u8>)
        ensures
            r@ == self@.fb,
    {
        &self.framebuffer
    }

    /// Moves the cursor down by `space` pixel rows without drawing.
    pub fn add_vspace(&mut self, space: usize)
        requires
            old(self).wf(),
            old(self)@.y + space <= usize::MAX as int,
        ensures
            final(self).wf(),
            final(self)@ == vspace_spec(old(self)@, space as int),
    {
        self.y_pos = self.y_pos + space;
    }

    fn newline(&mut self)
        requires
            old(self).wf(),
            old(self)@.y + 8 + (LINE_SPACING as int) <= usize::MAX as int,
        ensures
            final(self).wf(),
            final(self)@ == newline_spec(old(self)@),
    {
        self.y_pos = self.y_pos + 8 + LINE_SPACING;
        self.carriage_return();
    }

    fn carriage_return(&mut self)
        requires
            old(self).wf(),
        ensures
            final(self).wf(),
            final(self)@ == cr_spec(old(self)@),
    {
        self.x_pos = 0;
    }

    fn write_pixel(&mut self, x: usize, y: usize, intensity: u8)
        requires
            old(self).wf(),
            x < old(self)@.info.stride,
            y < old(self)@.info.height,
        ensures
            final(self).wf(),
            final(self)@ == (LogState {
                fb: px_write_spec(old(self)@.fb, old(self)@.info, x as int, y as int, intensity),
                ..old(self)@
            }),
    {
        proof {
            let st = self.info.stride as int;
            let h = self.info.height as int;
            let b = self.info.bytes_per_pixel as int;
            assert((y as int) * st + (x as int) <= st * h - 1) by (nonlinear_arith)
                requires
                    (y as int) <= h - 1,
                    (x as int) <= st - 1,
                    0 <= (y as int),
                    0 <= (x as int),
                    1 <= st,
            ;
            assert(((y as int) * st + (x as int)) * b + b <= st * h * b) by (nonlinear_arith)
                requires
                    (y as int) * st + (x as int) <= st * h - 1,
                    1 <= b,
            ;
            assert(0 <= st * h && st * h <= st * h * b) by (nonlinear_arith)
                requires
                    1 <= b,
                    1 <= st,
                    1 <= h,
            ;
        }
        let pixel_offset = y * self.info.stride + x;
        let color = encode_pixel(self.info.pixel_format, intensity);
        let bytes_per_pixel = self.info.bytes_per_pixel;
        let byte_offset = pixel_offset * bytes_per_pixel;
        let mut j: usize = 0;
        while j < bytes_per_pixel
            invariant
                j <= bytes_per_pixel,
                old(self).wf(),
                bytes_per_pixel == self.info.bytes_per_pixel,
                self.info == old(self).info,
                self.x_pos == old(self).x_pos,
                self.y_pos == old(self).y_pos,
                self.framebuffer@.len() == old(self).framebuffer@.len(),
                byte_offset as int == px_offset(self.info, x as int, y as int),
                byte_offset + bytes_per_pixel <= self.framebuffer@.len(),
                color@ == encode_spec(self.info.pixel_format, intensity),
                forall|i: int|
                    byte_offset <= i < byte_offset + j ==> self.framebuffer@[i] == encode_spec(
                        self.info.pixel_format,
                        intensity,
                    )[i - byte_offset],
                forall|i: int|
                    0 <= i < self.framebuffer@.len() && !(byte_offset <= i < byte_offset + j)
                        ==> self.framebuffer@[i] == old(self).framebuffer@[i],
            decreases bytes_per_pixel - j,
        {
            self.framebuffer[byte_offset + j] = color[j];
            j += 1;
        }
        proof {
            assert(self@.fb =~= px_write_spec(
                old(self)@.fb,
                old(self)@.info,
                x as int,
                y as int,
                intensity,
            ));
        }
    }

    fn write_rendered_char(&mut self, rendered_char: [u8; 8])
        requires
            old(self).wf(),
            old(self)@.x < old(self)@.info.width,
            old(self)@.y + 8 <= old(self)@.info.height,
        ensures
            final(self).wf(),
            final(self)@ == draw_glyph_spec(old(self)@, rendered_char@),
    {
        proof {
            lemma_x_slot(old(self)@.x, old(self)@.info.width as int);
        }
        let mut row: usize = 0;
        while row < 8
            invariant
                row <= 8,
                old(self).wf(),
                old(self)@.x + 8 <= old(self)@.info.stride,
                old(self)@.y + 8 <= old(self)@.info.height,
                self.info == old(self).info,
                self.x_pos == old(self).x_pos,
                self.y_pos == old(self).y_pos,
                self.framebuffer@.len() == old(self).framebuffer@.len(),
                self.framebuffer@ == blit_n(
                    old(self)@.fb,
                    old(self)@.info,
                    old(self)@.x,
                    old(self)@.y,
                    rendered_char@,
                    8 * row,
                ),
            decreases 8 - row,
        {
            let byte = rendered_char[row];
            let mut col: usize = 0;
            while col < 8
                invariant
                    row < 8,
                    col <= 8,
                    old(self).wf(),
                    old(self)@.x + 8 <= old(self)@.info.stride,
                    old(self)@.y + 8 <= old(self)@.info.height,
                    byte == rendered_char@[row as int],
                    self.info == old(self).info,
                    self.x_pos == old(self).x_pos,
                    self.y_pos == old(self).y_pos,
                    self.framebuffer@.len() == old(self).framebuffer@.len(),
                    self.framebuffer@ == blit_n(
                        old(self)@.fb,
                        old(self)@.info,
                        old(self)@.x,
                        old(self)@.y,
                        rendered_char@,
                        8 * row + col,
                    ),
                decreases 8 - col,
            {
                let alpha: u8 = if byte & (1u8 << (col as u8)) == 0 {
                    0
                } else {
                    255
                };
                proof {
                    let k = 8 * (row as int) + (col as int);
                    vstd::arithmetic::div_mod::lemma_fundamental_div_mod_converse(
                        k,
                        8,
                        row as int,
                        col as int,
                    );
                    assert(glyph_intensity(rendered_char@[row as int], col as int) == alpha);
                }
                let x = self.x_pos + col;
                let y = self.y_pos + row;
                self.write_pixel(x, y, alpha);
                col += 1;
            }
            row += 1;
        }
        self.x_pos = self.x_pos + 8;
        proof {
            assert(self@ =~= draw_glyph_spec(old(self)@, rendered_char@));
        }
    }

    /// Writes one character: `'\n'` starts a new line, `'\r'` returns to
    /// the left edge, any other character is drawn as a glyph, wrapping or
    /// clearing first if it would not fit. Returns whether the character
    /// was handled; a character outside the font is skipped.
    pub fn write_char(&mut self, c: char) -> (rendered: bool)
        requires
            old(self).wf(),
            old(self)@.y + 8 + (LINE_SPACING as int) <= usize::MAX as int,
        ensures
            final(self).wf(),
            final(self)@ == step_char(old(self)@, c),
            rendered == (c == '\n' || c == '\r' || glyph_of(c) is Some),
    {
        if c == '\n' {
            self.newline();
            true
        } else if c == '\r' {
            self.carriage_return();
            true
        } else {
            match glyph_lookup(c) {
                Option::None => false,
                Option::Some(rendered_char) => {
                    if self.x_pos >= self.width() {
                        self.newline();
                    }
                    if self.y_pos >= self.height() - 8 {
                        self.clear();
                    }
                    self.write_rendered_char(rendered_char);
                    true
                },
            }
        }
    }

    /// Writes every character of the string in order, as `write_char` does.
    pub fn write_str(&mut self, s: &str)
        requires
            old(self).wf(),
            steps_ok(old(self)@, s@),
        ensures
            final(self).wf(),
            final(self)@ == write_seq(old(self)@, s@),
    {
        let n = s.unicode_len();
        proof {
            assert(s@.skip(0) =~= s@);
            assert(s@.take(0) =~= Seq::<char>::empty());
        }
        let mut i: usize = 0;
        while i < n
            invariant
                i <= n,
                n == s@.len(),
                self.wf(),
                self@ == write_seq(old(self)@, s@.take(i as int)),
                steps_ok(self@, s@.skip(i as int)),
            decreases n - i,
        {
            let c = s.get_char(i);
            proof {
                assert(s@.skip(i as int)[0] == c);
                assert(s@.skip(i as int).drop_first() =~= s@.skip(i as int + 1));
                lemma_write_seq_take_succ(old(self)@, s@, i as int);
            }
            self.write_char(c);
            i += 1;
        }
        proof {
            assert(s@.take(n as int) =~= s@);
        }
    }

    /// Writes the string if every intermediate cursor position stays within
    /// `usize` range, and reports whether it did; on `false` the console is
    /// unchanged. The bound checked is `8 + LINE_SPACING` rows per
    /// character plus one more line feed of headroom.
    pub fn try_write_str(&mut self, s: &str) -> (ok: bool)
        requires
            old(self).wf(),
        ensures
            final(self).wf(),
            ok == (old(self)@.y + (8 + LINE_SPACING as int) * s@.len() + 8 + (LINE_SPACING as int)
                <= usize::MAX as int),
            ok ==> final(self)@ == write_seq(old(self)@, s@),
            !ok ==> final(self)@ == old(self)@,
    {
        let n = s.unicode_len();
        let y = self.y_pos;
        if y <= usize::MAX - 8 - LINE_SPACING && n <= (usize::MAX - 8 - LINE_SPACING - y) / (8
            + LINE_SPACING) {
            proof {
                lemma_steps_ok_linear(self@, s@);
            }
            self.write_str(s);
            true
        } else {
            false
        }
    }
}

/// A glyph slot that starts left of the visible width ends no further than
/// the width rounded up to whole slots.
pub proof fn lemma_x_slot(x: int, w: int)
    requires
        0 <= x,
        x % 8 == 0,
        x < w,
    ensures
        x + 8 <= round8(w),
{
    assert(x + 8 <= 8 * ((w + 7) / 8)) by {
        vstd::arithmetic::div_mod::lemma_fundamental_div_mod(x, 8);
        vstd::arithmetic::div_mod::lemma_fundamental_div_mod(w + 7, 8);
    };
}

/// One character moves the cursor down by at most one line feed.
pub proof fn lemma_step_y_bound(s: LogState, c: char)
    requires
        state_wf(s),
    ensures
        step_char(s, c).y <= s.y + 8 + (LINE_SPACING as int),
        0 <= step_char(s, c).y,
{
}

/// Writing a character preserves well-formedness.
pub proof fn lemma_step_wf(s: LogState, c: char)
    requires
        state_wf(s),
    ensures
        state_wf(step_char(s, c)),
        step_char(s, c).fb.len() == s.fb.len(),
        step_char(s, c).info == s.info,
{
    if c != '\n' && c != '\r' && glyph_of(c) is Some {
        let s1 = if s.x >= s.info.width {
            newline_spec(s)
        } else {
            s
        };
        let s2 = if s1.y >= s.info.height - 8 {
            clear_spec(s1)
        } else {
            s1
        };
        let g = glyph_of(c)->0;
        lemma_blit_n_len(s2.fb, s2.info, s2.x, s2.y, g, 64);
        lemma_x_slot(s2.x, s2.info.width as int);
    }
}

/// Blitting never changes the framebuffer's length.
pub proof fn lemma_blit_n_len(
    fb: Seq<u8>,
    info: FrameBufferInfo,
    x: int,
    y: int,
    glyph: Seq<u8>,
    n: int,
)
    ensures
        blit_n(fb, info, x, y, glyph, n).len() == fb.len(),
    decreases n,
{
    if n > 0 {
        lemma_blit_n_len(fb, info, x, y, glyph, n - 1);
    }
}

/// Writing one more character of a string continues from the state the
/// previous characters left behind.
pub proof fn lemma_write_seq_take_succ(s0: LogState, cs: Seq<char>, i: int)
    requires
        0 <= i < cs.len(),
    ensures
        write_seq(s0, cs.take(i + 1)) == step_char(write_seq(s0, cs.take(i)), cs[i]),
    decreases i,
{
    if i == 0 {
        assert(cs.take(1).drop_first() =~= cs.take(0));
        assert(cs.take(1)[0] == cs[0]);
        assert(write_seq(s0, cs.take(1)) == write_seq(step_char(s0, cs[0]), cs.take(0)));
        assert(write_seq(s0, cs.take(0)) == s0);
    } else {
        let s1 = step_char(s0, cs[0]);
        assert(cs.take(i + 1)[0] == cs[0]);
        assert(cs.take(i)[0] == cs[0]);
        assert(cs.take(i + 1).drop_first() =~= cs.drop_first().take(i));
        assert(cs.take(i).drop_first() =~= cs.drop_first().take(i - 1));
        assert(write_seq(s0, cs.take(i + 1)) == write_seq(s1, cs.drop_first().take(i)));
        assert(write_seq(s0, cs.take(i)) == write_seq(s1, cs.drop_first().take(i - 1)));
        lemma_write_seq_take_succ(s1, cs.drop_first(), i - 1);
        assert(cs.drop_first()[i - 1] == cs[i]);
    }
}

/// Writing a string preserves well-formedness and moves the cursor down by
/// at most one line feed per character.
pub proof fn lemma_write_seq_y_bound(s: LogState, cs: Seq<char>)
    requires
        state_wf(s),
    ensures
        state_wf(write_seq(s, cs)),
        write_seq(s, cs).y <= s.y + (8 + LINE_SPACING as int) * cs.len(),
        write_seq(s, cs).info == s.info,
    decreases cs.len(),
{
    if cs.len() != 0 {
        lemma_step_y_bound(s, cs[0]);
        lemma_step_wf(s, cs[0]);
        lemma_write_seq_y_bound(step_char(s, cs[0]), cs.drop_first());
        assert((8 + LINE_SPACING as int) * cs.drop_first().len() == (8 + LINE_SPACING as int)
            * cs.len() - (8 + LINE_SPACING as int)) by (nonlinear_arith)
            requires
                cs.drop_first().len() == cs.len() - 1,
                cs.len() >= 1,
        ;
    }
}

/// If the cursor has vertical headroom for one line feed per character and
/// one more, every intermediate position fits in `usize` arithmetic.
pub proof fn lemma_steps_ok_linear(s: LogState, cs: Seq<char>)
    requires
        state_wf(s),
        s.y + (8 + LINE_SPACING as int) * cs.len() + 8 + (LINE_SPACING as int) <= usize::MAX as int,
    ensures
        steps_ok(s, cs),
    decreases cs.len(),
{
    if cs.len() != 0 {
        lemma_step_y_bound(s, cs[0]);
        lemma_step_wf(s, cs[0]);
        assert((8 + LINE_SPACING as int) * cs.drop_first().len() == (8 + LINE_SPACING as int)
            * cs.len() - (8 + LINE_SPACING as int)) by (nonlinear_arith)
            requires
                cs.drop_first().len() == cs.len() - 1,
                cs.len() >= 1,
        ;
        lemma_steps_ok_linear(step_char(s, cs[0]), cs.drop_first());
    }
}

} // verus!
