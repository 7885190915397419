//! Laws the console obeys, stated over the abstract state and proved once
//! and for all.

use vstd::prelude::*;

use vstd::arithmetic::div_mod::{
    lemma_div_is_ordered, lemma_div_pos_is_pos, lemma_fundamental_div_mod,
    lemma_fundamental_div_mod_converse, lemma_mod_bound,
};

use crate::font::glyph_of;
use crate::logger::{
    blit_n, clear_spec, fb_area, glyph_intensity, info_wf, lemma_blit_n_len, lemma_step_wf,
    px_offset, px_write_spec, state_wf, step_char, write_seq, LogState, LINE_SPACING,
};
use crate::pixel::{encode_spec, FrameBufferInfo, PixelFormat};

verus! {

/// Rendering a character the font covers advances the cursor by exactly one
/// glyph slot and leaves the vertical position unchanged, provided neither
/// a wrap nor a clear is triggered first.
pub proof fn lemma_char_advances(s: LogState, c: char)
    requires
        state_wf(s),
        c != '\n',
        c != '\r',
        s.x < s.info.width,
        s.y < s.info.height - 8,
    ensures
        glyph_of(c) is Some ==> step_char(s, c).x == s.x + 8 && step_char(s, c).y == s.y,
{
}

/// Rendering a string with no line feed or carriage return, from a cursor
/// with room for it on the current line, keeps the vertical position
/// unchanged and advances the cursor one slot per character.
pub proof fn lemma_row_stays(s: LogState, cs: Seq<char>)
    requires
        state_wf(s),
        s.y < s.info.height - 8,
        s.x + 8 * cs.len() <= s.info.width,
        forall|i: int| 0 <= i < cs.len() ==> cs[i] != '\n' && cs[i] != '\r',
    ensures
        (forall|i: int| 0 <= i < cs.len() ==> glyph_of(#[trigger] cs[i]) is Some) ==> (write_seq(
            s,
            cs,
        ).y == s.y && write_seq(s, cs).x == s.x + 8 * cs.len()),
    decreases cs.len(),
{
    if forall|i: int| 0 <= i < cs.len() ==> glyph_of(#[trigger] cs[i]) is Some {
        if cs.len() != 0 {
            let s1 = step_char(s, cs[0]);
            lemma_step_wf(s, cs[0]);
            assert(s1.x == s.x + 8 && s1.y == s.y && s1.info == s.info);
            let rest = cs.drop_first();
            assert(forall|i: int|
                0 <= i < rest.len() ==> #[trigger] rest[i] == cs[i + 1] && rest[i] != '\n'
                    && rest[i] != '\r');
            assert(forall|i: int| 0 <= i < rest.len() ==> glyph_of(#[trigger] rest[i]) is Some);
            lemma_row_stays(s1, rest);
            assert(8 * cs.len() == 8 * rest.len() + 8);
        }
    }
}

/// Filling rows from slot `j` of the current line: writing `k` characters
/// with no line feed or carriage return wraps exactly `(j + k - 1) / slots`
/// times, where `slots` is the number of glyphs per row, and leaves the
/// cursor that many lines down in the slot after the last glyph.
proof fn lemma_fill_rows(s: LogState, cs: Seq<char>, j: int)
    requires
        state_wf(s),
        s.info.width % 8 == 0,
        s.x == 8 * j,
        0 <= j <= s.info.width as int / 8,
        1 <= cs.len(),
        forall|i: int| 0 <= i < cs.len() ==> cs[i] != '\n' && cs[i] != '\r',
        s.y + 8 * ((j + cs.len() - 1) / (s.info.width as int / 8)) < s.info.height - 8,
    ensures
        (forall|i: int| 0 <= i < cs.len() ==> glyph_of(#[trigger] cs[i]) is Some) ==> {
            let slots = s.info.width as int / 8;
            let nl = (j + cs.len() - 1) / slots;
            write_seq(s, cs).y == s.y + 8 * nl && write_seq(s, cs).x == 8 * (j + cs.len() - nl
                * slots)
        },
    decreases cs.len(),
{
    let slots = s.info.width as int / 8;
    assert(s.info.width as int == 8 * slots);
    if forall|i: int| 0 <= i < cs.len() ==> glyph_of(#[trigger] cs[i]) is Some {
        let c = cs[0];
        let rest = cs.drop_first();
        assert(glyph_of(c) is Some);
        assert(forall|i: int|
            0 <= i < rest.len() ==> #[trigger] rest[i] == cs[i + 1] && rest[i] != '\n'
                && rest[i] != '\r' && glyph_of(rest[i]) is Some);
        lemma_step_wf(s, c);
        if j < slots {
            // No wrap: the glyph lands in slot `j` of the current line.
            lemma_div_pos_is_pos(j + cs.len() - 1, slots);
            let s1 = step_char(s, c);
            assert(s1.x == 8 * (j + 1) && s1.y == s.y && s1.info == s.info);
            if rest.len() == 0 {
                lemma_fundamental_div_mod_converse(j, slots, 0, j);
            } else {
                lemma_fill_rows(s1, rest, j + 1);
            }
        } else {
            // The line is full: one implicit line feed, then the glyph
            // lands in the first slot of the next line.
            lemma_fundamental_div_mod(cs.len() - 1, slots);
            lemma_mod_bound(cs.len() - 1, slots);
            lemma_div_pos_is_pos(cs.len() - 1, slots);
            let q = (cs.len() - 1) / slots;
            let r = (cs.len() - 1) % slots;
            assert(slots * (q + 1) == slots * q + slots) by (nonlinear_arith);
            lemma_fundamental_div_mod_converse(j + cs.len() - 1, slots, q + 1, r);
            assert((j + cs.len() - 1) / slots == q + 1);
            let s2 = step_char(s, c);
            assert(s2.x == 8 && s2.y == s.y + 8 + (LINE_SPACING as int) && s2.info == s.info);
            if rest.len() == 0 {
                assert(q == 0);
            } else {
                lemma_fill_rows(s2, rest, 1);
                let nlr = (1 + rest.len() - 1) / slots;
                assert(nlr == q);
                assert((q + 1) * slots == q * slots + slots) by (nonlinear_arith);
            }
        }
    }
}

/// Writing a string of `len` glyph characters from the left edge of a line
/// wraps exactly `ceil(len / slots) - 1` times, `slots` being `width / 8`:
/// one implicit line feed per full row, none for the last, and none of them
/// a clear while the rows fit on the screen.
pub proof fn lemma_wrap_count(s: LogState, cs: Seq<char>)
    requires
        state_wf(s),
        s.info.width % 8 == 0,
        s.x == 0,
        1 <= cs.len(),
        forall|i: int| 0 <= i < cs.len() ==> cs[i] != '\n' && cs[i] != '\r',
        s.y + 8 * ((cs.len() - 1) / (s.info.width as int / 8)) < s.info.height - 8,
    ensures
        (forall|i: int| 0 <= i < cs.len() ==> glyph_of(#[trigger] cs[i]) is Some) ==> {
            let slots = s.info.width as int / 8;
            let nl = (cs.len() - 1) / slots;
            write_seq(s, cs).y == s.y + 8 * nl && write_seq(s, cs).x == 8 * (cs.len() - nl * slots)
        },
{
    lemma_fill_rows(s, cs, 0);
}

/// Clearing is idempotent: clearing twice leaves the same all-zero buffer
/// and origin cursor as clearing once.
pub proof fn lemma_clear_idempotent(s: LogState)
    ensures
        clear_spec(clear_spec(s)) == clear_spec(s),
{
    assert(clear_spec(clear_spec(s)).fb =~= clear_spec(s).fb);
    assert(clear_spec(clear_spec(s)) =~= clear_spec(s));
}

/// For each of the three defined pixel formats, the encodings of full and
/// zero intensity differ within the bytes actually written, whatever the
/// `bytes_per_pixel` truncation.
pub proof fn lemma_encode_distinguishes(f: PixelFormat, bpp: int)
    requires
        f is Rgb || f is Bgr || f is U8,
        1 <= bpp <= 4,
    ensures
        encode_spec(f, 255).subrange(0, bpp) != encode_spec(f, 0).subrange(0, bpp),
{
    assert(encode_spec(f, 255).subrange(0, bpp)[0] != encode_spec(f, 0).subrange(0, bpp)[0]);
}

/// The value byte `i` holds after a glyph is drawn with its top-left
/// corner at column `x`, row `y`: a byte of a pixel inside the glyph's 8x8
/// rectangle carries the encoding of that pixel's bit, every other byte
/// keeps its old value.
pub open spec fn drawn_byte(
    fb: Seq<u8>,
    info: FrameBufferInfo,
    x: int,
    y: int,
    glyph: Seq<u8>,
    i: int,
) -> u8 {
    partial_drawn_byte(fb, info, x, y, glyph, i, 64)
}

/// As `drawn_byte`, after only the first `n` of the 64 pixels.
pub open spec fn partial_drawn_byte(
    fb: Seq<u8>,
    info: FrameBufferInfo,
    x: int,
    y: int,
    glyph: Seq<u8>,
    i: int,
    n: int,
) -> u8 {
    let b = info.bytes_per_pixel as int;
    let st = info.stride as int;
    let p = i / b;
    let row = p / st;
    let col = p % st;
    if y <= row < y + 8 && x <= col < x + 8 && 8 * (row - y) + (col - x) < n {
        encode_spec(info.pixel_format, glyph_intensity(glyph[row - y], col - x))[i - p * b]
    } else {
        fb[i]
    }
}

proof fn lemma_blit_n_pointwise(
    fb: Seq<u8>,
    info: FrameBufferInfo,
    x: int,
    y: int,
    glyph: Seq<u8>,
    n: int,
)
    requires
        info_wf(info),
        fb_area(info) <= fb.len(),
        0 <= x,
        x + 8 <= info.stride,
        0 <= y,
        y + 8 <= info.height,
        glyph.len() == 8,
        0 <= n <= 64,
    ensures
        forall|i: int|
            0 <= i < fb.len() ==> blit_n(fb, info, x, y, glyph, n)[i] == partial_drawn_byte(
                fb,
                info,
                x,
                y,
                glyph,
                i,
                n,
            ),
    decreases n,
{
    let st = info.stride as int;
    let b = info.bytes_per_pixel as int;
    if n > 0 {
        lemma_blit_n_pointwise(fb, info, x, y, glyph, n - 1);
        lemma_blit_n_len(fb, info, x, y, glyph, n - 1);
        let k = n - 1;
        let r = k / 8;
        let c = k % 8;
        lemma_div_pos_is_pos(k, 8);
        lemma_div_is_ordered(k, 63, 8);
        lemma_mod_bound(k, 8);
        let pk = (y + r) * st + (x + c);
        let off = pk * b;
        lemma_fundamental_div_mod_converse(pk, st, y + r, x + c);
        let prev = blit_n(fb, info, x, y, glyph, k);
        assert(prev.len() == fb.len());
        let val = glyph_intensity(glyph[r], c);
        assert(blit_n(fb, info, x, y, glyph, n) == px_write_spec(prev, info, x + c, y + r, val));
        assert(px_offset(info, x + c, y + r) == off);
        assert(8 * r + c == k);
        assert forall|i: int| 0 <= i < fb.len() implies blit_n(fb, info, x, y, glyph, n)[i]
            == partial_drawn_byte(fb, info, x, y, glyph, i, n) by {
            assert(blit_n(fb, info, x, y, glyph, n)[i] == (if off <= i < off + b {
                encode_spec(info.pixel_format, val)[i - off]
            } else {
                prev[i]
            }));
            lemma_fundamental_div_mod(i, b);
            lemma_mod_bound(i, b);
            let p = i / b;
            lemma_fundamental_div_mod(p, st);
            lemma_mod_bound(p, st);
            let row = p / st;
            let col = p % st;
            assert(b * pk == pk * b) by (nonlinear_arith);
            assert(st * row == row * st) by (nonlinear_arith);
            if off <= i < off + b {
                lemma_fundamental_div_mod_converse(i, b, pk, i - off);
                assert(p == pk && row == y + r && col == x + c);
                assert(partial_drawn_byte(fb, info, x, y, glyph, i, n) == encode_spec(
                    info.pixel_format,
                    val,
                )[i - off]);
            } else {
                if p == pk {
                    assert(b * p <= i < b * p + b);
                    assert(false);
                }
                if y <= row < y + 8 && x <= col < x + 8 {
                    assert(p == st * row + col);
                    if row == y + r && col == x + c {
                        assert(p == pk);
                        assert(false);
                    }
                    assert(8 * (row - y) + (col - x) != k);
                }
                assert(prev[i] == partial_drawn_byte(fb, info, x, y, glyph, i, n - 1));
                assert(partial_drawn_byte(fb, info, x, y, glyph, i, n) == partial_drawn_byte(
                    fb,
                    info,
                    x,
                    y,
                    glyph,
                    i,
                    n - 1,
                ));
            }
        }
    }
}

/// Drawing a glyph touches exactly the bytes of its 8x8 pixel rectangle:
/// each of those carries the encoding of its bit of the glyph, and every
/// byte outside the rectangle keeps its old value.
pub proof fn lemma_draw_glyph_pointwise(
    fb: Seq<u8>,
    info: FrameBufferInfo,
    x: int,
    y: int,
    glyph: Seq<u8>,
)
    requires
        info_wf(info),
        fb_area(info) <= fb.len(),
        0 <= x,
        x + 8 <= info.stride,
        0 <= y,
        y + 8 <= info.height,
        glyph.len() == 8,
    ensures
        forall|i: int|
            0 <= i < fb.len() ==> blit_n(fb, info, x, y, glyph, 64)[i] == drawn_byte(
                fb,
                info,
                x,
                y,
                glyph,
                i,
            ),
{
    lemma_blit_n_pointwise(fb, info, x, y, glyph, 64);
}

/// Writing two character streams back to back leaves exactly the state of
/// writing their concatenation: consecutive writes compose and cannot
/// interleave.
pub proof fn lemma_write_seq_append(s: LogState, a: Seq<char>, b: Seq<char>)
    ensures
        write_seq(s, a + b) == write_seq(write_seq(s, a), b),
    decreases a.len(),
{
    if a.len() == 0 {
        assert(a + b =~= b);
    } else {
        assert((a + b)[0] == a[0]);
        assert((a + b).drop_first() =~= a.drop_first() + b);
        lemma_write_seq_append(step_char(s, a[0]), a.drop_first(), b);
    }
}

} // verus!
