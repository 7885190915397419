//! The boot-time background fill: a palette of named colors and a one-shot
//! paint of the whole screen with a white frame along its edge.

use vstd::prelude::*;

use vstd::arithmetic::div_mod::{
    lemma_div_is_ordered, lemma_div_multiples_vanish, lemma_fundamental_div_mod, lemma_mod_bound,
};
use vstd::arithmetic::mul::lemma_mul_inequality;

verus! {

/// A classic sixteen-entry text-mode palette.
#[derive(Clone, Copy, Debug, PartialEq, Eq, Structural)]
pub enum Color {
    Black,
    Blue,
    Green,
    Cyan,
    Red,
    Magenta,
    Brown,
    LightGray,
    DarkGray,
    LightBlue,
    LightGreen,
    LightCyan,
    LightRed,
    Pink,
    Yellow,
    White,
}

/// The 24-bit `0xRRGGBB` value of each palette color.
pub open spec fn color_code(c: Color) -> u32 {
    match c {
        Color::Black => 0x000000u32,
        Color::Blue => 0x0000AAu32,
        Color::Green => 0x00AA00u32,
        Color::Cyan => 0x00AAAAu32,
        Color::Red => 0xAA0000u32,
        Color::Magenta => 0xAA00AAu32,
        Color::Brown => 0xAA5500u32,
        Color::LightGray => 0xAAAAAAu32,
        Color::DarkGray => 0x555555u32,
        Color::LightBlue => 0x5555FFu32,
        Color::LightGreen => 0x55FF55u32,
        Color::LightCyan => 0x55FFFFu32,
        Color::LightRed => 0xFF5555u32,
        Color::Pink => 0xFF55FFu32,
        Color::Yellow => 0xFFFF55u32,
        Color::White => 0xFFFFFFu32,
    }
}

impl Color {
    /// The 24-bit `0xRRGGBB` value of this palette color.
    pub fn color_value(&self) -> (r: u32)
        ensures
            r == color_code(*self),
    {
        match self {
            Color::Black => 0x000000,
            Color::Blue => 0x0000AA,
            Color::Green => 0x00AA00,
            Color::Cyan => 0x00AAAA,
            Color::Red => 0xAA0000,
            Color::Magenta => 0xAA00AA,
            Color::Brown => 0xAA5500,
            Color::LightGray => 0xAAAAAA,
            Color::DarkGray => 0x555555,
            Color::LightBlue => 0x5555FF,
            Color::LightGreen => 0x55FF55,
            Color::LightCyan => 0x55FFFF,
            Color::LightRed => 0xFF5555,
            Color::Pink => 0xFF55FF,
            Color::Yellow => 0xFFFF55,
            Color::White => 0xFFFFFF,
        }
    }
}

/// The four bytes one background pixel is painted with: the color's blue,
/// green and red channel bytes, then full alpha.
pub open spec fn color_bytes(c: Color) -> Seq<u8> {
    seq![
        (color_code(c) & 0xFF) as u8,
        ((color_code(c) >> 8) & 0xFF) as u8,
        ((color_code(c) >> 16) & 0xFF) as u8,
        0xFFu8,
    ]
}

/// Whether the pixel at `row`, `col` lies on the three-pixel frame along
/// the screen's edge.
pub open spec fn border_pixel(w: int, h: int, row: int, col: int) -> bool {
    row < 3 || row > h - 4 || col < 3 || col > w - 4
}

/// The framebuffer after the background fill: the first four bytes of every
/// whole pixel chunk carry the background color, the frame at the edge is
/// white, and all remaining bytes keep their old value.
pub open spec fn painted_fb(fb: Seq<u8>, w: int, h: int, bpp: int, c: Color) -> Seq<u8> {
    Seq::new(
        fb.len(),
        |i: int|
            {
                let p = i / bpp;
                let k = i % bpp;
                if p < w * h && k < 4 && border_pixel(w, h, p / w, p % w) {
                    255u8
                } else if i < (fb.len() as int / bpp) * bpp && k < 4 {
                    color_bytes(c)[k]
                } else {
                    fb[i]
                }
            },
    )
}

/// A byte index is below a pixel count times the pixel size exactly when
/// its pixel index is below that count.
proof fn lemma_div_lt_iff(j: int, m: int, d: int)
    requires
        0 <= j,
        1 <= d,
        0 <= m,
    ensures
        (j / d < m) <==> (j < m * d),
{
    lemma_fundamental_div_mod(j, d);
    lemma_mod_bound(j, d);
    if j / d < m {
        assert(j < m * d) by (nonlinear_arith)
            requires
                j == d * (j / d) + j % d,
                j % d < d,
                j / d <= m - 1,
                1 <= d,
        ;
    }
    if j < m * d {
        assert(j / d < m) by (nonlinear_arith)
            requires
                j == d * (j / d) + j % d,
                0 <= j % d,
                j < m * d,
                1 <= d,
        ;
    }
}

/// Paints the whole buffer with the background color, four bytes per pixel
/// chunk, then draws a white three-pixel frame along the screen's edge.
pub fn background_paint(
    framebuffer: &mut Vec<u8>,
    width: usize,
    height: usize,
    bytes_per_pixel: usize,
    color: Color,
)
    requires
        4 <= bytes_per_pixel,
        4 <= width,
        4 <= height,
        width * height * bytes_per_pixel <= old(framebuffer)@.len(),
        old(framebuffer)@.len() <= usize::MAX,
    ensures
        final(framebuffer)@ == painted_fb(
            old(framebuffer)@,
            width as int,
            height as int,
            bytes_per_pixel as int,
            color,
        ),
{
    let ghost w = width as int;
    let ghost h = height as int;
    let ghost bpp = bytes_per_pixel as int;
    let color_value = color.color_value();
    proof {
        assert(color_value & 0xFF < 256) by (bit_vector);
        assert((color_value >> 8) & 0xFF < 256) by (bit_vector);
        assert((color_value >> 16) & 0xFF < 256) by (bit_vector);
    }
    let blue = (color_value & 0xFF) as u8;
    let green = ((color_value >> 8) & 0xFF) as u8;
    let red = ((color_value >> 16) & 0xFF) as u8;
    let alpha: u8 = 0xFF;
    let cb: [u8; 4] = [blue, green, red, alpha];
    proof {
        assert(cb@ =~= color_bytes(color));
    }
    let len = framebuffer.len();
    proof {
        lemma_fundamental_div_mod(len as int, bpp);
        lemma_mod_bound(len as int, bpp);
        assert((len as int / bpp) * bpp == bpp * (len as int / bpp)) by (nonlinear_arith);
        assert((len as int / bpp) * bpp <= len as int);
    }
    let chunk_end = (len / bytes_per_pixel) * bytes_per_pixel;
    let mut i: usize = 0;
    while i < chunk_end
        invariant
            4 <= bytes_per_pixel,
            bpp == bytes_per_pixel as int,
            len == framebuffer@.len(),
            chunk_end as int == (len as int / bpp) * bpp,
            chunk_end <= len,
            i <= chunk_end,
            cb@ == color_bytes(color),
            forall|j: int|
                0 <= j < i && j % bpp < 4 ==> framebuffer@[j] == color_bytes(color)[j % bpp],
            forall|j: int|
                0 <= j < framebuffer@.len() && !(j < i && j % bpp < 4) ==> framebuffer@[j] == old(
                    framebuffer,
                )@[j],
        decreases chunk_end - i,
    {
        let k = i % bytes_per_pixel;
        if k < 4 {
            framebuffer[i] = cb[k];
        }
        i += 1;
    }
    let ghost mid = framebuffer@;
    proof {
        assert(0 <= w * h && w * h <= w * h * bpp) by (nonlinear_arith)
            requires
                1 <= bpp,
                1 <= w,
                1 <= h,
        ;
    }
    let area_px = width * height;
    proof {
        assert(w * h * bpp == bpp * (w * h)) by (nonlinear_arith);
        lemma_div_multiples_vanish(w * h, bpp);
        lemma_div_is_ordered(w * h * bpp, len as int, bpp);
        lemma_mul_inequality(w * h, len as int / bpp, bpp);
    }
    let area = area_px * bytes_per_pixel;
    let mut i2: usize = 0;
    while i2 < area
        invariant
            4 <= bytes_per_pixel,
            4 <= width,
            4 <= height,
            bpp == bytes_per_pixel as int,
            w == width as int,
            h == height as int,
            len == framebuffer@.len(),
            mid.len() == len,
            area as int == w * h * bpp,
            area <= len,
            i2 <= area,
            forall|j: int|
                0 <= j < framebuffer@.len() ==> framebuffer@[j] == (if j < i2 && j % bpp < 4
                    && border_pixel(w, h, (j / bpp) / w, (j / bpp) % w) {
                    255u8
                } else {
                    mid[j]
                }),
        decreases area - i2,
    {
        let p = i2 / bytes_per_pixel;
        let k = i2 % bytes_per_pixel;
        let row = p / width;
        let col = p % width;
        if k < 4 && (row < 3 || row > height - 4 || col < 3 || col > width - 4) {
            framebuffer[i2] = 0xFF;
        }
        i2 += 1;
    }
    proof {
        let fbold = old(framebuffer)@;
        let target = painted_fb(fbold, w, h, bpp, color);
        assert forall|j: int| 0 <= j < framebuffer@.len() implies framebuffer@[j] == target[j] by {
            lemma_div_lt_iff(j, w * h, bpp);
        }
        assert(framebuffer@ =~= target);
    }
}

} // verus!
