//! Framebuffer geometry and per-pixel color encoding.

use vstd::prelude::*;

verus! {

/// Byte layout of one pixel in the framebuffer.
#[derive(Clone, Copy, Debug, PartialEq, Eq, Structural)]
pub enum PixelFormat {
    /// Red, green, blue channel order; one byte each, then one unused byte.
    Rgb,
    /// Blue, green, red channel order; one byte each, then one unused byte.
    Bgr,
    /// A single grayscale byte per pixel.
    U8,
    /// An unrecognized layout described by the byte position of each channel.
    Unknown { red_position: u8, green_position: u8, blue_position: u8 },
}

/// Geometry of a linear framebuffer: all sizes are in pixels except
/// `bytes_per_pixel`, and `stride` is the in-memory width of a row,
/// which may exceed the visible `width`.
#[derive(Clone, Copy, Debug, PartialEq, Eq, Structural)]
pub struct FrameBufferInfo {
    pub width: usize,
    pub height: usize,
    pub stride: usize,
    pub bytes_per_pixel: usize,
    pub pixel_format: PixelFormat,
}

/// The full four-byte encoding of one pixel of the given intensity;
/// only the first `bytes_per_pixel` bytes are ever written to memory.
pub open spec fn encode_spec(f: PixelFormat, intensity: u8) -> Seq<u8> {
    match f {
        PixelFormat::Rgb => seq![intensity, intensity, (intensity / 2) as u8, 0u8],
        PixelFormat::Bgr => seq![(intensity / 2) as u8, intensity, intensity, 0u8],
        PixelFormat::U8 => seq![if intensity > 200 { 0x0fu8 } else { 0u8 }, 0u8, 0u8, 0u8],
        PixelFormat::Unknown { red_position, green_position, blue_position } => seq![
            red_position,
            green_position,
            blue_position,
            0u8,
        ],
    }
}

/// Encodes one pixel of the given intensity as four bytes; callers
/// truncate to the framebuffer's `bytes_per_pixel`.
pub fn encode_pixel(f: PixelFormat, intensity: u8) -> (r: [u8; 4])
    ensures
        r@ == encode_spec(f, intensity),
{
    let r: [u8; 4] = match f {
        PixelFormat::Rgb => [intensity, intensity, intensity / 2, 0u8],
        PixelFormat::Bgr => [intensity / 2, intensity, intensity, 0u8],
        PixelFormat::U8 => [if intensity > 200 { 0x0fu8 } else { 0u8 }, 0u8, 0u8, 0u8],
        PixelFormat::Unknown { red_position, green_position, blue_position } => [
            red_position,
            green_position,
            blue_position,
            0u8,
        ],
    };
    proof {
        assert(r@ =~= encode_spec(f, intensity));
    }
    r
}

} // verus!
