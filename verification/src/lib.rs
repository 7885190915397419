//! A text console that renders characters into a linear pixel framebuffer.
//!
//! The console draws fixed-width 8x8 glyphs, wraps lines, and clears the
//! screen when the cursor would run past the bottom. Pixel colors are
//! encoded per the framebuffer's pixel format.

pub mod font;
pub mod laws;
pub mod locked;
pub mod logger;
pub mod pixel;
pub mod vga;
