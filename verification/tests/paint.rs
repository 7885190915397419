use fb_console::vga::{background_paint, Color};

#[test]
fn color_values_exact() {
    assert_eq!(Color::Black.color_value(), 0x000000);
    assert_eq!(Color::LightRed.color_value(), 0xFF5555);
    assert_eq!(Color::Yellow.color_value(), 0xFFFF55);
    assert_eq!(Color::White.color_value(), 0xFFFFFF);
    assert_eq!(Color::Blue.color_value(), 0x0000AA);
}

#[test]
fn paints_background_and_white_frame() {
    // 8x8 screen, 4 bytes per pixel, LightRed 0xFF5555: channel bytes are
    // written blue, green, red, alpha.
    let mut buf = vec![0u8; 8 * 8 * 4];
    background_paint(&mut buf, 8, 8, 4, Color::LightRed);
    // (0, 0) is on the frame: white.
    assert_eq!(&buf[0..4], &[0xFF, 0xFF, 0xFF, 0xFF]);
    // (3, 3) is interior: background color.
    let interior = (3 * 8 + 3) * 4;
    assert_eq!(&buf[interior..interior + 4], &[0x55, 0x55, 0xFF, 0xFF]);
    // (4, 4) is interior too; (5, 5) is on the frame again.
    let inner2 = (4 * 8 + 4) * 4;
    assert_eq!(&buf[inner2..inner2 + 4], &[0x55, 0x55, 0xFF, 0xFF]);
    let frame2 = (5 * 8 + 5) * 4;
    assert_eq!(&buf[frame2..frame2 + 4], &[0xFF, 0xFF, 0xFF, 0xFF]);
}

#[test]
fn paint_leaves_partial_tail_untouched() {
    // Six spare bytes past the visible area: one whole chunk, then two
    // leftover bytes. The chunk gets the background color (the frame pass
    // never reaches past the visible pixels), the leftovers keep their
    // value.
    let mut buf = vec![9u8; 8 * 8 * 4 + 6];
    background_paint(&mut buf, 8, 8, 4, Color::Blue);
    assert_eq!(&buf[256..260], &[0xAA, 0x00, 0x00, 0xFF]);
    assert_eq!(&buf[260..], &[9, 9]);
}

#[test]
fn paint_writes_four_bytes_of_wider_pixels() {
    // With 5 bytes per pixel only the first four bytes of each chunk are
    // painted; the fifth keeps its old value.
    let mut buf = vec![9u8; 4 * 4 * 5];
    background_paint(&mut buf, 4, 4, 5, Color::Green);
    // Every pixel of a 4x4 screen is on the three-pixel frame.
    assert_eq!(&buf[0..5], &[0xFF, 0xFF, 0xFF, 0xFF, 9]);
    let last = 15 * 5;
    assert_eq!(&buf[last..last + 5], &[0xFF, 0xFF, 0xFF, 0xFF, 9]);
}
