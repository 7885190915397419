use fb_console::locked::LockedLogger;
use fb_console::logger::Logger;
use fb_console::pixel::{encode_pixel, FrameBufferInfo, PixelFormat};

fn rgb_info(width: usize, height: usize) -> FrameBufferInfo {
    FrameBufferInfo {
        width,
        height,
        stride: width,
        bytes_per_pixel: 4,
        pixel_format: PixelFormat::Rgb,
    }
}

fn rgb_logger(width: usize, height: usize) -> Logger {
    let info = rgb_info(width, height);
    Logger::new(vec![0u8; width * height * 4], info)
}

fn rgb_pixel(intensity: u8) -> [u8; 4] {
    [intensity, intensity, intensity / 2, 0]
}

/// The pixel bytes of one glyph drawn at `(x, y)`, checked bit by bit
/// against the expected 8x8 bitmap.
fn assert_glyph_at(logger: &Logger, info: FrameBufferInfo, x: usize, y: usize, glyph: [u8; 8]) {
    let buf = logger.buffer();
    for row in 0..8 {
        for col in 0..8 {
            let intensity = if glyph[row] & (1u8 << col) == 0 { 0u8 } else { 255u8 };
            let offset = ((y + row) * info.stride + x + col) * info.bytes_per_pixel;
            let expected = rgb_pixel(intensity);
            assert_eq!(
                &buf[offset..offset + 4],
                &expected[..],
                "pixel at row {row} col {col}"
            );
        }
    }
}

const GLYPH_A: [u8; 8] = [0x0C, 0x1E, 0x33, 0x33, 0x3F, 0x33, 0x33, 0x00];
const GLYPH_B: [u8; 8] = [0x3F, 0x66, 0x66, 0x3E, 0x66, 0x66, 0x3F, 0x00];

#[test]
fn char_advances_one_slot() {
    let mut logger = rgb_logger(64, 32);
    let rendered = logger.write_char('A');
    assert!(rendered);
    assert_eq!(logger.x_pos(), 8);
    assert_eq!(logger.y_pos(), 0);
}

#[test]
fn row_position_stable_without_newline() {
    let mut logger = rgb_logger(64, 32);
    logger.write_str("ABC");
    assert_eq!(logger.y_pos(), 0);
    assert_eq!(logger.x_pos(), 24);
}

#[test]
fn clear_is_idempotent() {
    let mut logger = rgb_logger(64, 32);
    logger.write_str("AB");
    logger.clear();
    let snapshot = logger.buffer().clone();
    let (x1, y1) = (logger.x_pos(), logger.y_pos());
    logger.clear();
    assert_eq!(logger.buffer(), &snapshot);
    assert_eq!((logger.x_pos(), logger.y_pos()), (x1, y1));
    assert_eq!((x1, y1), (0, 0));
    assert!(logger.buffer().iter().all(|&b| b == 0));
}

#[test]
fn encode_distinguishes_intensities() {
    assert_eq!(encode_pixel(PixelFormat::Rgb, 255), [255, 255, 127, 0]);
    assert_eq!(encode_pixel(PixelFormat::Rgb, 0), [0, 0, 0, 0]);
    assert_eq!(encode_pixel(PixelFormat::Bgr, 255), [127, 255, 255, 0]);
    assert_eq!(encode_pixel(PixelFormat::Bgr, 0), [0, 0, 0, 0]);
    assert_eq!(encode_pixel(PixelFormat::U8, 255), [0x0F, 0, 0, 0]);
    assert_eq!(encode_pixel(PixelFormat::U8, 0), [0, 0, 0, 0]);
    for format in [PixelFormat::Rgb, PixelFormat::Bgr, PixelFormat::U8] {
        assert_ne!(encode_pixel(format, 255)[0], encode_pixel(format, 0)[0]);
    }
}

#[test]
fn grayscale_threshold_is_200() {
    assert_eq!(encode_pixel(PixelFormat::U8, 201), [0x0F, 0, 0, 0]);
    assert_eq!(encode_pixel(PixelFormat::U8, 200), [0, 0, 0, 0]);
}

#[test]
fn unknown_format_emits_channel_positions() {
    let format = PixelFormat::Unknown { red_position: 1, green_position: 2, blue_position: 3 };
    assert_eq!(encode_pixel(format, 255), [1, 2, 3, 0]);
    assert_eq!(encode_pixel(format, 0), [1, 2, 3, 0]);
}

#[test]
fn scenario_a_newline_b_triggers_clear() {
    // 64x16 screen: after "A\n" the cursor stands at (0, 8); since
    // 8 >= 16 - 8, drawing "B" must clear first and draw at the origin.
    let info = rgb_info(64, 16);
    let mut logger = Logger::new(vec![0u8; 64 * 16 * 4], info);
    logger.write_str("A\n");
    assert_glyph_at(&logger, info, 0, 0, GLYPH_A);
    assert_eq!((logger.x_pos(), logger.y_pos()), (0, 8));
    logger.write_str("B");
    assert_eq!((logger.x_pos(), logger.y_pos()), (8, 0));
    assert_glyph_at(&logger, info, 0, 0, GLYPH_B);
    // The clear erased the earlier glyph: the buffer equals a fresh
    // console that only ever drew "B".
    let mut fresh = Logger::new(vec![0u8; 64 * 16 * 4], info);
    fresh.write_str("B");
    assert_eq!(logger.buffer(), fresh.buffer());
}

#[test]
fn taller_screen_keeps_both_lines() {
    // With height 32 the same text does not clear: "B" lands at (0, 8).
    let info = rgb_info(64, 32);
    let mut logger = Logger::new(vec![0u8; 64 * 32 * 4], info);
    logger.write_str("A\nB");
    assert_glyph_at(&logger, info, 0, 0, GLYPH_A);
    assert_glyph_at(&logger, info, 0, 8, GLYPH_B);
    assert_eq!((logger.x_pos(), logger.y_pos()), (8, 8));
}

#[test]
fn wraps_once_per_full_row() {
    // 64 pixels hold 8 glyphs per row: 20 glyphs take ceil(20/8) - 1 = 2
    // implicit line feeds.
    let mut logger = rgb_logger(64, 64);
    logger.write_str("XXXXXXXXXXXXXXXXXXXX");
    assert_eq!(logger.y_pos(), 16);
    assert_eq!(logger.x_pos(), 32);
}

#[test]
fn carriage_return_resets_column_only() {
    let mut logger = rgb_logger(64, 32);
    logger.write_str("AB\rC");
    assert_eq!(logger.y_pos(), 0);
    assert_eq!(logger.x_pos(), 8);
}

#[test]
fn unrenderable_char_is_skipped() {
    let mut logger = rgb_logger(64, 32);
    let rendered = logger.write_char('\u{20AC}');
    assert!(!rendered);
    assert_eq!((logger.x_pos(), logger.y_pos()), (0, 0));
    assert!(logger.buffer().iter().all(|&b| b == 0));
}

#[test]
fn glyphs_match_the_font_table() {
    // Drawn pixels must come from the font table, not from anything the
    // renderer made up: cross-check 'Z' against font8x8 itself.
    let info = rgb_info(64, 32);
    let mut logger = Logger::new(vec![0u8; 64 * 32 * 4], info);
    logger.write_char('Z');
    let glyph = font8x8::UnicodeFonts::get(&font8x8::BASIC_FONTS, 'Z').unwrap();
    assert_glyph_at(&logger, info, 0, 0, glyph);
}

#[test]
fn grayscale_renders_one_byte_per_pixel() {
    let info = FrameBufferInfo {
        width: 16,
        height: 16,
        stride: 16,
        bytes_per_pixel: 1,
        pixel_format: PixelFormat::U8,
    };
    let mut logger = Logger::new(vec![0u8; 16 * 16], info);
    logger.write_char('A');
    let buf = logger.buffer();
    for row in 0..8 {
        for col in 0..8 {
            let expected = if GLYPH_A[row] & (1u8 << col) == 0 { 0u8 } else { 0x0Fu8 };
            assert_eq!(buf[row * 16 + col], expected, "pixel at row {row} col {col}");
        }
    }
}

#[test]
fn new_clears_the_buffer() {
    let info = rgb_info(64, 16);
    let logger = Logger::new(vec![7u8; 64 * 16 * 4], info);
    assert!(logger.buffer().iter().all(|&b| b == 0));
    assert_eq!((logger.x_pos(), logger.y_pos()), (0, 0));
}

#[test]
fn vspace_moves_cursor_down_only() {
    let mut logger = rgb_logger(64, 32);
    logger.write_str("A");
    logger.add_vspace(5);
    assert_eq!((logger.x_pos(), logger.y_pos()), (8, 5));
}

#[test]
fn try_write_str_refuses_unbounded_cursor() {
    let mut logger = rgb_logger(64, 32);
    logger.add_vspace(usize::MAX - 20);
    let before = logger.y_pos();
    assert!(!logger.try_write_str("hello"));
    assert_eq!(logger.y_pos(), before);
    assert!(logger.try_write_str(""));
}

#[test]
fn try_write_str_accepts_ordinary_text() {
    let mut logger = rgb_logger(64, 32);
    assert!(logger.try_write_str("hi"));
    assert_eq!(logger.x_pos(), 16);
}

#[test]
fn lock_protocol() {
    let info = rgb_info(64, 32);
    let mut sink = LockedLogger::new(vec![0u8; 64 * 32 * 4], info);
    assert!(!sink.is_locked());
    assert!(sink.try_lock());
    assert!(sink.is_locked());
    assert!(!sink.try_lock());
    sink.unlock();
    assert!(!sink.is_locked());
    assert!(sink.try_lock());
    sink.force_unlock();
    assert!(!sink.is_locked());
}

#[test]
fn log_writes_record_newline_and_spacing() {
    let info = rgb_info(64, 64);
    let mut sink = LockedLogger::new(vec![0u8; 64 * 64 * 4], info);
    assert!(sink.log("A"));
    assert!(!sink.is_locked());
    assert_eq!((sink.inner().x_pos(), sink.inner().y_pos()), (0, 10));
    let mut manual = Logger::new(vec![0u8; 64 * 64 * 4], info);
    manual.write_str("A\n");
    assert_eq!(sink.inner().buffer(), manual.buffer());
}

#[test]
fn back_to_back_logs_equal_sequential_writes() {
    let info = rgb_info(64, 64);
    let mut sink = LockedLogger::new(vec![0u8; 64 * 64 * 4], info);
    assert!(sink.log("AB"));
    assert!(sink.log("CD"));
    let mut manual = Logger::new(vec![0u8; 64 * 64 * 4], info);
    manual.write_str("AB\n");
    manual.add_vspace(2);
    manual.write_str("CD\n");
    manual.add_vspace(2);
    assert_eq!(sink.inner().buffer(), manual.buffer());
    assert_eq!(sink.inner().x_pos(), manual.x_pos());
    assert_eq!(sink.inner().y_pos(), manual.y_pos());
}
