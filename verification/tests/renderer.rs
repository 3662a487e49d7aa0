use disturbar::renderer::{
    buffer_layout, fit_centered_text, render_fits, render_visible_pixels, solid_bar_pixels, text_width,
    truncate_text_to_width,
};

#[test]
fn truncate_text_to_width_adds_ellipsis_when_needed() {
    assert_eq!(truncate_text_to_width("ABCDEFGHIJ", 60), "AB...");
}

#[test]
fn fit_centered_text_keeps_text_inside_gap_bounds() {
    let (text, x) = fit_centered_text("SONG NAME", 400, 120, 260).expect("center text");
    assert_eq!(text, "SONG NAME");
    assert!(x >= 120);
    assert!(x + text_width(&text) <= 260);
}

#[test]
fn truncate_keeps_text_that_fits() {
    assert_eq!(truncate_text_to_width("ABCDE", 60), "ABCDE");
    assert_eq!(truncate_text_to_width("ABCDE", 0), "");
    assert_eq!(truncate_text_to_width("ABCDEFGHIJ", 35), "");
    assert_eq!(truncate_text_to_width("ABCDEFGHIJ", 47), "");
    assert_eq!(truncate_text_to_width("ABCDEFGHIJ", 48), "A...");
}

#[test]
fn fit_centered_text_is_pushed_into_narrow_gap() {
    // centred on a 400 pixel bar the text would start at 146; the gap
    // starts at 300, so the text starts there.
    let (text, x) = fit_centered_text("SONG NAME", 400, 300, 420).expect("center text");
    assert_eq!(text, "SONG NAME");
    assert_eq!(x, 300);
    assert_eq!(fit_centered_text("SONG", 400, 100, 135), None);
    assert_eq!(fit_centered_text("SONG", 400, 100, 100), None);
}

#[test]
fn text_width_counts_characters() {
    assert_eq!(text_width(""), 0);
    assert_eq!(text_width("VOL 37%"), 84);
    assert_eq!(text_width("\u{1f50a}x"), 24);
}

#[test]
fn render_fills_background_and_draws_text() {
    let bg = [1, 2, 3, 4];
    let fg = [200, 201, 202, 203];
    let pixels = render_visible_pixels(40, 20, bg, fg, "", "", "");
    assert_eq!(pixels.len(), 40 * 20 * 4);
    for px in pixels.chunks(4) {
        assert_eq!(px, &[3, 2, 1, 4]);
    }
    // "-" is a bar in glyph row 2, columns 0..5: drawn from x = 14,
    // y = (20 - 14) / 2 = 3, so rows 7 and 8, columns 14..24.
    let pixels = render_visible_pixels(60, 20, bg, fg, "-", "", "");
    let at = |x: usize, y: usize| &pixels[(y * 60 + x) * 4..(y * 60 + x) * 4 + 4];
    assert_eq!(at(14, 7), &[202, 201, 200, 203]);
    assert_eq!(at(23, 8), &[202, 201, 200, 203]);
    assert_eq!(at(24, 7), &[3, 2, 1, 4]);
    assert_eq!(at(14, 6), &[3, 2, 1, 4]);
    assert_eq!(at(14, 9), &[3, 2, 1, 4]);
}

#[test]
fn buffer_layout_rejects_empty_and_oversized() {
    assert_eq!(buffer_layout(10, 2), Some((40, 80)));
    assert_eq!(buffer_layout(0, 2), None);
    assert_eq!(buffer_layout(10, 0), None);
    assert_eq!(buffer_layout(0x4000_0000, 1), None);
    assert_eq!(buffer_layout(0x1000_0000, 4), None);
}

#[test]
fn solid_bar_pixels_repeats_colour() {
    let pixels = solid_bar_pixels(3, 2, [10, 20, 30, 40]).expect("pixels");
    assert_eq!(pixels.len(), 24);
    for px in pixels.chunks(4) {
        assert_eq!(px, &[30, 20, 10, 40]);
    }
    assert_eq!(solid_bar_pixels(0, 2, [0, 0, 0, 0]), None);
}

#[test]
fn render_fits_checks_buffer_and_text_widths() {
    assert!(render_fits(400, 28, "[1] 2", "SONG", "12:00"));
    assert!(render_fits(0, 0, "", "", ""));
    assert!(!render_fits(0x4000_0000, 1, "", "", ""));
    assert!(!render_fits(0x1000_0000, 4, "", "", ""));
    assert!(render_fits(1, 0x3fff_ffff, "", "", ""));
    assert!(!render_fits(0, 0x8000_0000, "", "", ""));
    assert!(!render_fits(0, 0x8000_000d, "", "", ""));
    assert!(render_fits(0, 0x8000_000e, "", "", ""));
    assert!(render_fits(0, 0x9000_0000, "", "", ""));
    assert!(render_fits(0, 0x7fff_ffff, "", "", ""));
}

#[test]
fn render_with_empty_buffer_gives_no_pixels() {
    let long_left = "A".repeat(2000);
    assert!(render_fits(0, 0, &long_left, "SONG", "12:00"));
    let pixels = render_visible_pixels(0, 0, [0, 0, 0, 0], [9, 9, 9, 9], &long_left, "SONG", "12:00");
    assert!(pixels.is_empty());
}

#[test]
fn render_without_columns_is_empty_for_any_height() {
    for height in [0_u32, 28, 0x7fff_ffff, 0x8000_000e, 0x9000_0000, u32::MAX] {
        let pixels = render_visible_pixels(0, height, [1, 2, 3, 4], [9, 9, 9, 9], "[1]", "SONG", "12:00");
        assert!(pixels.is_empty());
    }
}
