use epaper_ui::display::{
    Paint, COLORED, ROTATE_0, ROTATE_180, ROTATE_270, ROTATE_90, UNCOLORED,
};
use epaper_ui::fonts::{font12, Font, FONT12_DATA};

/// Whether the buffer pixel `(x, y)` of a canvas `width` pixels wide shows the foreground.
fn is_colored(image: &[u8], width: u32, x: u32, y: u32) -> bool {
    let at = (x / 8 + y * (width / 8)) as usize;
    image[at] & (0x80 >> (x % 8)) == 0
}

/// The foreground pixels of a canvas, as buffer coordinates in row-major order.
fn colored_pixels(paint: &Paint) -> Vec<(u32, u32)> {
    let mut found = Vec::new();
    for y in 0..paint.get_height() {
        for x in 0..paint.get_width() {
            if is_colored(paint.get_image(), paint.get_width(), x, y) {
                found.push((x, y));
            }
        }
    }
    found
}

#[test]
fn new_canvas_is_all_background() {
    let paint = Paint::new(16, 4);
    assert_eq!(paint.get_width(), 16);
    assert_eq!(paint.get_height(), 4);
    assert_eq!(paint.get_rotate(), ROTATE_0);
    assert_eq!(paint.get_image(), &[0xFF; 8][..]);
}

#[test]
fn with_buffer_keeps_the_bytes() {
    let paint = Paint::with_buffer(vec![0x0F, 0xF0, 0xAA], 8, 3);
    assert_eq!(paint.get_image(), &[0x0F, 0xF0, 0xAA][..]);
    assert_eq!(paint.get_rotate(), ROTATE_0);
}

#[test]
fn clear_fills_every_byte() {
    let mut paint = Paint::new(16, 2);
    paint.clear(COLORED);
    assert_eq!(paint.get_image(), &[0x00; 4][..]);
    paint.clear(UNCOLORED);
    assert_eq!(paint.get_image(), &[0xFF; 4][..]);
}

#[test]
fn clear_colored_then_uncolored_equals_fresh_canvas() {
    let mut paint = Paint::new(24, 5);
    paint.draw_line(0, 0, 20, 4, COLORED);
    paint.clear(COLORED);
    paint.clear(UNCOLORED);
    let once = paint.get_image().to_vec();
    paint.clear(UNCOLORED);
    assert_eq!(paint.get_image(), &once[..]);
    assert_eq!(paint.get_image(), Paint::new(24, 5).get_image());
}

#[test]
fn draw_pixel_packs_most_significant_bit_first() {
    let mut paint = Paint::new(16, 2);
    paint.draw_pixel(0, 0, COLORED);
    paint.draw_pixel(9, 1, COLORED);
    assert_eq!(paint.get_image(), &[0x7F, 0xFF, 0xFF, 0xBF][..]);
    paint.draw_pixel(0, 0, UNCOLORED);
    assert_eq!(paint.get_image(), &[0xFF, 0xFF, 0xFF, 0xBF][..]);
}

#[test]
fn draw_pixel_reads_back_in_every_rotation() {
    // (rotation, where the drawing coordinate (3, 1) lands on a 16 x 8 buffer)
    let cases = [
        (ROTATE_0, (3, 1)),
        (ROTATE_90, (14, 3)),
        (ROTATE_180, (12, 6)),
        (ROTATE_270, (1, 4)),
        (7, (3, 1)),
    ];
    for (rotation, (px, py)) in cases {
        let mut paint = Paint::new(16, 8);
        paint.set_rotate(rotation);
        assert_eq!(paint.get_rotate(), rotation);
        paint.draw_pixel(3, 1, COLORED);
        assert_eq!(colored_pixels(&paint), vec![(px, py)]);
        paint.draw_pixel(3, 1, UNCOLORED);
        assert_eq!(colored_pixels(&paint), vec![]);
    }
}

#[test]
fn draw_pixel_out_of_bounds_changes_nothing() {
    for rotation in [ROTATE_0, ROTATE_90, ROTATE_180, ROTATE_270] {
        let mut paint = Paint::new(16, 8);
        paint.set_rotate(rotation);
        paint.draw_pixel(-1, 0, COLORED);
        paint.draw_pixel(0, -1, COLORED);
        paint.draw_pixel(16, 8, COLORED);
        paint.draw_pixel(i32::MAX, i32::MIN, COLORED);
        paint.draw_pixel(i32::MIN, i32::MAX, COLORED);
        assert_eq!(paint.get_image(), &[0xFF; 16][..]);
    }
}

#[test]
fn draw_pixel_drops_what_a_short_buffer_does_not_hold() {
    let mut paint = Paint::with_buffer(vec![0xFF; 2], 8, 4);
    paint.draw_pixel(0, 1, COLORED);
    paint.draw_pixel(0, 2, COLORED);
    paint.draw_pixel(7, 3, COLORED);
    assert_eq!(paint.get_image(), &[0xFF, 0x7F][..]);
}

#[test]
fn four_quarter_turns_restore_the_mapping() {
    // A quarter turn on a square buffer sends (x, y) to (side - y - 1, x).
    let side = 8;
    let mut point = (2, 5);
    for _ in 0..4 {
        let mut paint = Paint::new(8, 8);
        paint.set_rotate(ROTATE_90);
        paint.draw_pixel(point.0, point.1, COLORED);
        let landed = colored_pixels(&paint);
        assert_eq!(landed, vec![((side - point.1 - 1) as u32, point.0 as u32)]);
        point = (landed[0].0 as i32, landed[0].1 as i32);
    }
    assert_eq!(point, (2, 5));
}

#[test]
fn three_quarter_turn_then_quarter_turn_restores_the_mapping() {
    let mut first = Paint::new(8, 8);
    first.set_rotate(ROTATE_270);
    first.draw_pixel(2, 5, COLORED);
    let landed = colored_pixels(&first);
    assert_eq!(landed, vec![(5, 5)]);
    let mut second = Paint::new(8, 8);
    second.set_rotate(ROTATE_90);
    second.draw_pixel(landed[0].0 as i32, landed[0].1 as i32, COLORED);
    assert_eq!(colored_pixels(&second), vec![(2, 5)]);
}

#[test]
fn draw_line_horizontal_sets_five_pixels() {
    let mut paint = Paint::new(8, 8);
    paint.draw_line(0, 0, 4, 0, COLORED);
    assert_eq!(colored_pixels(&paint), vec![(0, 0), (1, 0), (2, 0), (3, 0), (4, 0)]);
}

#[test]
fn draw_line_vertical_sets_five_pixels() {
    let mut paint = Paint::new(8, 8);
    paint.draw_line(0, 0, 0, 4, COLORED);
    assert_eq!(colored_pixels(&paint), vec![(0, 0), (0, 1), (0, 2), (0, 3), (0, 4)]);
}

#[test]
fn draw_line_is_the_same_from_either_end() {
    let mut forward = Paint::new(16, 16);
    forward.draw_line(1, 2, 12, 7, COLORED);
    let mut backward = Paint::new(16, 16);
    backward.draw_line(12, 7, 1, 2, COLORED);
    assert_eq!(forward.get_image(), backward.get_image());
}

#[test]
fn draw_line_shallow_and_steep() {
    let mut paint = Paint::new(8, 8);
    paint.draw_line(0, 0, 5, 2, COLORED);
    assert_eq!(colored_pixels(&paint), vec![(0, 0), (1, 0), (2, 1), (3, 1), (4, 2), (5, 2)]);
    let mut paint = Paint::new(8, 8);
    paint.draw_line(0, 0, 2, 5, COLORED);
    assert_eq!(colored_pixels(&paint), vec![(0, 0), (0, 1), (1, 2), (1, 3), (2, 4), (2, 5)]);
    let mut paint = Paint::new(8, 8);
    paint.draw_line(3, 3, 0, 0, COLORED);
    assert_eq!(colored_pixels(&paint), vec![(0, 0), (1, 1), (2, 2), (3, 3)]);
    let mut paint = Paint::new(8, 8);
    paint.draw_line(2, 2, 2, 2, COLORED);
    assert_eq!(colored_pixels(&paint), vec![(2, 2)]);
}

#[test]
fn draw_line_with_extreme_coordinates_does_not_overflow() {
    let mut paint = Paint::new(8, 8);
    paint.draw_line(-3, 2, 3, 2, COLORED);
    assert_eq!(colored_pixels(&paint), vec![(0, 2), (1, 2), (2, 2), (3, 2)]);
}

#[test]
fn draw_horizontal_and_vertical_lines() {
    let mut paint = Paint::new(8, 8);
    paint.draw_horizontal_line(2, 1, 3, COLORED);
    paint.draw_vertical_line(6, 4, 2, COLORED);
    paint.draw_horizontal_line(0, 7, 0, COLORED);
    paint.draw_vertical_line(0, 0, -4, COLORED);
    assert_eq!(colored_pixels(&paint), vec![(2, 1), (3, 1), (4, 1), (6, 4), (6, 5)]);
}

#[test]
fn draw_rectangle_outlines_in_any_corner_order() {
    let mut paint = Paint::new(8, 8);
    paint.draw_rectangle(4, 3, 1, 1, COLORED);
    let expected = vec![
        (1, 1), (2, 1), (3, 1), (4, 1),
        (1, 2), (4, 2),
        (1, 3), (2, 3), (3, 3), (4, 3),
    ];
    assert_eq!(colored_pixels(&paint), expected);
    let mut other = Paint::new(8, 8);
    other.draw_rectangle(1, 1, 4, 3, COLORED);
    assert_eq!(paint.get_image(), other.get_image());
}

#[test]
fn draw_filled_rectangle_fills_in_any_corner_order() {
    let mut paint = Paint::new(8, 8);
    paint.draw_filled_rectangle(3, 2, 1, 1, COLORED);
    assert_eq!(colored_pixels(&paint), vec![(1, 1), (2, 1), (3, 1), (1, 2), (2, 2), (3, 2)]);
    paint.draw_filled_rectangle(2, 1, 2, 2, UNCOLORED);
    assert_eq!(colored_pixels(&paint), vec![(1, 1), (3, 1), (1, 2), (3, 2)]);
}

#[test]
fn draw_circle_walks_the_outline() {
    let mut paint = Paint::new(8, 8);
    paint.draw_circle(4, 4, 2, COLORED);
    let expected = vec![
        (3, 2), (4, 2), (5, 2),
        (2, 3), (6, 3),
        (2, 4), (6, 4),
        (2, 5), (6, 5),
        (3, 6), (4, 6), (5, 6),
    ];
    assert_eq!(colored_pixels(&paint), expected);
}

#[test]
fn draw_circle_of_radius_zero_and_one() {
    let mut paint = Paint::new(8, 8);
    paint.draw_circle(4, 4, 0, COLORED);
    assert_eq!(colored_pixels(&paint), vec![(4, 4)]);
    let mut paint = Paint::new(8, 8);
    paint.draw_circle(4, 4, 1, COLORED);
    assert_eq!(colored_pixels(&paint), vec![(4, 3), (3, 4), (5, 4), (4, 5)]);
}

#[test]
fn draw_circle_of_negative_radius_marks_its_two_ends() {
    let mut paint = Paint::new(8, 8);
    paint.draw_circle(4, 4, -3, COLORED);
    assert_eq!(colored_pixels(&paint), vec![(1, 4), (7, 4)]);
}

#[test]
fn draw_filled_circle_fills_the_spans() {
    let mut paint = Paint::new(8, 8);
    paint.draw_filled_circle(4, 4, 2, COLORED);
    let expected = vec![
        (3, 2), (4, 2), (5, 2),
        (2, 3), (3, 3), (4, 3), (5, 3), (6, 3),
        (2, 4), (3, 4), (4, 4), (5, 4), (6, 4),
        (2, 5), (3, 5), (4, 5), (5, 5), (6, 5),
        (3, 6), (4, 6), (5, 6),
    ];
    assert_eq!(colored_pixels(&paint), expected);
}

#[test]
fn draw_filled_circle_of_negative_radius_draws_nothing() {
    let mut paint = Paint::new(8, 8);
    paint.draw_filled_circle(4, 4, -1, COLORED);
    assert_eq!(colored_pixels(&paint), vec![]);
}

#[test]
fn draw_large_circle_ends() {
    let mut paint = Paint::new(64, 64);
    paint.draw_circle(32, 32, 30, COLORED);
    let pixels = colored_pixels(&paint);
    assert!(pixels.contains(&(2, 32)));
    assert!(pixels.contains(&(62, 32)));
    assert!(pixels.contains(&(32, 2)));
    assert!(pixels.contains(&(32, 62)));
    assert!(!pixels.contains(&(32, 32)));
    for (x, y) in pixels {
        let dx = x as i64 - 32;
        let dy = y as i64 - 32;
        let distance = dx * dx + dy * dy;
        assert!(29 * 29 <= distance && distance <= 31 * 31);
    }
}

#[test]
fn font_has_the_printable_ascii_range() {
    let font = font12();
    assert_eq!(font.width, 7);
    assert_eq!(font.height, 12);
    assert!(font.has_char(' '));
    assert!(font.has_char('~'));
    assert!(!font.has_char('\u{1f}'));
    assert!(!font.has_char('\u{7f}'));
    assert!(!font.has_char('é'));
}

#[test]
fn font_glyph_offsets() {
    let font = font12();
    assert_eq!(font.get_char_offset(' '), 0);
    assert_eq!(font.get_char_offset('!'), 12);
    assert_eq!(font.get_char_offset('A'), 33 * 12);
    assert_eq!(font.get_char_offset('~'), 94 * 12);
    assert_eq!(font.get_char_offset('\n'), 0);
}

#[test]
fn font_data_is_zero_past_the_table() {
    let font = font12();
    assert_eq!(font.data, &FONT12_DATA[..]);
    assert_eq!(font.get_data_at(0), 0x00);
    assert_eq!(font.get_data_at(13), 0x10);
    assert_eq!(font.get_data_at(23), 0x00);
    assert_eq!(font.get_data_at(24), 0x00);
    assert_eq!(font.get_data_at(usize::MAX), 0x00);
}

#[test]
fn draw_char_blits_the_set_bits() {
    let font = font12();
    let mut paint = Paint::new(16, 16);
    paint.draw_char_at(2, 1, '!', &font, COLORED);
    // The exclamation mark has bit 3 set in rows 1 to 5 and in row 8.
    let expected = vec![(5, 2), (5, 3), (5, 4), (5, 5), (5, 6), (5, 9)];
    assert_eq!(colored_pixels(&paint), expected);
}

#[test]
fn draw_char_skips_characters_without_glyph() {
    let data = [0xFF; 24];
    let font = Font { data: Box::leak(Box::new(data)), width: 8, height: 2 };
    let mut paint = Paint::new(16, 4);
    paint.draw_char_at(0, 0, '\t', &font, COLORED);
    paint.draw_char_at(0, 0, 'é', &font, COLORED);
    assert_eq!(colored_pixels(&paint), vec![]);
}

#[test]
fn draw_char_treats_columns_past_the_byte_as_blank() {
    let data = [0xFF; 4];
    let font = Font { data: Box::leak(Box::new(data)), width: 12, height: 1 };
    let mut paint = Paint::new(16, 2);
    paint.draw_char_at(0, 0, ' ', &font, COLORED);
    let expected: Vec<(u32, u32)> = (0..8).map(|x| (x, 0)).collect();
    assert_eq!(colored_pixels(&paint), expected);
}

#[test]
fn draw_string_advances_by_the_glyph_width() {
    let font = font12();
    let mut paint = Paint::new(32, 16);
    // A character without glyph moves the cursor on as any other does.
    paint.draw_string_at(1, 0, "!\n!", &font, COLORED);
    let mut expected = Vec::new();
    for row in [1, 2, 3, 4, 5, 8] {
        expected.push((4, row));
        expected.push((18, row));
    }
    expected.sort_by_key(|&(x, y)| (y, x));
    assert_eq!(colored_pixels(&paint), expected);
}

#[test]
fn draw_string_counts_characters_not_bytes() {
    let font = font12();
    let mut paint = Paint::new(32, 16);
    paint.draw_string_at(0, 0, "é!", &font, COLORED);
    let expected: Vec<(u32, u32)> = [1, 2, 3, 4, 5, 8].iter().map(|&row| (10, row)).collect();
    assert_eq!(colored_pixels(&paint), expected);
}

#[test]
fn drawing_respects_the_rotation() {
    let mut paint = Paint::new(8, 8);
    paint.set_rotate(ROTATE_180);
    paint.draw_horizontal_line(0, 0, 3, COLORED);
    assert_eq!(colored_pixels(&paint), vec![(5, 7), (6, 7), (7, 7)]);
}
