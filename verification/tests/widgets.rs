use epaper_ui::display::Paint;
use epaper_ui::fonts::{font12, Font};
use epaper_ui::ui::{
    Button, ClickHandler, Component, Label, Marks, NoAction, Rect, TextAlignment, UiError,
};
use std::sync::atomic::{AtomicUsize, Ordering};
use std::sync::Arc;

/// A handler that counts its runs and fails on demand.
struct Counting {
    runs: Arc<AtomicUsize>,
    fails: bool,
}

impl ClickHandler for Counting {
    // What contracts say of the handler; nothing runs it.
    fn state(&self) -> Marks {
        unreachable!()
    }

    fn on_click(&mut self) -> Result<(), UiError> {
        self.runs.fetch_add(1, Ordering::SeqCst);
        if self.fails {
            Err(UiError { message: String::from("the handler failed") })
        } else {
            Ok(())
        }
    }
}

/// A font whose every glyph row has its leftmost pixel set.
fn marker_font() -> &'static Font {
    Box::leak(Box::new(Font { data: Box::leak(Box::new([0x80u8; 95 * 12])), width: 7, height: 12 }))
}

fn plain_font() -> &'static Font {
    Box::leak(Box::new(font12()))
}

fn colored_pixels(paint: &Paint) -> Vec<(u32, u32)> {
    let mut found = Vec::new();
    let stride = paint.get_width() / 8;
    for y in 0..paint.get_height() {
        for x in 0..paint.get_width() {
            let byte = paint.get_image()[(x / 8 + y * stride) as usize];
            if byte & (0x80 >> (x % 8)) == 0 {
                found.push((x, y));
            }
        }
    }
    found
}

#[test]
fn rect_contains_its_left_and_top_edges_only() {
    let rect = Rect::new(10, 20, 5, 3);
    assert_eq!((rect.x, rect.y, rect.width, rect.height), (10, 20, 5, 3));
    assert!(rect.contains(10, 20));
    assert!(rect.contains(14, 22));
    assert!(!rect.contains(15, 20));
    assert!(!rect.contains(10, 23));
    assert!(!rect.contains(9, 20));
    assert!(!rect.contains(10, 19));
}

#[test]
fn rect_without_size_contains_nothing() {
    assert!(!Rect::new(0, 0, 0, 5).contains(0, 0));
    assert!(!Rect::new(0, 0, 5, -1).contains(0, 0));
}

#[test]
fn rect_contains_does_not_overflow() {
    let rect = Rect::new(i32::MAX - 1, i32::MAX - 1, i32::MAX, i32::MAX);
    assert!(rect.contains(i32::MAX, i32::MAX));
    assert!(!rect.contains(i32::MIN, i32::MIN));
}

#[test]
fn label_starts_left_aligned() {
    let label = Label::new(1, 2, 30, 12, "hello", plain_font());
    assert_eq!(label.text(), "hello");
    assert!(matches!(label.alignment(), TextAlignment::Left));
    let bounds = label.bounds();
    assert_eq!((bounds.x, bounds.y, bounds.width, bounds.height), (1, 2, 30, 12));
}

#[test]
fn label_setters() {
    let mut label = Label::new(1, 2, 30, 12, "hello", plain_font());
    label.set_text("bye");
    label.set_alignment(TextAlignment::Right);
    label.set_position(7, 8);
    label.set_size(9, 10);
    assert_eq!(label.text(), "bye");
    assert!(matches!(label.alignment(), TextAlignment::Right));
    let bounds = label.bounds();
    assert_eq!((bounds.x, bounds.y, bounds.width, bounds.height), (7, 8, 9, 10));
}

#[test]
fn label_centering_starts_the_text_at_15() {
    // Ten characters of width 7 are 70 pixels wide: centred in 100, they start at 15.
    let mut label = Label::new(0, 0, 100, 12, "          ", marker_font());
    label.set_alignment(TextAlignment::Center);
    let mut paint = Paint::new(104, 12);
    assert!(label.render(&mut paint).is_ok());
    let first_row: Vec<u32> =
        colored_pixels(&paint).into_iter().filter(|&(_, y)| y == 0).map(|(x, _)| x).collect();
    assert_eq!(first_row, vec![15, 22, 29, 36, 43, 50, 57, 64, 71, 78]);
}

#[test]
fn label_alignment_left_and_right() {
    let mut label = Label::new(4, 0, 100, 12, "  ", marker_font());
    let mut paint = Paint::new(112, 12);
    assert!(label.render(&mut paint).is_ok());
    let row: Vec<u32> =
        colored_pixels(&paint).into_iter().filter(|&(_, y)| y == 5).map(|(x, _)| x).collect();
    assert_eq!(row, vec![4, 11]);
    label.set_alignment(TextAlignment::Right);
    let mut paint = Paint::new(112, 12);
    assert!(label.render(&mut paint).is_ok());
    let row: Vec<u32> =
        colored_pixels(&paint).into_iter().filter(|&(_, y)| y == 5).map(|(x, _)| x).collect();
    assert_eq!(row, vec![90, 97]);
}

#[test]
fn label_is_centred_vertically() {
    let label = Label::new(0, 0, 16, 20, " ", marker_font());
    let mut paint = Paint::new(16, 24);
    assert!(label.render(&mut paint).is_ok());
    let rows: Vec<u32> = colored_pixels(&paint).into_iter().map(|(_, y)| y).collect();
    assert_eq!(rows, (4..16).collect::<Vec<u32>>());
}

#[test]
fn label_wider_than_its_bounds_is_centred_towards_zero() {
    // Three characters are 21 wide in bounds of 10: (10 - 21) / 2 rounds to -5.
    let mut label = Label::new(8, 0, 10, 12, "   ", marker_font());
    label.set_alignment(TextAlignment::Center);
    let mut paint = Paint::new(32, 12);
    assert!(label.render(&mut paint).is_ok());
    let row: Vec<u32> =
        colored_pixels(&paint).into_iter().filter(|&(_, y)| y == 0).map(|(x, _)| x).collect();
    assert_eq!(row, vec![3, 10, 17]);
}

#[test]
fn label_claims_taps_in_its_bounds_and_stays_as_it_was() {
    let mut label = Label::new(0, 0, 10, 10, "x", plain_font());
    assert!(label.handle_tap(5, 5));
    assert!(!label.handle_tap(10, 5));
    assert!(label.update().is_ok());
    assert_eq!(label.text(), "x");
}

#[test]
fn label_is_found_by_the_empty_path_only() {
    let mut label = Label::new(0, 0, 10, 10, "x", plain_font());
    assert!(label.label_at_mut(&[0]).is_none());
    label.label_at_mut(&[]).unwrap().set_text("y");
    assert_eq!(label.text(), "y");
}

#[test]
fn button_starts_enabled_and_without_handler() {
    let mut button: Button = Button::new(1, 2, 40, 16, "go", plain_font());
    assert!(button.is_enabled());
    assert_eq!(button.label(), "go");
    let bounds = button.bounds();
    assert_eq!((bounds.x, bounds.y, bounds.width, bounds.height), (1, 2, 40, 16));
    assert!(button.handle_tap(1, 2));
    assert!(button.update().is_ok());
    assert!(button.label_at_mut(&[]).is_none());
}

#[test]
fn button_setters() {
    let mut button: Button<NoAction> = Button::new(1, 2, 40, 16, "go", plain_font());
    button.set_on_click(NoAction);
    button.set_label("stop");
    button.set_enabled(false);
    button.set_position(3, 4);
    button.set_size(5, 6);
    assert_eq!(button.label(), "stop");
    assert!(!button.is_enabled());
    let bounds = button.bounds();
    assert_eq!((bounds.x, bounds.y, bounds.width, bounds.height), (3, 4, 5, 6));
}

#[test]
fn button_tap_inside_runs_the_handler_once() {
    let runs = Arc::new(AtomicUsize::new(0));
    let mut button = Button::new(0, 0, 50, 20, "ok", plain_font());
    button.set_on_click(Counting { runs: runs.clone(), fails: false });
    assert!(button.handle_tap(10, 10));
    assert_eq!(runs.load(Ordering::SeqCst), 1);
    assert!(button.handle_tap(49, 19));
    assert_eq!(runs.load(Ordering::SeqCst), 2);
}

#[test]
fn button_tap_is_taken_whatever_the_handler_returns() {
    let runs = Arc::new(AtomicUsize::new(0));
    let mut button = Button::new(0, 0, 50, 20, "ok", plain_font());
    button.set_on_click(Counting { runs: runs.clone(), fails: true });
    assert!(button.handle_tap(10, 10));
    assert_eq!(runs.load(Ordering::SeqCst), 1);
}

#[test]
fn button_is_released_when_the_tap_returns() {
    // A released button shows a background face: after a tap it renders as
    // one that was never tapped does.
    let runs = Arc::new(AtomicUsize::new(0));
    let mut tapped = Button::new(0, 0, 16, 8, "", plain_font());
    tapped.set_on_click(Counting { runs: runs.clone(), fails: true });
    assert!(tapped.handle_tap(3, 3));
    let untouched: Button = Button::new(0, 0, 16, 8, "", plain_font());
    let mut first = Paint::new(16, 8);
    let mut second = Paint::new(16, 8);
    assert!(tapped.render(&mut first).is_ok());
    assert!(untouched.render(&mut second).is_ok());
    assert_eq!(first.get_image(), second.get_image());
    assert!(!colored_pixels(&first).contains(&(3, 3)));
}

#[test]
fn button_tap_outside_or_disabled_runs_nothing() {
    let runs = Arc::new(AtomicUsize::new(0));
    let mut button = Button::new(10, 10, 50, 20, "ok", plain_font());
    button.set_on_click(Counting { runs: runs.clone(), fails: false });
    assert!(!button.handle_tap(9, 10));
    assert!(!button.handle_tap(60, 10));
    assert!(!button.handle_tap(10, 30));
    button.set_enabled(false);
    assert!(!button.handle_tap(20, 20));
    assert_eq!(runs.load(Ordering::SeqCst), 0);
    button.set_enabled(true);
    assert!(button.handle_tap(20, 20));
    assert_eq!(runs.load(Ordering::SeqCst), 1);
}

#[test]
fn button_renders_face_border_and_centred_caption() {
    let button: Button = Button::new(0, 0, 16, 16, " ", marker_font());
    let mut paint = Paint::new(16, 16);
    paint.clear(true);
    assert!(button.render(&mut paint).is_ok());
    let pixels = colored_pixels(&paint);
    let mut expected = Vec::new();
    for y in 0..16u32 {
        for x in 0..16u32 {
            let border = x == 0 || x == 15 || y == 0 || y == 15;
            // The caption is 7 wide and 12 high: it starts at (4, 2).
            let caption = x == 4 && (2..14).contains(&y);
            if border || caption {
                expected.push((x, y));
            }
        }
    }
    assert_eq!(pixels, expected);
}

#[test]
fn disabled_button_renders_like_an_enabled_one() {
    let mut button: Button = Button::new(0, 0, 16, 16, " ", marker_font());
    let mut enabled = Paint::new(16, 16);
    assert!(button.render(&mut enabled).is_ok());
    button.set_enabled(false);
    let mut disabled = Paint::new(16, 16);
    assert!(button.render(&mut disabled).is_ok());
    assert_eq!(enabled.get_image(), disabled.get_image());
}

#[test]
fn button_is_found_by_the_empty_path_and_a_label_by_none() {
    let mut button: Button = Button::new(0, 0, 40, 16, "go", plain_font());
    assert!(!button.set_enabled_at(&[0], false));
    assert!(button.is_enabled());
    assert!(button.set_enabled_at(&[], false));
    assert!(!button.is_enabled());
    assert!(!button.set_caption_at(&[0], "no"));
    assert_eq!(button.label(), "go");
    assert!(button.set_caption_at(&[], "stop"));
    assert_eq!(button.label(), "stop");
    let mut label = Label::new(0, 0, 40, 16, "text", plain_font());
    assert!(!label.set_enabled_at(&[], false));
    assert!(!label.set_caption_at(&[], "other"));
    assert_eq!(label.text(), "text");
}
