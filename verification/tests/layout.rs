use epaper_ui::display::{Canvas, Paint, COLORED};
use epaper_ui::fonts::{font12, Font};
use epaper_ui::ui::{
    Button, ClickHandler, Component, Content, Coordinate, Label, Layout, Marks, Orientation, Path,
    Rect, UiError,
};
use std::sync::atomic::{AtomicUsize, Ordering};
use std::sync::Arc;

fn font() -> &'static Font {
    Box::leak(Box::new(font12()))
}

fn frame(component: &dyn Component) -> (i32, i32, i32, i32) {
    let bounds = component.bounds();
    (bounds.x, bounds.y, bounds.width, bounds.height)
}

fn label(width: i32, height: i32) -> Box<Label> {
    Box::new(Label::new(0, 0, width, height, "", font()))
}

struct Counting {
    runs: Arc<AtomicUsize>,
}

impl ClickHandler for Counting {
    // What contracts say of the handler; nothing runs it.
    fn state(&self) -> Marks {
        unreachable!()
    }

    fn on_click(&mut self) -> Result<(), UiError> {
        self.runs.fetch_add(1, Ordering::SeqCst);
        Ok(())
    }
}

/// A component that draws one pixel, counts what it is handed, and fails on demand.
struct Probe {
    bounds: Rect,
    renders: Arc<AtomicUsize>,
    updates: Arc<AtomicUsize>,
    failure: Option<&'static str>,
}

impl Probe {
    fn new(failure: Option<&'static str>) -> Probe {
        Probe {
            bounds: Rect::new(0, 0, 4, 4),
            renders: Arc::new(AtomicUsize::new(0)),
            updates: Arc::new(AtomicUsize::new(0)),
            failure,
        }
    }

    fn outcome(&self) -> Result<(), UiError> {
        match self.failure {
            Some(message) => Err(UiError { message: String::from(message) }),
            None => Ok(()),
        }
    }
}

impl Component for Probe {
    fn bounds(&self) -> &Rect {
        &self.bounds
    }

    fn set_position(&mut self, x: i32, y: i32) {
        self.bounds.x = x;
        self.bounds.y = y;
    }

    fn set_size(&mut self, width: i32, height: i32) {
        self.bounds.width = width;
        self.bounds.height = height;
    }

    fn render(&self, paint: &mut Paint) -> Result<(), UiError> {
        self.renders.fetch_add(1, Ordering::SeqCst);
        paint.draw_pixel(self.bounds.x, self.bounds.y, COLORED);
        self.outcome()
    }

    fn handle_tap(&mut self, x: i32, y: i32) -> bool {
        self.bounds.contains(x, y)
    }

    fn update(&mut self) -> Result<(), UiError> {
        self.updates.fetch_add(1, Ordering::SeqCst);
        self.outcome()
    }

    fn label_at_mut(&mut self, _path: &[usize]) -> Option<&mut Label> {
        None
    }

    fn set_enabled_at(&mut self, _path: &[usize], _enabled: bool) -> bool {
        false
    }

    fn set_caption_at(&mut self, _path: &[usize], _caption: &str) -> bool {
        false
    }

    // What follows is what contracts say of the component; nothing runs it.

    fn frame(&self) -> Rect {
        unreachable!()
    }

    fn content(&self) -> Content {
        unreachable!()
    }

    fn painted(&self, _canvas: Canvas) -> Canvas {
        unreachable!()
    }

    fn render_outcome(&self, _canvas: Canvas) -> Result<(), UiError> {
        unreachable!()
    }

    fn claims(&self, _x: Coordinate, _y: Coordinate) -> bool {
        unreachable!()
    }

    fn tapped(&self, _x: Coordinate, _y: Coordinate, _after: Content) -> bool {
        unreachable!()
    }

    fn update_outcome(&self) -> Result<(), UiError> {
        unreachable!()
    }

    fn updated(&self, _after: Content) -> bool {
        unreachable!()
    }

    fn label_at(&self, _path: Path) -> Option<Label> {
        unreachable!()
    }
}

#[test]
fn new_layout_has_no_children() {
    let layout = Layout::new(1, 2, 30, 40, Orientation::Vertical);
    assert_eq!(frame(&layout), (1, 2, 30, 40));
    assert_eq!(layout.children().len(), 0);
}

#[test]
fn new_layout_spaces_and_pads_by_five() {
    let mut layout = Layout::new(0, 0, 100, 50, Orientation::Horizontal);
    layout.add_child(label(10, 0));
    layout.add_child(label(10, 0));
    assert_eq!(frame(layout.children()[0].as_ref()), (5, 5, 10, 40));
    assert_eq!(frame(layout.children()[1].as_ref()), (20, 5, 10, 40));
}

#[test]
fn flex_distribution_gives_the_flexible_child_55() {
    let mut layout = Layout::new(0, 0, 100, 40, Orientation::Horizontal);
    layout.set_padding(10);
    layout.set_spacing(5);
    layout.add_child(label(20, 0));
    layout.add_child(label(0, 0));
    assert_eq!(frame(layout.children()[0].as_ref()), (10, 10, 20, 20));
    assert_eq!(frame(layout.children()[1].as_ref()), (35, 10, 55, 20));
}

#[test]
fn flex_distribution_vertical() {
    let mut layout = Layout::new(3, 4, 40, 100, Orientation::Vertical);
    layout.set_padding(10);
    layout.set_spacing(5);
    layout.add_child(label(0, 20));
    layout.add_child(label(0, 0));
    assert_eq!(frame(layout.children()[0].as_ref()), (13, 14, 20, 20));
    assert_eq!(frame(layout.children()[1].as_ref()), (13, 39, 20, 55));
}

#[test]
fn flexible_children_share_equally_and_drop_the_remainder() {
    let mut layout = Layout::new(0, 0, 100, 20, Orientation::Horizontal);
    layout.set_padding(0);
    layout.set_spacing(0);
    // All three are added before the space is shared: a child that a reflow
    // has given a size keeps it from then on.
    layout.add_child(label(0, 0));
    assert_eq!(frame(layout.children()[0].as_ref()), (0, 0, 100, 20));
    let mut layout = Layout::new(0, 0, 10, 20, Orientation::Horizontal);
    layout.set_padding(0);
    layout.set_spacing(0);
    layout.add_child(Box::new(Probe::new(None)));
    layout.children_mut()[0].set_size(0, 0);
    layout.add_child(label(0, 0));
    layout.children_mut()[0].set_size(0, 0);
    layout.children_mut()[1].set_size(0, 0);
    layout.add_child(label(0, 0));
    layout.children_mut()[0].set_size(0, 0);
    layout.children_mut()[1].set_size(0, 0);
    layout.children_mut()[2].set_size(0, 0);
    layout.set_spacing(0);
    assert_eq!(frame(layout.children()[0].as_ref()), (0, 0, 3, 20));
    assert_eq!(frame(layout.children()[1].as_ref()), (3, 0, 3, 20));
    assert_eq!(frame(layout.children()[2].as_ref()), (6, 0, 3, 20));
}

#[test]
fn flexible_child_gets_a_negative_share_where_less_than_nothing_is_left() {
    let mut layout = Layout::new(0, 0, 50, 20, Orientation::Horizontal);
    layout.set_padding(10);
    layout.set_spacing(5);
    layout.add_child(label(40, 0));
    layout.add_child(label(0, 0));
    assert_eq!(frame(layout.children()[0].as_ref()), (10, 10, 40, 0));
    assert_eq!(frame(layout.children()[1].as_ref()), (55, 10, -15, 0));
}

#[test]
fn lone_flexible_child_in_a_layout_narrower_than_its_padding() {
    let mut layout = Layout::new(0, 0, 10, 30, Orientation::Horizontal);
    layout.set_padding(10);
    layout.set_spacing(0);
    layout.add_child(label(0, 0));
    assert_eq!(frame(layout.children()[0].as_ref()), (10, 10, -10, 10));
}

#[test]
fn negative_share_is_rounded_towards_zero() {
    let mut layout = Layout::new(0, 0, 3, 10, Orientation::Horizontal);
    layout.set_padding(5);
    layout.set_spacing(0);
    layout.add_child(label(0, 0));
    layout.add_child(label(0, 0));
    layout.children_mut()[0].set_size(0, 0);
    layout.children_mut()[1].set_size(0, 0);
    layout.set_spacing(0);
    // Two children share -7: each gets -3.
    assert_eq!(frame(layout.children()[0].as_ref()), (5, 5, -3, 0));
    assert_eq!(frame(layout.children()[1].as_ref()), (2, 5, -3, 0));
}

#[test]
fn children_stay_inside_a_layout_with_room() {
    let mut layout = Layout::new(7, 9, 200, 60, Orientation::Horizontal);
    layout.set_padding(4);
    layout.set_spacing(3);
    layout.add_child(label(50, 0));
    layout.add_child(label(30, 0));
    layout.add_child(label(0, 0));
    layout.add_child(label(-5, 0));
    // The two flexible children share the room anew.
    layout.children_mut()[2].set_size(0, 0);
    layout.children_mut()[3].set_size(-5, 0);
    layout.set_spacing(3);
    assert_eq!(frame(layout.children()[2].as_ref()), (97, 13, 51, 52));
    assert_eq!(frame(layout.children()[3].as_ref()), (151, 13, 51, 52));
    for child in layout.children() {
        let bounds = child.bounds();
        assert!(bounds.x + bounds.width <= 7 + 200);
        assert!(bounds.y + bounds.height <= 9 + 60);
        assert!(bounds.x >= 7 && bounds.y >= 9);
    }
}

#[test]
fn set_size_lays_the_children_out_again() {
    let mut layout = Layout::new(0, 0, 0, 0, Orientation::Vertical);
    layout.set_padding(2);
    layout.set_spacing(1);
    layout.add_child(label(0, 10));
    layout.add_child(label(0, 0));
    assert_eq!(frame(layout.children()[1].as_ref()), (2, 13, -4, -15));
    layout.set_size(50, 40);
    assert_eq!(frame(&layout), (0, 0, 50, 40));
    assert_eq!(frame(layout.children()[0].as_ref()), (2, 2, 46, 10));
    assert_eq!(frame(layout.children()[1].as_ref()), (2, 13, 46, 25));
}

#[test]
fn set_position_moves_the_children_along() {
    let mut layout = Layout::new(0, 0, 100, 50, Orientation::Horizontal);
    layout.add_child(label(10, 0));
    layout.add_child(label(10, 0));
    layout.set_position(30, -20);
    assert_eq!(frame(&layout), (30, -20, 100, 50));
    assert_eq!(frame(layout.children()[0].as_ref()), (35, -15, 10, 40));
    assert_eq!(frame(layout.children()[1].as_ref()), (50, -15, 10, 40));
}

#[test]
fn positions_that_do_not_fit_are_moved_to_the_nearest_that_does() {
    let mut layout = Layout::new(i32::MAX - 3, 0, 100, 50, Orientation::Horizontal);
    layout.add_child(label(10, 0));
    assert_eq!(frame(layout.children()[0].as_ref()), (i32::MAX, 5, 10, 40));
    layout.set_padding(i32::MAX);
    let bounds = layout.children()[0].bounds();
    assert_eq!((bounds.x, bounds.y, bounds.height), (i32::MAX, i32::MAX, i32::MIN));
}

#[test]
fn nested_layouts_are_laid_out_by_their_parent() {
    let mut inner = Layout::new(0, 0, 0, 30, Orientation::Horizontal);
    inner.set_padding(0);
    inner.set_spacing(0);
    inner.add_child(label(10, 0));
    inner.add_child(label(0, 0));
    let mut outer = Layout::new(0, 0, 100, 100, Orientation::Vertical);
    outer.set_padding(10);
    outer.add_child(Box::new(inner));
    assert_eq!(frame(outer.children()[0].as_ref()), (10, 10, 80, 30));
}

#[test]
fn label_at_mut_follows_the_path() {
    let mut inner = Layout::new(0, 0, 50, 30, Orientation::Horizontal);
    inner.add_child(Box::new(Label::new(0, 0, 10, 0, "first", font())));
    inner.add_child(Box::new(Label::new(0, 0, 10, 0, "second", font())));
    let mut outer = Layout::new(0, 0, 100, 100, Orientation::Vertical);
    outer.add_child(Box::new(Label::new(0, 0, 0, 10, "title", font())));
    outer.add_child(Box::new(inner));
    outer.add_child(Box::new(Probe::new(None)));
    assert_eq!(outer.label_at_mut(&[0]).unwrap().text(), "title");
    assert_eq!(outer.label_at_mut(&[1, 1]).unwrap().text(), "second");
    outer.label_at_mut(&[1, 0]).unwrap().set_text("changed");
    assert_eq!(outer.label_at_mut(&[1, 0]).unwrap().text(), "changed");
    assert!(outer.label_at_mut(&[]).is_none());
    assert!(outer.label_at_mut(&[1]).is_none());
    assert!(outer.label_at_mut(&[2]).is_none());
    assert!(outer.label_at_mut(&[3]).is_none());
    assert!(outer.label_at_mut(&[0, 0]).is_none());
    assert!(outer.label_at_mut(&[1, 2]).is_none());
}

#[test]
fn first_added_child_claims_a_tap_in_the_overlap() {
    let first_runs = Arc::new(AtomicUsize::new(0));
    let second_runs = Arc::new(AtomicUsize::new(0));
    let mut first = Button::new(0, 0, 40, 0, "a", font());
    first.set_on_click(Counting { runs: first_runs.clone() });
    let mut second = Button::new(0, 0, 40, 0, "b", font());
    second.set_on_click(Counting { runs: second_runs.clone() });
    let mut layout = Layout::new(0, 0, 100, 30, Orientation::Horizontal);
    layout.set_padding(0);
    // A negative spacing makes the two buttons overlap from 30 to 40.
    layout.set_spacing(-10);
    layout.add_child(Box::new(first));
    layout.add_child(Box::new(second));
    assert_eq!(frame(layout.children()[0].as_ref()), (0, 0, 40, 30));
    assert_eq!(frame(layout.children()[1].as_ref()), (30, 0, 40, 30));
    assert!(layout.handle_tap(35, 10));
    assert_eq!(first_runs.load(Ordering::SeqCst), 1);
    assert_eq!(second_runs.load(Ordering::SeqCst), 0);
    assert!(layout.handle_tap(45, 10));
    assert_eq!(first_runs.load(Ordering::SeqCst), 1);
    assert_eq!(second_runs.load(Ordering::SeqCst), 1);
}

#[test]
fn a_label_in_front_shields_the_button_behind_it() {
    let runs = Arc::new(AtomicUsize::new(0));
    let mut button = Button::new(0, 0, 40, 0, "b", font());
    button.set_on_click(Counting { runs: runs.clone() });
    let mut layout = Layout::new(0, 0, 100, 30, Orientation::Horizontal);
    layout.set_padding(0);
    layout.set_spacing(-40);
    layout.add_child(label(40, 0));
    layout.add_child(Box::new(button));
    assert!(layout.handle_tap(10, 10));
    assert_eq!(runs.load(Ordering::SeqCst), 0);
}

#[test]
fn a_tap_that_no_child_claims_is_the_layout_s_if_inside() {
    let mut layout = Layout::new(0, 0, 100, 30, Orientation::Horizontal);
    layout.add_child(label(10, 0));
    assert!(layout.handle_tap(50, 10));
    assert!(!layout.handle_tap(100, 10));
    assert!(!layout.handle_tap(50, 30));
    assert!(!Layout::new(0, 0, 10, 10, Orientation::Vertical).handle_tap(-1, 0));
}

#[test]
fn render_paints_the_children_in_order() {
    let mut layout = Layout::new(0, 0, 16, 8, Orientation::Horizontal);
    layout.set_padding(1);
    layout.set_spacing(2);
    layout.add_child(Box::new(Probe::new(None)));
    layout.add_child(Box::new(Probe::new(None)));
    let mut paint = Paint::new(16, 8);
    assert!(layout.render(&mut paint).is_ok());
    // The probes stand at (1, 1) and (7, 1) and mark their corner.
    assert_eq!(paint.get_image()[2], 0b1011_1110);
    let mut empty = Paint::new(16, 8);
    assert!(Layout::new(0, 0, 16, 8, Orientation::Vertical).render(&mut empty).is_ok());
    assert_eq!(empty.get_image(), Paint::new(16, 8).get_image());
}

#[test]
fn render_stops_at_the_first_child_that_fails() {
    let good = Probe::new(None);
    let bad = Probe::new(Some("no ink"));
    let late = Probe::new(None);
    let (good_renders, bad_renders, late_renders) =
        (good.renders.clone(), bad.renders.clone(), late.renders.clone());
    let mut layout = Layout::new(0, 0, 64, 8, Orientation::Horizontal);
    layout.add_child(Box::new(good));
    layout.add_child(Box::new(bad));
    layout.add_child(Box::new(late));
    let mut paint = Paint::new(64, 8);
    let outcome = layout.render(&mut paint);
    assert_eq!(outcome.unwrap_err().message, "no ink");
    assert_eq!(good_renders.load(Ordering::SeqCst), 1);
    assert_eq!(bad_renders.load(Ordering::SeqCst), 1);
    assert_eq!(late_renders.load(Ordering::SeqCst), 0);
}

#[test]
fn update_stops_at_the_first_child_that_fails() {
    let good = Probe::new(None);
    let bad = Probe::new(Some("stale"));
    let worse = Probe::new(Some("later"));
    let (good_updates, bad_updates, worse_updates) =
        (good.updates.clone(), bad.updates.clone(), worse.updates.clone());
    let mut layout = Layout::new(0, 0, 64, 8, Orientation::Horizontal);
    layout.add_child(Box::new(good));
    layout.add_child(label(10, 0));
    layout.add_child(Box::new(bad));
    layout.add_child(Box::new(worse));
    assert_eq!(layout.update().unwrap_err().message, "stale");
    assert_eq!(good_updates.load(Ordering::SeqCst), 1);
    assert_eq!(bad_updates.load(Ordering::SeqCst), 1);
    assert_eq!(worse_updates.load(Ordering::SeqCst), 0);
}

#[test]
fn update_of_healthy_children_succeeds() {
    let mut layout = Layout::new(0, 0, 64, 8, Orientation::Horizontal);
    assert!(layout.update().is_ok());
    let probe = Probe::new(None);
    let updates = probe.updates.clone();
    layout.add_child(Box::new(probe));
    layout.add_child(label(10, 0));
    assert!(layout.update().is_ok());
    assert!(layout.update().is_ok());
    assert_eq!(updates.load(Ordering::SeqCst), 2);
}

#[test]
fn a_failure_deep_in_the_tree_comes_up_unchanged() {
    let mut inner = Layout::new(0, 0, 10, 10, Orientation::Vertical);
    inner.add_child(Box::new(Probe::new(Some("deep"))));
    let mut outer = Layout::new(0, 0, 20, 20, Orientation::Vertical);
    outer.add_child(label(0, 5));
    outer.add_child(Box::new(inner));
    assert_eq!(outer.update().unwrap_err().message, "deep");
    let mut paint = Paint::new(24, 24);
    assert_eq!(outer.render(&mut paint).unwrap_err().message, "deep");
}

#[test]
fn a_button_in_a_nested_layout_is_reached_by_its_path() {
    let runs = Arc::new(AtomicUsize::new(0));
    let mut button = Button::new(0, 0, 40, 0, "go", font());
    button.set_on_click(Counting { runs: runs.clone() });
    let mut inner = Layout::new(0, 0, 0, 0, Orientation::Horizontal);
    inner.set_padding(0);
    inner.add_child(label(10, 0));
    inner.add_child(Box::new(button));
    let mut outer = Layout::new(0, 0, 100, 60, Orientation::Vertical);
    outer.set_padding(0);
    outer.set_spacing(0);
    outer.add_child(label(0, 20));
    outer.add_child(Box::new(inner));
    // The inner layout stands at (0, 20, 100, 40), its button at (15, 20, 40, 40).
    assert!(outer.set_enabled_at(&[1, 1], false));
    assert!(outer.handle_tap(20, 30));
    assert_eq!(runs.load(Ordering::SeqCst), 0);
    assert!(outer.set_enabled_at(&[1, 1], true));
    assert!(outer.handle_tap(20, 30));
    assert_eq!(runs.load(Ordering::SeqCst), 1);
    assert_eq!(frame(outer.children()[1].as_ref()), (0, 20, 100, 40));
}

#[test]
fn set_enabled_at_finds_nothing_but_buttons() {
    let mut inner = Layout::new(0, 0, 0, 0, Orientation::Horizontal);
    inner.add_child(Box::new(Button::<epaper_ui::ui::NoAction>::new(0, 0, 40, 0, "go", font())));
    inner.add_child(Box::new(Probe::new(None)));
    let mut outer = Layout::new(0, 0, 100, 60, Orientation::Vertical);
    outer.add_child(label(0, 20));
    outer.add_child(Box::new(inner));
    assert!(!outer.set_enabled_at(&[], false));
    assert!(!outer.set_enabled_at(&[0], false));
    assert!(!outer.set_enabled_at(&[1], false));
    assert!(!outer.set_enabled_at(&[2], false));
    assert!(!outer.set_enabled_at(&[1, 1], false));
    assert!(!outer.set_enabled_at(&[1, 2], false));
    assert!(!outer.set_enabled_at(&[1, 0, 0], false));
    assert!(outer.set_enabled_at(&[1, 0], false));
}

#[test]
fn set_caption_at_changes_what_the_button_shows() {
    let mut layout = Layout::new(0, 0, 32, 16, Orientation::Horizontal);
    layout.set_padding(0);
    layout.add_child(Box::new(Button::<epaper_ui::ui::NoAction>::new(0, 0, 0, 0, "A", font())));
    let mut alone = Button::<epaper_ui::ui::NoAction>::new(0, 0, 32, 16, "A", font());
    let mut first = Paint::new(32, 16);
    let mut second = Paint::new(32, 16);
    assert!(layout.render(&mut first).is_ok());
    assert!(alone.render(&mut second).is_ok());
    assert_eq!(first.get_image(), second.get_image());
    assert!(layout.set_caption_at(&[0], "!"));
    assert!(!layout.set_caption_at(&[1], "!"));
    assert!(!layout.set_caption_at(&[], "!"));
    alone.set_label("!");
    let mut third = Paint::new(32, 16);
    let mut fourth = Paint::new(32, 16);
    assert!(layout.render(&mut third).is_ok());
    assert!(alone.render(&mut fourth).is_ok());
    assert_eq!(third.get_image(), fourth.get_image());
    assert_ne!(first.get_image(), third.get_image());
}
