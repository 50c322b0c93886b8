//! A button: a framed, centred caption that runs a handler when it is tapped.

use vstd::prelude::*;
use crate::display::canvas::{Canvas, COLORED, UNCOLORED};
use crate::display::paint::Paint;
use crate::display::shapes::{filled_rect_points, rect_points, text_points};
use crate::fonts::Font;
use crate::ui::component::{center, centered, Component, Content, Marks, Rect, UiError};
use crate::ui::label::{measure_text, text_width, Label};

verus! {

/// What a button runs when it is tapped. The handler is owned by its button
/// and runs on the thread that delivers the tap.
pub trait ClickHandler {
    /// What the handler shows of its state.
    spec fn state(&self) -> Marks;

    /// Whether one run of `on_click` can take the handler from the state
    /// `self` to the state `after`.
    open spec fn clicked(&self, after: &Self) -> bool {
        true
    }

    /// Runs the handler once.
    fn on_click(&mut self) -> (outcome: Result<(), UiError>)
        ensures
            old(self).clicked(final(self)),
    ;
}

/// The canvas after a button with the bounds `bounds` and the caption
/// `label` was rendered on `canvas`: the background, then the border, then
/// the caption, centred in both directions. A button that is `inverted` has a
/// foreground face and a background caption.
pub open spec fn button_face(
    bounds: Rect,
    label: Seq<char>,
    font: Font,
    inverted: bool,
    canvas: Canvas,
) -> Canvas {
    let right = bounds.x + bounds.width - 1;
    let bottom = bounds.y + bounds.height - 1;
    let text_x = centered(bounds.x as int, bounds.width as int, text_width(font, label));
    let text_y = centered(bounds.y as int, bounds.height as int, font.height as int);
    canvas.plot_all(
        filled_rect_points(bounds.x as int, bounds.y as int, right, bottom),
        inverted,
    ).plot_all(rect_points(bounds.x as int, bounds.y as int, right, bottom), COLORED).plot_all(
        text_points(font, label, text_x, text_y),
        !inverted,
    )
}

/// Whether one run can take a handler of the kind `H` from showing `before`
/// to showing `after`.
pub open spec fn handler_ran<H: ClickHandler>(before: Marks, after: Marks) -> bool {
    exists|first: H, next: H|
        first.state() == before && next.state() == after && #[trigger] first.clicked(&next)
}

/// The handler of a button that has nothing to do.
#[derive(Debug, Clone, Copy)]
pub struct NoAction;

impl ClickHandler for NoAction {
    open spec fn state(&self) -> Marks {
        Seq::empty()
    }

    open spec fn clicked(&self, after: &Self) -> bool {
        true
    }

    fn on_click(&mut self) -> (outcome: Result<(), UiError>)
        ensures
            outcome is Ok,
    {
        Ok(())
    }
}

pub struct Button<H = NoAction> {
    bounds: Rect,
    label: String,
    font: &'static Font,
    is_pressed: bool,
    on_click: Option<H>,
    is_enabled: bool,
}

/// The state of a button.
pub struct ButtonView<H> {
    pub bounds: Rect,
    pub label: Seq<char>,
    pub font: Font,
    pub pressed: bool,
    pub enabled: bool,
    pub on_click: Option<H>,
}

impl<H: ClickHandler> ButtonView<H> {
    /// What the button holds besides its bounds.
    pub open spec fn content(self) -> Content {
        Content::Button {
            label: self.label,
            font: self.font,
            pressed: self.pressed,
            enabled: self.enabled,
            handler: match self.on_click {
                Some(handler) => Some(handler.state()),
                None => None,
            },
            ran: |before: Marks, after: Marks| handler_ran::<H>(before, after),
        }
    }

    /// Whether one tap at `(x, y)` can leave the button as `after`: a tap
    /// that the button does not take leaves it as it was; one that it takes
    /// leaves it released, its handler having run once.
    pub open spec fn tapped(self, x: int, y: int, after: ButtonView<H>) -> bool {
        if self.takes(x, y) {
            &&& after.bounds == self.bounds
            &&& after.label == self.label
            &&& after.font == self.font
            &&& after.enabled == self.enabled
            &&& !after.pressed
            &&& match self.on_click {
                Some(handler) => after.on_click is Some && handler.clicked(&after.on_click->0),
                None => after.on_click is None,
            }
        } else {
            after == self
        }
    }
}

impl<H> ButtonView<H> {
    /// Whether the button shows its colors swapped: while it is pressed, if it
    /// is enabled.
    pub open spec fn inverted(self) -> bool {
        self.pressed && self.enabled
    }

    /// The canvas after the button was rendered on `canvas`.
    pub open spec fn painted(self, canvas: Canvas) -> Canvas {
        button_face(self.bounds, self.label, self.font, self.inverted(), canvas)
    }

    /// Whether the button takes a tap at `(x, y)`.
    pub open spec fn takes(self, x: int, y: int) -> bool {
        self.enabled && self.bounds.covers(x, y)
    }
}

impl<H: ClickHandler> View for Button<H> {
    type V = ButtonView<H>;

    closed spec fn view(&self) -> ButtonView<H> {
        ButtonView {
            bounds: self.bounds,
            label: self.label@,
            font: *self.font,
            pressed: self.is_pressed,
            enabled: self.is_enabled,
            on_click: self.on_click,
        }
    }
}

impl<H: ClickHandler> Button<H> {
    /// An enabled button without a handler.
    pub fn new(x: i32, y: i32, width: i32, height: i32, label: &str, font: &'static Font) -> (button:
        Self)
        ensures
            button@ == (ButtonView::<H> {
                bounds: Rect { x, y, width, height },
                label: label@,
                font: *font,
                pressed: false,
                enabled: true,
                on_click: None,
            }),
    {
        Self {
            bounds: Rect::new(x, y, width, height),
            label: label.to_string(),
            font,
            is_pressed: false,
            on_click: None,
            is_enabled: true,
        }
    }

    /// Gives the button the handler that a tap runs; a handler it had is dropped.
    pub fn set_on_click(&mut self, callback: H)
        ensures
            final(self)@ == (ButtonView { on_click: Some(callback), ..old(self)@ }),
    {
        self.on_click = Some(callback);
    }

    pub fn set_enabled(&mut self, enabled: bool)
        ensures
            final(self)@ == (ButtonView { enabled, ..old(self)@ }),
    {
        self.is_enabled = enabled;
    }

    pub fn is_enabled(&self) -> (enabled: bool)
        ensures
            enabled == self@.enabled,
    {
        self.is_enabled
    }

    pub fn set_label(&mut self, label: &str)
        ensures
            final(self)@ == (ButtonView { label: label@, ..old(self)@ }),
    {
        self.label = label.to_string();
    }

    pub fn label(&self) -> (label: &str)
        ensures
            label@ == self@.label,
    {
        self.label.as_str()
    }
}

impl<H: ClickHandler> Component for Button<H> {
    open spec fn frame(&self) -> Rect {
        self@.bounds
    }

    open spec fn content(&self) -> Content {
        self@.content()
    }

    open spec fn painted(&self, canvas: Canvas) -> Canvas {
        self@.painted(canvas)
    }

    /// One tap can leave the button holding what a button holds that this
    /// one can be after one tap.
    open spec fn tapped(&self, x: int, y: int, after: Content) -> bool {
        exists|next: ButtonView<H>| #[trigger] self@.tapped(x, y, next) && after == next.content()
    }

    /// An update tick leaves a button as it was.
    open spec fn updated(&self, after: Content) -> bool {
        after == self@.content()
    }

    open spec fn render_outcome(&self, canvas: Canvas) -> Result<(), UiError> {
        Ok(())
    }

    open spec fn claims(&self, x: int, y: int) -> bool {
        self@.takes(x, y)
    }

    open spec fn update_outcome(&self) -> Result<(), UiError> {
        Ok(())
    }

    open spec fn label_at(&self, path: Seq<usize>) -> Option<Label> {
        None
    }

    fn bounds(&self) -> (bounds: &Rect)
        ensures
            *bounds == self@.bounds,
    {
        &self.bounds
    }

    fn set_position(&mut self, x: i32, y: i32)
        ensures
            final(self)@ == (ButtonView {
                bounds: Rect { x, y, ..old(self)@.bounds },
                ..old(self)@
            }),
    {
        self.bounds.x = x;
        self.bounds.y = y;
    }

    fn set_size(&mut self, width: i32, height: i32)
        ensures
            final(self)@ == (ButtonView {
                bounds: Rect { width, height, ..old(self)@.bounds },
                ..old(self)@
            }),
    {
        self.bounds.width = width;
        self.bounds.height = height;
    }

    fn render(&self, paint: &mut Paint) -> (outcome: Result<(), UiError>) {
        let inverted = self.is_enabled && self.is_pressed;
        let bg_color = if inverted {
            COLORED
        } else {
            UNCOLORED
        };
        let left = self.bounds.x as i128;
        let top = self.bounds.y as i128;
        let right = left + self.bounds.width as i128 - 1;
        let bottom = top + self.bounds.height as i128 - 1;
        paint.fill(left, top, right, bottom, bg_color);
        paint.outline(left, top, right, bottom, COLORED);
        let text_color = if inverted {
            UNCOLORED
        } else {
            COLORED
        };
        let text_width = measure_text(self.font, self.label.as_str());
        let text_x = center(self.bounds.x, self.bounds.width, text_width);
        let text_y = center(self.bounds.y, self.bounds.height, self.font.height as i128);
        paint.blit_text(text_x, text_y, self.label.as_str(), self.font, text_color);
        Ok(())
    }

    /// A tap that the button does not take changes nothing. One that it takes
    /// presses the button, runs the handler once, if there is one, and
    /// releases the button again before it returns, whatever the handler
    /// returned.
    fn handle_tap(&mut self, x: i32, y: i32) -> (claimed: bool)
        ensures
            old(self)@.tapped(x as int, y as int, final(self)@),
    {
        if !self.is_enabled || !self.bounds.contains(x, y) {
            assert(old(self)@.tapped(x as int, y as int, self@));
            return false;
        }
        self.is_pressed = true;
        match &mut self.on_click {
            Some(handler) => {
                // What the handler returns is of no account to the button.
                let _ = handler.on_click();
            },
            None => {},
        }
        self.is_pressed = false;
        proof {
            assert(old(self)@.tapped(x as int, y as int, self@));
            match (old(self)@.on_click, self@.on_click) {
                (Some(first), Some(next)) => {
                    assert(first.clicked(&next));
                    assert(handler_ran::<H>(first.state(), next.state()));
                },
                _ => {},
            }
            assert(old(self)@.content().taken(
                old(self)@.bounds,
                x as int,
                y as int,
                self@.content(),
            ));
        }
        true
    }

    fn update(&mut self) -> (outcome: Result<(), UiError>)
        ensures
            final(self)@ == old(self)@,
    {
        Ok(())
    }

    fn label_at_mut(&mut self, path: &[usize]) -> (label: Option<&mut Label>)
        ensures
            *final(self) == *old(self),
    {
        None
    }

    /// A button is found by the empty path.
    fn set_enabled_at(&mut self, path: &[usize], enabled: bool) -> (found: bool)
        ensures
            found == (path@.len() == 0),
            final(self)@ == (if found {
                ButtonView { enabled, ..old(self)@ }
            } else {
                old(self)@
            }),
    {
        if path.len() == 0 {
            self.is_enabled = enabled;
            true
        } else {
            false
        }
    }

    /// A button is found by the empty path.
    fn set_caption_at(&mut self, path: &[usize], caption: &str) -> (found: bool)
        ensures
            found == (path@.len() == 0),
            final(self)@ == (if found {
                ButtonView { label: caption@, ..old(self)@ }
            } else {
                old(self)@
            }),
    {
        if path.len() == 0 {
            self.label = caption.to_string();
            true
        } else {
            false
        }
    }
}

} // verus!
