//! A line of text, aligned in its bounds.

use vstd::prelude::*;
use vstd::string::StrSliceExecFns;
use crate::display::canvas::{Canvas, COLORED};
use crate::display::paint::Paint;
use crate::display::shapes::text_points;
use crate::fonts::Font;
use crate::ui::component::{center, centered, Component, Content, Rect, UiError, WIDEST};

verus! {

/// Where a label's text stands in its bounds, horizontally.
#[derive(Debug, Clone, Copy)]
pub enum TextAlignment {
    Left,
    Center,
    Right,
}

pub struct Label {
    bounds: Rect,
    text: String,
    font: &'static Font,
    alignment: TextAlignment,
}

/// The state of a label.
pub struct LabelView {
    pub bounds: Rect,
    pub text: Seq<char>,
    pub font: Font,
    pub alignment: TextAlignment,
}

/// The width in pixels of `text` in `font`: one glyph width per character.
pub open spec fn text_width(font: Font, text: Seq<char>) -> int {
    font.width * text.len()
}

impl LabelView {
    /// The x coordinate at which the text starts.
    pub open spec fn text_x(self) -> int {
        match self.alignment {
            TextAlignment::Left => self.bounds.x as int,
            TextAlignment::Center => centered(
                self.bounds.x as int,
                self.bounds.width as int,
                text_width(self.font, self.text),
            ),
            TextAlignment::Right => self.bounds.x + self.bounds.width - text_width(
                self.font,
                self.text,
            ),
        }
    }

    /// The y coordinate at which the text starts: it is centred vertically.
    pub open spec fn text_y(self) -> int {
        centered(self.bounds.y as int, self.bounds.height as int, self.font.height as int)
    }

    /// What the label holds besides its bounds.
    pub open spec fn content(self) -> Content {
        Content::Label { text: self.text, font: self.font, alignment: self.alignment }
    }

    /// The canvas after the label was rendered on `canvas`.
    pub open spec fn painted(self, canvas: Canvas) -> Canvas {
        canvas.plot_all(text_points(self.font, self.text, self.text_x(), self.text_y()), COLORED)
    }
}

impl View for Label {
    type V = LabelView;

    closed spec fn view(&self) -> LabelView {
        LabelView {
            bounds: self.bounds,
            text: self.text@,
            font: *self.font,
            alignment: self.alignment,
        }
    }
}

/// The width in pixels of `text` in `font`.
pub(crate) fn measure_text(font: &Font, text: &str) -> (width: i128)
    ensures
        width == text_width(*font, text@),
        0 <= width <= WIDEST,
{
    let count = text.unicode_len();
    assert(0 <= font.width * count <= 255 * 0xffff_ffff_ffff_ffff) by (nonlinear_arith)
        requires
            0 <= font.width <= 255,
            0 <= count <= 0xffff_ffff_ffff_ffff,
    ;
    font.width as i128 * count as i128
}

impl Label {
    /// A left-aligned label.
    pub fn new(x: i32, y: i32, width: i32, height: i32, text: &str, font: &'static Font) -> (label:
        Self)
        ensures
            label@ == (LabelView {
                bounds: Rect { x, y, width, height },
                text: text@,
                font: *font,
                alignment: TextAlignment::Left,
            }),
    {
        Self {
            bounds: Rect::new(x, y, width, height),
            text: text.to_string(),
            font,
            alignment: TextAlignment::Left,
        }
    }

    pub fn set_text(&mut self, text: &str)
        ensures
            final(self)@ == (LabelView { text: text@, ..old(self)@ }),
    {
        self.text = text.to_string();
    }

    pub fn text(&self) -> (text: &str)
        ensures
            text@ == self@.text,
    {
        self.text.as_str()
    }

    pub fn set_alignment(&mut self, alignment: TextAlignment)
        ensures
            final(self)@ == (LabelView { alignment, ..old(self)@ }),
    {
        self.alignment = alignment;
    }

    pub fn alignment(&self) -> (alignment: &TextAlignment)
        ensures
            *alignment == self@.alignment,
    {
        &self.alignment
    }
}

impl Component for Label {
    open spec fn frame(&self) -> Rect {
        self@.bounds
    }

    open spec fn content(&self) -> Content {
        self@.content()
    }

    open spec fn painted(&self, canvas: Canvas) -> Canvas {
        self@.painted(canvas)
    }

    /// A tap leaves a label as it was.
    open spec fn tapped(&self, x: int, y: int, after: Content) -> bool {
        after == self@.content()
    }

    /// An update tick leaves a label as it was.
    open spec fn updated(&self, after: Content) -> bool {
        after == self@.content()
    }

    open spec fn render_outcome(&self, canvas: Canvas) -> Result<(), UiError> {
        Ok(())
    }

    /// A label claims the taps that fall in its bounds, and does nothing with
    /// them.
    open spec fn claims(&self, x: int, y: int) -> bool {
        self@.bounds.covers(x, y)
    }

    open spec fn update_outcome(&self) -> Result<(), UiError> {
        Ok(())
    }

    open spec fn label_at(&self, path: Seq<usize>) -> Option<Label> {
        if path.len() == 0 {
            Some(*self)
        } else {
            None
        }
    }

    fn bounds(&self) -> (bounds: &Rect)
        ensures
            *bounds == self@.bounds,
    {
        &self.bounds
    }

    fn set_position(&mut self, x: i32, y: i32)
        ensures
            final(self)@ == (LabelView { bounds: Rect { x, y, ..old(self)@.bounds }, ..old(self)@ }),
    {
        self.bounds.x = x;
        self.bounds.y = y;
    }

    fn set_size(&mut self, width: i32, height: i32)
        ensures
            final(self)@ == (LabelView {
                bounds: Rect { width, height, ..old(self)@.bounds },
                ..old(self)@
            }),
    {
        self.bounds.width = width;
        self.bounds.height = height;
    }

    fn render(&self, paint: &mut Paint) -> (outcome: Result<(), UiError>) {
        let text_width = measure_text(self.font, self.text.as_str());
        let text_x = match self.alignment {
            TextAlignment::Left => self.bounds.x as i128,
            TextAlignment::Center => center(self.bounds.x, self.bounds.width, text_width),
            TextAlignment::Right => self.bounds.x as i128 + self.bounds.width as i128 - text_width,
        };
        let text_y = center(self.bounds.y, self.bounds.height, self.font.height as i128);
        paint.blit_text(text_x, text_y, self.text.as_str(), self.font, COLORED);
        Ok(())
    }

    fn handle_tap(&mut self, x: i32, y: i32) -> (claimed: bool)
        ensures
            final(self)@ == old(self)@,
    {
        self.bounds.contains(x, y)
    }

    fn update(&mut self) -> (outcome: Result<(), UiError>)
        ensures
            final(self)@ == old(self)@,
    {
        Ok(())
    }

    /// A label is found by the empty path, and is then handed out itself.
    fn label_at_mut(&mut self, path: &[usize]) -> (label: Option<&mut Label>)
        ensures
            label is Some ==> *final(self) == *final(label->0),
            label is None ==> *final(self) == *old(self),
    {
        if path.len() == 0 {
            Some(self)
        } else {
            None
        }
    }

    fn set_enabled_at(&mut self, path: &[usize], enabled: bool) -> (found: bool)
        ensures
            *final(self) == *old(self),
    {
        false
    }

    fn set_caption_at(&mut self, path: &[usize], caption: &str) -> (found: bool)
        ensures
            *final(self) == *old(self),
    {
        false
    }
}

} // verus!
