//! Geometry, and the capability that every node of the component tree has.

use vstd::prelude::*;
use crate::display::canvas::Canvas;
use crate::display::paint::Paint;
use crate::fonts::Font;
use crate::ui::button::button_face;
use crate::ui::label::{Label, LabelView, TextAlignment};
use crate::ui::layout::Orientation;

verus! {

/// The position and size of a component. A width or height that is not
/// positive stands for "not decided yet": a layout decides it.
#[derive(Debug, Clone, Copy)]
pub struct Rect {
    pub x: i32,
    pub y: i32,
    pub width: i32,
    pub height: i32,
}

impl Rect {
    /// Whether the point `(x, y)` lies in the rectangle, the left and top
    /// edges counted in, the right and bottom edges counted out.
    pub open spec fn covers(self, x: int, y: int) -> bool {
        &&& self.x <= x < self.x + self.width
        &&& self.y <= y < self.y + self.height
    }

    pub fn new(x: i32, y: i32, width: i32, height: i32) -> (rect: Self)
        ensures
            rect == (Rect { x, y, width, height }),
    {
        Self { x, y, width, height }
    }

    pub fn contains(&self, x: i32, y: i32) -> (inside: bool)
        ensures
            inside == self.covers(x as int, y as int),
    {
        let (x, y) = (x as i64, y as i64);
        x >= self.x as i64 && x < self.x as i64 + self.width as i64 && y >= self.y as i64 && y
            < self.y as i64 + self.height as i64
    }
}

/// Half of `v`, rounded towards zero.
pub open spec fn half(v: int) -> int {
    if v >= 0 {
        v / 2
    } else {
        -((-v) / 2)
    }
}

/// Where something of size `size` starts when it is centred in the `extent`
/// that starts at `start`.
pub open spec fn centered(start: int, extent: int, size: int) -> int {
    start + half(extent - size)
}

/// No text is wider than this: it has fewer characters than a `usize` can
/// count, of at most 255 pixels each.
pub const WIDEST: i128 = 0x100_0000_0000_0000_0000;

/// Where something of size `size` starts when it is centred in the `extent`
/// that starts at `start`.
pub(crate) fn center(start: i32, extent: i32, size: i128) -> (at: i128)
    requires
        0 <= size <= WIDEST,
    ensures
        at == centered(start as int, extent as int, size as int),
{
    start as i128 + (extent as i128 - size) / 2
}

/// A coordinate, as contracts speak of it.
pub type Coordinate = int;

/// A path into a tree of components, as contracts speak of it: the index of
/// a child at each level, from a component downwards.
pub type Path = Seq<usize>;

/// What a handler or a component of a kind that the toolkit does not know
/// shows of its state, as contracts speak of it.
pub type Marks = Seq<int>;

/// Why a component could not be rendered or updated.
#[derive(Debug)]
pub struct UiError {
    pub message: String,
}

/// What a component holds besides its bounds. Moving and resizing a
/// component leave it as it is; a layout holds what its children hold, in
/// their order. Of a button's handler it holds what the handler shows of its
/// state, and `ran`: whether one run can take a handler of its kind from
/// showing one state to showing another.
pub enum Content {
    Label { text: Seq<char>, font: Font, alignment: TextAlignment },
    Button {
        label: Seq<char>,
        font: Font,
        pressed: bool,
        enabled: bool,
        handler: Option<Marks>,
        ran: spec_fn(Marks, Marks) -> bool,
    },
    Layout { orientation: Orientation, spacing: int, padding: int, children: Seq<Content> },
    Custom { marks: Marks },
}

/// A change to a button, as contracts speak of it.
pub enum Setting {
    Enabled(bool),
    Caption(Seq<char>),
}

impl Content {
    /// What is held after `setting` was made, if a button holds it.
    pub open spec fn with_setting(self, setting: Setting) -> Option<Content> {
        match self {
            Content::Button { label, font, pressed, enabled, handler, ran } => Some(
                match setting {
                    Setting::Enabled(enabled) => Content::Button {
                        label,
                        font,
                        pressed,
                        enabled,
                        handler,
                        ran,
                    },
                    Setting::Caption(label) => Content::Button {
                        label,
                        font,
                        pressed,
                        enabled,
                        handler,
                        ran,
                    },
                },
            ),
            _ => None,
        }
    }

    /// Whether a label or a button holds this.
    pub open spec fn is_widget(self) -> bool {
        self is Label || self is Button
    }

    /// The canvas after the label or button that holds this in the bounds
    /// `frame` was rendered on `canvas`.
    pub open spec fn shown(self, frame: Rect, canvas: Canvas) -> Canvas {
        match self {
            Content::Label { text, font, alignment } => (LabelView {
                bounds: frame,
                text,
                font,
                alignment,
            }).painted(canvas),
            Content::Button { label, font, pressed, enabled, .. } => button_face(
                frame,
                label,
                font,
                pressed && enabled,
                canvas,
            ),
            _ => canvas,
        }
    }

    /// Whether the label or button that holds this in the bounds `frame`
    /// claims a tap at `(x, y)`: a label where the tap falls in its bounds, a
    /// button where it does and the button is enabled.
    pub open spec fn takes(self, frame: Rect, x: int, y: int) -> bool {
        match self {
            Content::Label { .. } => frame.covers(x, y),
            Content::Button { enabled, .. } => enabled && frame.covers(x, y),
            _ => false,
        }
    }

    /// Whether one tap at `(x, y)` can leave the label or button that holds
    /// this in the bounds `frame` holding `after`. A tap leaves a label as it
    /// was, and a button that does not claim it. A button that claims it is
    /// released after it, and its handler has run once.
    pub open spec fn taken(self, frame: Rect, x: int, y: int, after: Content) -> bool {
        match self {
            Content::Button { label, font, pressed, enabled, handler, ran } => if enabled
                && frame.covers(x, y) {
                match after {
                    Content::Button {
                        label: label_after,
                        font: font_after,
                        pressed: pressed_after,
                        enabled: enabled_after,
                        handler: handler_after,
                        ran: ran_after,
                    } => {
                        &&& label_after == label
                        &&& font_after == font
                        &&& !pressed_after
                        &&& enabled_after == enabled
                        &&& ran_after == ran
                        &&& match handler {
                            Some(before) => handler_after is Some && ran(before, handler_after->0),
                            None => handler_after is None,
                        }
                    },
                    _ => false,
                }
            } else {
                after == self
            },
            _ => after == self,
        }
    }

    /// What the label that `path` leads to holds, where the path leads to a
    /// label through layouts.
    pub open spec fn label_at(self, path: Path) -> Option<Content>
        decreases path.len(),
    {
        match self {
            Content::Label { .. } => if path.len() == 0 {
                Some(self)
            } else {
                None
            },
            Content::Layout { children, .. } => if path.len() > 0 && path[0] < children.len() {
                children[path[0] as int].label_at(path.subrange(1, path.len() as int))
            } else {
                None
            },
            _ => None,
        }
    }

    /// What is held once the label that `path` leads to holds `label`, where
    /// the path leads to a label through layouts.
    pub open spec fn with_label_at(self, path: Path, label: Content) -> Option<Content>
        decreases path.len(),
    {
        match self {
            Content::Label { .. } => if path.len() == 0 {
                Some(label)
            } else {
                None
            },
            Content::Layout { orientation, spacing, padding, children } => if path.len() > 0
                && path[0] < children.len() {
                match children[path[0] as int].with_label_at(
                    path.subrange(1, path.len() as int),
                    label,
                ) {
                    Some(child) => Some(
                        Content::Layout {
                            orientation,
                            spacing,
                            padding,
                            children: children.update(path[0] as int, child),
                        },
                    ),
                    None => None,
                }
            } else {
                None
            },
            _ => None,
        }
    }

    /// What is held after `setting` was made on the button that `path` leads
    /// to, if the path leads to a button. The empty path names the component
    /// itself, a longer one the child of a layout that its first index names
    /// and what the rest of the path leads to from there.
    pub open spec fn with_setting_at(self, path: Path, setting: Setting) -> Option<Content>
        decreases path.len(),
    {
        match self {
            Content::Layout { orientation, spacing, padding, children } => if path.len() > 0
                && path[0] < children.len() {
                match children[path[0] as int].with_setting_at(
                    path.subrange(1, path.len() as int),
                    setting,
                ) {
                    Some(child) => Some(
                        Content::Layout {
                            orientation,
                            spacing,
                            padding,
                            children: children.update(path[0] as int, child),
                        },
                    ),
                    None => None,
                }
            } else {
                None
            },
            _ => if path.len() == 0 {
                self.with_setting(setting)
            } else {
                None
            },
        }
    }
}

/// What every node of the component tree can do: report its bounds, be moved
/// and resized, render itself on a canvas, take a tap, and take an update tick.
///
/// The contracts speak of a component through what it shows of itself:
/// `frame` is its bounds and `content` what it holds besides. `painted` and
/// `render_outcome` say what `render` does to a canvas and what it returns,
/// `claims` whether `handle_tap` claims a tap and `tapped` what one tap can
/// leave the component holding, `update_outcome` what `update` returns and
/// `updated` what one tick can leave it holding, `label_at` what
/// `label_at_mut` finds. A container states its own behaviour over those of
/// its children. Of a component that is written elsewhere nothing is known
/// but what these say. A component that holds what a label or a button holds
/// renders, and takes taps and ticks, as that label or button does.
pub trait Component {
    /// The bounds of the component.
    spec fn frame(&self) -> Rect;

    /// What the component holds besides its bounds.
    spec fn content(&self) -> Content;

    /// The canvas after the component was rendered on `canvas`, whether
    /// rendering succeeded or not.
    spec fn painted(&self, canvas: Canvas) -> Canvas;

    /// What rendering the component on `canvas` returns.
    spec fn render_outcome(&self, canvas: Canvas) -> Result<(), UiError>;

    /// Whether the component claims a tap at `(x, y)`.
    spec fn claims(&self, x: Coordinate, y: Coordinate) -> bool;

    /// Whether one tap at `(x, y)` can leave the component holding `after`.
    spec fn tapped(&self, x: Coordinate, y: Coordinate, after: Content) -> bool;

    /// What an update tick returns.
    spec fn update_outcome(&self) -> Result<(), UiError>;

    /// Whether one update tick can leave the component holding `after`.
    spec fn updated(&self, after: Content) -> bool;

    /// The label that `path` leads to from this component, if it leads to one.
    spec fn label_at(&self, path: Path) -> Option<Label>;

    /// The bounds of the component.
    fn bounds(&self) -> (bounds: &Rect)
        ensures
            *bounds == self.frame(),
    ;

    /// Moves the component; its size and what it holds stay.
    fn set_position(&mut self, x: i32, y: i32)
        ensures
            final(self).frame() == (Rect { x, y, ..old(self).frame() }),
            final(self).content() == old(self).content(),
    ;

    /// Resizes the component; its position and what it holds stay.
    fn set_size(&mut self, width: i32, height: i32)
        ensures
            final(self).frame() == (Rect { width, height, ..old(self).frame() }),
            final(self).content() == old(self).content(),
    ;

    /// Renders the component on the canvas. Rendering a label or a button
    /// does not fail.
    fn render(&self, paint: &mut Paint) -> (outcome: Result<(), UiError>)
        ensures
            final(paint)@ == self.painted(old(paint)@),
            outcome == self.render_outcome(old(paint)@),
            self.content().is_widget() ==> outcome is Ok && final(paint)@ == self.content().shown(
                self.frame(),
                old(paint)@,
            ),
    ;

    /// Hands the component one tap at `(x, y)` and says whether it claimed
    /// it. A tap moves nothing.
    fn handle_tap(&mut self, x: i32, y: i32) -> (claimed: bool)
        ensures
            claimed == old(self).claims(x as int, y as int),
            old(self).tapped(x as int, y as int, final(self).content()),
            final(self).frame() == old(self).frame(),
            old(self).content().is_widget() ==> claimed == old(self).content().takes(
                old(self).frame(),
                x as int,
                y as int,
            ) && old(self).content().taken(
                old(self).frame(),
                x as int,
                y as int,
                final(self).content(),
            ),
    ;

    /// Hands the component one update tick. A tick leaves a label and a
    /// button as they were, and does not fail on them.
    fn update(&mut self) -> (outcome: Result<(), UiError>)
        ensures
            outcome == old(self).update_outcome(),
            old(self).updated(final(self).content()),
            old(self).content().is_widget() ==> outcome is Ok && final(self).content() == old(
                self,
            ).content() && final(self).frame() == old(self).frame(),
    ;

    /// The label that `path` leads to, to be changed in place. The empty path
    /// names the component itself. There is no label where the path leaves
    /// the tree, or where the node that it names is no label; the label is
    /// found where the path leads to it through layouts. What is done to
    /// the label is done to the component, and nothing else is: where the
    /// path leads to the label through layouts, the component then holds what
    /// it held, but for what the label holds, and has not moved unless it is
    /// the label itself.
    fn label_at_mut(&mut self, path: &[usize]) -> (label: Option<&mut Label>)
        ensures
            match label {
                Some(found) => old(self).label_at(path@) == Some(*found),
                None => old(self).label_at(path@) is None && final(self).content() == old(
                    self,
                ).content() && final(self).frame() == old(self).frame(),
            },
            match old(self).content().label_at(path@) {
                Some(held) => label is Some && (*label->0)@.content() == held,
                None => true,
            },
            label is Some ==> match old(self).content().with_label_at(
                path@,
                final(label->0)@.content(),
            ) {
                Some(content) => final(self).content() == content && final(self).frame() == (if path@.len()
                    == 0 {
                    final(label->0)@.bounds
                } else {
                    old(self).frame()
                }),
                None => true,
            },
    ;

    /// Enables or disables the button that `path` leads to, and says whether
    /// the path led to one. Nothing changes where it did not, and nothing
    /// moves.
    fn set_enabled_at(&mut self, path: &[usize], enabled: bool) -> (found: bool)
        ensures
            final(self).frame() == old(self).frame(),
            match old(self).content().with_setting_at(path@, Setting::Enabled(enabled)) {
                Some(content) => found && final(self).content() == content,
                None => !found && final(self).content() == old(self).content(),
            },
    ;

    /// Gives the button that `path` leads to the caption `caption`, and says
    /// whether the path led to one. Nothing changes where it did not, and
    /// nothing moves.
    fn set_caption_at(&mut self, path: &[usize], caption: &str) -> (found: bool)
        ensures
            final(self).frame() == old(self).frame(),
            match old(self).content().with_setting_at(path@, Setting::Caption(caption@)) {
                Some(content) => found && final(self).content() == content,
                None => !found && final(self).content() == old(self).content(),
            },
    ;
}

} // verus!
