//! The component tree: what every node can do, the leaf widgets, and the
//! container that lays its children out.

pub mod button;
pub mod component;
pub mod label;
pub mod layout;

pub use button::{Button, ClickHandler, NoAction};
pub use component::{
    Component, Content, Coordinate, Marks, Path, Rect, Setting, UiError,
};
pub use label::{Label, TextAlignment};
pub use layout::{Layout, Orientation};
