//! A small retained-mode UI toolkit for monochrome, one-bit-per-pixel displays.
//!
//! * [`display`] holds the packed pixel canvas and its drawing primitives.
//! * [`fonts`] holds the fixed-cell bitmap fonts that text is drawn with.
//! * [`ui`] holds the component tree: labels, buttons and the layout container.
//!
//! Every executable function carries a contract over a mathematical model of
//! the data it works on, and none of them panics.

pub mod display;
pub mod fonts;
pub mod ui;
