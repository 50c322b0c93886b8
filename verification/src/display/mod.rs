//! The packed monochrome canvas and its drawing primitives.

pub mod canvas;
pub mod paint;
pub mod shapes;

pub use canvas::{Canvas, COLORED, ROTATE_0, ROTATE_180, ROTATE_270, ROTATE_90, UNCOLORED};
pub use paint::Paint;
