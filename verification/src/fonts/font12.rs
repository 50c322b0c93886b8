//! The 7x12 font.

use vstd::prelude::*;
use crate::fonts::Font;

verus! {

/// Glyph rows of the 7x12 font, twelve bytes per glyph, starting at the space.
pub const FONT12_DATA: [u8; 24] = [
    // ' '
    0x00, 0x00, 0x00, 0x00, 0x00, 0x00, 0x00, 0x00, 0x00, 0x00, 0x00, 0x00,
    // '!'
    0x00, 0x10, 0x10, 0x10, 0x10, 0x10, 0x00, 0x00, 0x10, 0x00, 0x00, 0x00,
];

/// The 7x12 font.
pub fn font12() -> (font: Font)
    ensures
        font.width == 7,
        font.height == 12,
        font.data@ == FONT12_DATA@,
{
    Font { data: &FONT12_DATA, width: 7, height: 12 }
}

} // verus!
