//! Fixed-cell bitmap fonts.
//!
//! A font covers the printable ASCII range. Each glyph is `height` rows of one
//! byte, the most significant bit being the leftmost pixel of the row.

use vstd::prelude::*;

pub mod font12;

pub use font12::{font12, FONT12_DATA};

verus! {

/// The first character code a font has a glyph for.
pub const FIRST_CHAR: u32 = 32;

/// The last character code a font has a glyph for.
pub const LAST_CHAR: u32 = 126;

#[derive(Debug, Clone, Copy)]
pub struct Font {
    pub data: &'static [u8],
    pub width: u8,
    pub height: u8,
}

impl Font {
    /// Whether the font has a glyph for `c`.
    pub open spec fn supports(self, c: char) -> bool {
        FIRST_CHAR <= c as u32 <= LAST_CHAR
    }

    /// Where the glyph of `c` starts in the table; 0 for a character without glyph.
    pub open spec fn glyph_offset(self, c: char) -> int {
        if self.supports(c) {
            (c as u32 - FIRST_CHAR) * self.height
        } else {
            0
        }
    }

    /// The table's byte at `offset`; 0 past its end.
    pub open spec fn byte_at(self, offset: int) -> u8 {
        if 0 <= offset < self.data@.len() {
            self.data@[offset]
        } else {
            0
        }
    }

    /// Whether the glyph of `c` has the pixel in row `row`, column `col` set.
    /// A row is one byte, so columns from 8 on are blank.
    pub open spec fn glyph_bit(self, c: char, row: int, col: int) -> bool {
        &&& 0 <= col < 8
        &&& self.byte_at(self.glyph_offset(c) + row) & (0x80u8 >> (col as u8)) != 0
    }

    pub fn has_char(&self, c: char) -> (found: bool)
        ensures
            found == self.supports(c),
    {
        let char_code = c as u32;
        char_code >= FIRST_CHAR && char_code <= LAST_CHAR
    }

    pub fn get_char_offset(&self, c: char) -> (offset: usize)
        ensures
            offset == self.glyph_offset(c),
            offset <= 94 * 255,
    {
        let char_code = c as u32;
        if !self.has_char(c) {
            return 0;
        }
        let index = (char_code - FIRST_CHAR) as usize;
        let rows = self.height as usize;
        assert(index * rows <= 94 * 255) by (nonlinear_arith)
            requires
                index <= 94,
                rows <= 255,
        ;
        index * rows
    }

    pub fn get_data_at(&self, offset: usize) -> (byte: u8)
        ensures
            byte == self.byte_at(offset as int),
    {
        if offset >= self.data.len() {
            return 0;
        }
        self.data[offset]
    }
}

} // verus!
