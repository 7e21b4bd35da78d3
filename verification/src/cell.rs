//! What one position of the canvas shows.

use vstd::prelude::*;

verus! {

/// A background colour, as a terminal understands it.
#[derive(Debug, Clone, Copy, PartialEq, Eq, Structural)]
pub enum Color {
    /// The terminal's own default.
    Reset,
    Black,
    White,
    Rgb { r: u8, g: u8, b: u8 },
}

/// The content of one cell: a glyph on a background.
#[derive(Debug, Clone, Copy, PartialEq, Eq, Structural)]
pub struct Element {
    pub value: char,
    pub background: Color,
}

impl Element {
    /// The cell of an untouched canvas: a space on the default background.
    pub open spec fn blank_spec() -> Element {
        Element { value: ' ', background: Color::Reset }
    }

    /// The cell of an untouched canvas.
    #[verifier::when_used_as_spec(blank_spec)]
    pub fn blank() -> (e: Element)
        ensures
            e == Element::blank_spec(),
    {
        Element { value: ' ', background: Color::Reset }
    }

    /// This cell with another glyph on the same background.
    pub open spec fn with_value_spec(self, value: char) -> Element {
        Element { value, background: self.background }
    }

    /// This cell with another glyph on the same background.
    #[verifier::when_used_as_spec(with_value_spec)]
    pub fn with_value(self, value: char) -> (e: Element)
        ensures
            e == self.with_value_spec(value),
    {
        Element { value, background: self.background }
    }
}

} // verus!
