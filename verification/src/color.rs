use vstd::prelude::*;

verus! {

/// Monochrome color of a display pixel.
#[derive(Clone, Copy, Debug, PartialEq, Eq, Structural)]
pub enum Color {
    Black,
    White,
}

impl Color {
    /// The byte that stands for the color on the wire: 0 for black, 0xff for white.
    pub open spec fn spec_byte(self) -> u8 {
        match self {
            Color::Black => 0u8,
            Color::White => 0xffu8,
        }
    }

    /// The byte that stands for the color on the wire: 0 for black, 0xff for white.
    pub fn to_byte(self) -> (b: u8)
        ensures
            b == self.spec_byte(),
    {
        match self {
            Color::Black => 0u8,
            Color::White => 0xffu8,
        }
    }
}

} // verus!
