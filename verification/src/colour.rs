use vstd::prelude::*;

verus! {

/// An RGB colour with eight bits per channel: red, green, blue.
pub struct ColourRgbU8 {
    pub values: [u8; 3],
}

/// The sixteen basic colours of HTML 4, less silver.
pub enum NamedColour {
    Black,
    White,
    Red,
    Lime,
    Blue,
    Yellow,
    Cyan,
    Magenta,
    Gray,
    Maroon,
    Olive,
    Green,
    Purple,
    Teal,
    Navy,
}

} // verus!
