use vstd::prelude::*;

verus! {

/// A cell colour as a session sets it.
#[derive(Clone, Copy, PartialEq, Eq, Structural, Debug)]
pub enum CellColour {
    Default,
    Idx(u8),
    Rgb(u8, u8, u8),
}

/// A colour as the screen draws it: the sixteen named colours, any other
/// palette entry, or true colour.
#[derive(Clone, Copy, PartialEq, Eq, Structural, Debug)]
pub enum Colour {
    Reset,
    Black,
    Red,
    Green,
    Yellow,
    Blue,
    Magenta,
    Cyan,
    Gray,
    DarkGray,
    LightRed,
    LightGreen,
    LightYellow,
    LightBlue,
    LightMagenta,
    LightCyan,
    White,
    Indexed(u8),
    Rgb(u8, u8, u8),
}

/// Palette entries 0 to 15 are the named colours in their standard order;
/// the others pass through, as do the default colour and true colour.
pub open spec fn colour_spec(c: CellColour) -> Colour {
    match c {
        CellColour::Default => Colour::Reset,
        CellColour::Idx(i) => if i == 0 {
            Colour::Black
        } else if i == 1 {
            Colour::Red
        } else if i == 2 {
            Colour::Green
        } else if i == 3 {
            Colour::Yellow
        } else if i == 4 {
            Colour::Blue
        } else if i == 5 {
            Colour::Magenta
        } else if i == 6 {
            Colour::Cyan
        } else if i == 7 {
            Colour::Gray
        } else if i == 8 {
            Colour::DarkGray
        } else if i == 9 {
            Colour::LightRed
        } else if i == 10 {
            Colour::LightGreen
        } else if i == 11 {
            Colour::LightYellow
        } else if i == 12 {
            Colour::LightBlue
        } else if i == 13 {
            Colour::LightMagenta
        } else if i == 14 {
            Colour::LightCyan
        } else if i == 15 {
            Colour::White
        } else {
            Colour::Indexed(i)
        },
        CellColour::Rgb(r, g, b) => Colour::Rgb(r, g, b),
    }
}

pub fn colour_of(c: CellColour) -> (r: Colour)
    ensures
        r == colour_spec(c),
{
    match c {
        CellColour::Default => Colour::Reset,
        CellColour::Idx(i) => match i {
            0 => Colour::Black,
            1 => Colour::Red,
            2 => Colour::Green,
            3 => Colour::Yellow,
            4 => Colour::Blue,
            5 => Colour::Magenta,
            6 => Colour::Cyan,
            7 => Colour::Gray,
            8 => Colour::DarkGray,
            9 => Colour::LightRed,
            10 => Colour::LightGreen,
            11 => Colour::LightYellow,
            12 => Colour::LightBlue,
            13 => Colour::LightMagenta,
            14 => Colour::LightCyan,
            15 => Colour::White,
            _ => Colour::Indexed(i),
        },
        CellColour::Rgb(r, g, b) => Colour::Rgb(r, g, b),
    }
}

} // verus!
