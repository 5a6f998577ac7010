//! Colour attributes of the character-cell text output.
//!
//! The text buffer itself — the memory-mapped cell grid with its scrolling
//! and backspace logic — is an external collaborator driven by the
//! unverified shell; only the attribute encoding is the kernel's own rule:
//! a cell attribute byte holds the background colour in its high four bits
//! and the foreground colour in its low four bits.

use vstd::prelude::*;

verus! {

/// The sixteen colours of the text-mode palette, in hardware order.
#[allow(dead_code)]
#[derive(Debug, Clone, Copy, PartialEq, Eq, Structural)]
pub enum Colour {
    Black,
    Blue,
    Green,
    Cyan,
    Red,
    Magenta,
    Brown,
    LightGray,
    DarkGray,
    LightBlue,
    LightGreen,
    LightCyan,
    LightRed,
    Pink,
    Yellow,
    White,
}

impl Colour {
    /// The palette index of this colour.
    pub open spec fn spec_u8(self) -> u8 {
        match self {
            Colour::Black => 0,
            Colour::Blue => 1,
            Colour::Green => 2,
            Colour::Cyan => 3,
            Colour::Red => 4,
            Colour::Magenta => 5,
            Colour::Brown => 6,
            Colour::LightGray => 7,
            Colour::DarkGray => 8,
            Colour::LightBlue => 9,
            Colour::LightGreen => 10,
            Colour::LightCyan => 11,
            Colour::LightRed => 12,
            Colour::Pink => 13,
            Colour::Yellow => 14,
            Colour::White => 15,
        }
    }

    pub fn as_u8(self) -> (v: u8)
        ensures
            v == self.spec_u8(),
            v < 16,
    {
        match self {
            Colour::Black => 0,
            Colour::Blue => 1,
            Colour::Green => 2,
            Colour::Cyan => 3,
            Colour::Red => 4,
            Colour::Magenta => 5,
            Colour::Brown => 6,
            Colour::LightGray => 7,
            Colour::DarkGray => 8,
            Colour::LightBlue => 9,
            Colour::LightGreen => 10,
            Colour::LightCyan => 11,
            Colour::LightRed => 12,
            Colour::Pink => 13,
            Colour::Yellow => 14,
            Colour::White => 15,
        }
    }
}

/// A full cell attribute byte: background and foreground colour together.
#[derive(Debug, Clone, Copy, PartialEq, Eq, Structural)]
pub struct ColourCode(pub u8);

impl ColourCode {
    /// Pack the two colours: background in the high four bits, foreground in
    /// the low four.
    pub fn new(foreground: Colour, background: Colour) -> (c: ColourCode)
        ensures
            c.0 == background.spec_u8() * 16 + foreground.spec_u8(),
    {
        let fg = foreground.as_u8();
        let bg = background.as_u8();
        proof {
            assert((bg << 4u8) | fg == bg * 16 + fg) by (bit_vector)
                requires
                    fg < 16 && bg < 16,
            ;
        }
        ColourCode((bg << 4) | fg)
    }
}

} // verus!
