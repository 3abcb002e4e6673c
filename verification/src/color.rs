//! The colour value that every successful parse produces.

use crate::error::Failure;
use crate::number::{hex_digit_char, hex_digit_text};
use vstd::prelude::*;
use vstd::string::*;

verus! {

/// An sRGB colour with one 8-bit channel each for red, green and blue.
#[derive(Debug, Clone, Copy, PartialEq, Eq, Structural)]
pub struct Color {
    pub r: u8,
    pub g: u8,
    pub b: u8,
}

/// The notation `#RRGGBB` of `color`, with capital letters.
pub open spec fn hex_text(color: Color) -> Seq<char> {
    seq![
        '#',
        hex_digit_char((color.r / 16) as nat),
        hex_digit_char((color.r % 16) as nat),
        hex_digit_char((color.g / 16) as nat),
        hex_digit_char((color.g % 16) as nat),
        hex_digit_char((color.b / 16) as nat),
        hex_digit_char((color.b % 16) as nat),
    ]
}

impl Color {
    /// Writes the colour in the notation `#RRGGBB`, with capital letters.
    pub fn to_hex(&self) -> (text: String)
        ensures
            text@ == hex_text(*self),
    {
        proof {
            reveal_strlit("#");
        }
        let mut text = String::from_str("#");
        text.append(hex_digit_text(self.r / 16));
        text.append(hex_digit_text(self.r % 16));
        text.append(hex_digit_text(self.g / 16));
        text.append(hex_digit_text(self.g % 16));
        text.append(hex_digit_text(self.b / 16));
        text.append(hex_digit_text(self.b % 16));
        assert(text@ =~= hex_text(*self));
        text
    }
}

/// The colour made of three channels that were read one after the other: the
/// first failure among them, in the order red, green, blue, or else the colour.
pub open spec fn from_channels(
    r: Result<u8, Failure>,
    g: Result<u8, Failure>,
    b: Result<u8, Failure>,
) -> Result<Color, Failure> {
    match r {
        Err(failure) => Err(failure),
        Ok(r) => match g {
            Err(failure) => Err(failure),
            Ok(g) => match b {
                Err(failure) => Err(failure),
                Ok(b) => Ok(Color { r, g, b }),
            },
        },
    }
}

} // verus!
