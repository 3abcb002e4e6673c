//! Functional notation with decimal channels: `rgb(r, g, b)`.

use crate::color::{from_channels, Color};
use crate::error::{outcome, ColorParseError, Failure};
use crate::number::{int_text_value, parse_int_i32};
use crate::text::{argument_bounds, arguments, chars_of, interior};
use vstd::prelude::*;
use vstd::string::*;

verus! {

/// The channel that the argument `piece` stands for: its value as a decimal
/// integer, where that lies in `0..=255`.
pub open spec fn rgb_component(piece: Seq<char>) -> Result<u8, Failure> {
    match int_text_value(piece) {
        None => Err(Failure::RgbComponentParseError(piece)),
        Some(value) => if 0 <= value <= 255 {
            Ok(value as u8)
        } else {
            Err(Failure::RgbComponentOutOfRange(value))
        },
    }
}

/// The colour that the expression `s` stands for. Only the text between the
/// first `(` and the last `)` is read.
pub open spec fn rgb_color(s: Seq<char>) -> Result<Color, Failure> {
    match interior(s) {
        None => Err(Failure::RgbInvalidFormat),
        Some(inner) => {
            let args = arguments(inner);
            if args.len() != 3 {
                Err(Failure::RgbInvalidFormat)
            } else {
                from_channels(rgb_component(args[0]), rgb_component(args[1]), rgb_component(args[2]))
            }
        },
    }
}

/// Reads `input[from..to]`, whose characters are `chars[from..to]`, as one
/// channel of `rgb(..)`.
fn parse_rgb_component(input: &str, chars: &Vec<char>, from: usize, to: usize) -> (channel: Result<
    u8,
    ColorParseError,
>)
    requires
        chars@ == input@,
        from <= to <= chars.len(),
    ensures
        outcome(channel) == rgb_component(chars@.subrange(from as int, to as int)),
{
    match parse_int_i32(chars, from, to) {
        None => Err(
            ColorParseError::RgbComponentParseError(
                String::from_str(input.substring_char(from, to)),
            ),
        ),
        Some(value) => if 0 <= value && value <= 255 {
            Ok(value as u8)
        } else {
            Err(ColorParseError::RgbComponentOutOfRange(value))
        },
    }
}

/// Reads `input` as a colour in the notation `rgb(r, g, b)`.
pub fn parse_rgb(input: &str) -> (color: Result<Color, ColorParseError>)
    ensures
        outcome(color) == rgb_color(input@),
{
    let chars = chars_of(input);
    match argument_bounds(&chars) {
        None => Err(ColorParseError::RgbInvalidFormat),
        Some(pieces) => {
            if pieces.len() != 3 {
                Err(ColorParseError::RgbInvalidFormat)
            } else {
                let r = parse_rgb_component(input, &chars, pieces[0].0, pieces[0].1)?;
                let g = parse_rgb_component(input, &chars, pieces[1].0, pieces[1].1)?;
                let b = parse_rgb_component(input, &chars, pieces[2].0, pieces[2].1)?;
                Ok(Color { r, g, b })
            }
        },
    }
}

} // verus!
