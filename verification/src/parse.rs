//! The entry point: recognising the notation of an expression and handing it
//! to the parser for that notation.

use crate::color::Color;
use crate::error::{outcome, ColorParseError, Failure};
use crate::hex::{hex_color, parse_hex};
use crate::hsl::{hsl_color, parse_hsl};
use crate::named::{named_color, parse_named_color};
use crate::rgb::{parse_rgb, rgb_color};
use crate::text::{chars_of, lower, starts_with_lower, trim, trim_bounds};
use vstd::prelude::*;
use vstd::string::*;

verus! {

/// The colour that the expression `s` stands for, or the rule that it breaks.
///
/// White space around the expression does not count. A known name stands for
/// its colour. Otherwise an expression that begins with `#` is read in
/// hexadecimal notation, one that begins with `rgb(` or `hsl(`, in capital or
/// small letters, in that notation; any other expression fails with
/// `MissingHashPrefix`.
pub open spec fn css_color(s: Seq<char>) -> Result<Color, Failure> {
    let t = trim(s);
    match named_color(t) {
        Some(color) => Ok(color),
        None => if t.len() > 0 && t[0] == '#' {
            hex_color(t.drop_first())
        } else if "rgb("@.is_prefix_of(lower(t)) {
            rgb_color(t)
        } else if "hsl("@.is_prefix_of(lower(t)) {
            hsl_color(t)
        } else {
            Err(Failure::MissingHashPrefix)
        },
    }
}

/// Reads `input` as a colour expression: a named colour, `#RGB`, `#RRGGBB`,
/// `rgb(r, g, b)` or `hsl(h, s%, l%)`.
pub fn parse_color(input: &str) -> (color: Result<Color, ColorParseError>)
    ensures
        outcome(color) == css_color(input@),
{
    let chars = chars_of(input);
    assert(chars@.subrange(0, chars.len() as int) =~= input@);
    let (from, to) = trim_bounds(&chars, 0, chars.len());
    let trimmed = input.substring_char(from, to);
    if let Some(named) = parse_named_color(trimmed) {
        return Ok(named);
    }
    if from < to && chars[from] == '#' {
        assert(trimmed@.drop_first() =~= input@.subrange(from + 1, to as int));
        parse_hex(input.substring_char(from + 1, to))
    } else if starts_with_lower(&chars, from, to, "rgb(") {
        parse_rgb(trimmed)
    } else if starts_with_lower(&chars, from, to, "hsl(") {
        parse_hsl(trimmed)
    } else {
        Err(ColorParseError::MissingHashPrefix)
    }
}

} // verus!
