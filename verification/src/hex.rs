//! Hexadecimal notation: `#RGB` and `#RRGGBB`.

use crate::color::{from_channels, Color};
use crate::error::{outcome, ColorParseError, Failure};
use crate::number::{
    all_hex_digits, hex_digit_value, hex_text_value, hex_value, is_hex_digit, parse_hex_u8, HexError,
};
use crate::text::chars_of;
use vstd::prelude::*;
use vstd::string::*;

verus! {

/// The channel that the text `pair` stands for, or the failure that reports
/// `pair` with the reason why it is no number.
pub open spec fn hex_component(pair: Seq<char>) -> Result<u8, Failure> {
    match hex_text_value(pair) {
        Ok(value) => Ok(value),
        Err(reason) => Err(Failure::ComponentParseError(pair, reason)),
    }
}

/// The pair of digits for channel `k` of `body`, the text after `#`: in the
/// short form the digit at `k`, twice; in the long form the two digits from
/// `2 * k`.
pub open spec fn hex_pair(body: Seq<char>, k: int) -> Seq<char>
    recommends
        body.len() == 3 || body.len() == 6,
        0 <= k < 3,
{
    if body.len() == 3 {
        seq![body[k], body[k]]
    } else {
        body.subrange(2 * k, 2 * k + 2)
    }
}

/// The number that the hexadecimal digits `high` and `low` stand for together.
pub open spec fn pair_value(high: char, low: char) -> u8
    recommends
        is_hex_digit(high),
        is_hex_digit(low),
{
    (16 * hex_digit_value(high) + hex_digit_value(low)) as u8
}

/// The colour that `body`, the text after `#`, stands for.
pub open spec fn hex_color(body: Seq<char>) -> Result<Color, Failure> {
    if body.len() != 3 && body.len() != 6 {
        Err(Failure::InvalidLength(body.len()))
    } else {
        from_channels(
            hex_component(hex_pair(body, 0)),
            hex_component(hex_pair(body, 1)),
            hex_component(hex_pair(body, 2)),
        )
    }
}

/// Two hexadecimal digits stand for sixteen times the first plus the second.
pub proof fn lemma_pair_value(high: char, low: char)
    requires
        is_hex_digit(high),
        is_hex_digit(low),
    ensures
        hex_component(seq![high, low]) == Ok::<u8, Failure>(pair_value(high, low)),
        16 * hex_digit_value(high) + hex_digit_value(low) <= 255,
{
    let pair = seq![high, low];
    assert(pair.drop_last() =~= seq![high]);
    assert(pair.drop_last().drop_last() =~= Seq::<char>::empty());
    assert(pair.last() == low);
    assert(pair.drop_last().last() == high);
    assert(hex_value(pair.drop_last().drop_last()) == 0);
    assert(hex_value(pair.drop_last()) == hex_digit_value(high));
    assert(hex_value(pair) == 16 * hex_digit_value(high) + hex_digit_value(low));
    assert(all_hex_digits(pair));
}

/// A pair with a character that is no hexadecimal digit is reported as it
/// stands, with the reason `InvalidDigit`.
pub proof fn lemma_pair_invalid(high: char, low: char)
    requires
        !is_hex_digit(high) || !is_hex_digit(low),
    ensures
        hex_component(seq![high, low]) == Err::<u8, Failure>(
            Failure::ComponentParseError(seq![high, low], HexError::InvalidDigit),
        ),
{
    let pair = seq![high, low];
    assert(pair[0] == high && pair[1] == low);
}

/// Reads `component` as one channel in hexadecimal notation.
pub fn parse_component(component: &str) -> (channel: Result<u8, ColorParseError>)
    ensures
        outcome(channel) == hex_component(component@),
{
    let chars = chars_of(component);
    assert(chars@.subrange(0, chars.len() as int) =~= component@);
    match parse_hex_u8(&chars, 0, chars.len()) {
        Ok(value) => Ok(value),
        Err(reason) => Err(
            ColorParseError::ComponentParseError(String::from_str(component), reason),
        ),
    }
}

/// Reads `body`, the text after `#`, as a colour in hexadecimal notation.
pub fn parse_hex(body: &str) -> (color: Result<Color, ColorParseError>)
    ensures
        outcome(color) == hex_color(body@),
{
    let n: usize = body.unicode_len();
    if n == 3 {
        let first = body.substring_char(0, 1);
        let second = body.substring_char(1, 2);
        let third = body.substring_char(2, 3);
        let r_pair = String::from_str(first).concat(first);
        let g_pair = String::from_str(second).concat(second);
        let b_pair = String::from_str(third).concat(third);
        assert(r_pair@ =~= hex_pair(body@, 0));
        assert(g_pair@ =~= hex_pair(body@, 1));
        assert(b_pair@ =~= hex_pair(body@, 2));
        let r = parse_component(r_pair.as_str())?;
        let g = parse_component(g_pair.as_str())?;
        let b = parse_component(b_pair.as_str())?;
        Ok(Color { r, g, b })
    } else if n == 6 {
        let r = parse_component(body.substring_char(0, 2))?;
        let g = parse_component(body.substring_char(2, 4))?;
        let b = parse_component(body.substring_char(4, 6))?;
        Ok(Color { r, g, b })
    } else {
        Err(ColorParseError::InvalidLength(n))
    }
}

} // verus!
