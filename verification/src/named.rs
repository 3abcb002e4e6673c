//! The named colours.

use crate::color::Color;
use crate::text::{chars_of, equals_lower, lower, lower_char};
use vstd::prelude::*;

verus! {

/// The colour that `name` stands for, if it is one of the known names.
/// Capital and small ASCII letters are not told apart; `gray` and `grey`
/// name the same colour.
pub open spec fn named_color(name: Seq<char>) -> Option<Color> {
    let word = lower(name);
    if word == "black"@ {
        Some(Color { r: 0, g: 0, b: 0 })
    } else if word == "white"@ {
        Some(Color { r: 255, g: 255, b: 255 })
    } else if word == "red"@ {
        Some(Color { r: 255, g: 0, b: 0 })
    } else if word == "green"@ {
        Some(Color { r: 0, g: 128, b: 0 })
    } else if word == "blue"@ {
        Some(Color { r: 0, g: 0, b: 255 })
    } else if word == "yellow"@ {
        Some(Color { r: 255, g: 255, b: 0 })
    } else if word == "cyan"@ {
        Some(Color { r: 0, g: 255, b: 255 })
    } else if word == "magenta"@ {
        Some(Color { r: 255, g: 0, b: 255 })
    } else if word == "gray"@ || word == "grey"@ {
        Some(Color { r: 128, g: 128, b: 128 })
    } else if word == "rebeccapurple"@ {
        Some(Color { r: 102, g: 51, b: 153 })
    } else {
        None
    }
}

/// Tells whether `c` is an ASCII letter.
pub open spec fn is_letter(c: char) -> bool {
    'a' <= c <= 'z' || 'A' <= c <= 'Z'
}

/// A name of a colour begins and ends with a letter.
pub proof fn lemma_named_in_letters(name: Seq<char>)
    requires
        named_color(name) is Some,
    ensures
        name.len() >= 3,
        is_letter(name[0]),
        is_letter(name.last()),
{
    reveal_strlit("black");
    reveal_strlit("white");
    reveal_strlit("red");
    reveal_strlit("green");
    reveal_strlit("blue");
    reveal_strlit("yellow");
    reveal_strlit("cyan");
    reveal_strlit("magenta");
    reveal_strlit("gray");
    reveal_strlit("grey");
    reveal_strlit("rebeccapurple");
    let word = lower(name);
    assert(word.len() == name.len());
    assert(word.len() >= 3);
    assert(word[0] == lower_char(name[0]));
    assert(word.last() == lower_char(name.last()));
    assert('a' <= word[0] <= 'z');
    assert('a' <= word.last() <= 'z');
}

/// Looks `name` up among the named colours. An unknown name is no error: the
/// result is `None`.
pub fn parse_named_color(name: &str) -> (color: Option<Color>)
    ensures
        color == named_color(name@),
{
    let chars = chars_of(name);
    let n: usize = chars.len();
    assert(chars@.subrange(0, n as int) =~= name@);
    if equals_lower(&chars, 0, n, "black") {
        Some(Color { r: 0, g: 0, b: 0 })
    } else if equals_lower(&chars, 0, n, "white") {
        Some(Color { r: 255, g: 255, b: 255 })
    } else if equals_lower(&chars, 0, n, "red") {
        Some(Color { r: 255, g: 0, b: 0 })
    } else if equals_lower(&chars, 0, n, "green") {
        Some(Color { r: 0, g: 128, b: 0 })
    } else if equals_lower(&chars, 0, n, "blue") {
        Some(Color { r: 0, g: 0, b: 255 })
    } else if equals_lower(&chars, 0, n, "yellow") {
        Some(Color { r: 255, g: 255, b: 0 })
    } else if equals_lower(&chars, 0, n, "cyan") {
        Some(Color { r: 0, g: 255, b: 255 })
    } else if equals_lower(&chars, 0, n, "magenta") {
        Some(Color { r: 255, g: 0, b: 255 })
    } else if equals_lower(&chars, 0, n, "gray") || equals_lower(&chars, 0, n, "grey") {
        Some(Color { r: 128, g: 128, b: 128 })
    } else if equals_lower(&chars, 0, n, "rebeccapurple") {
        Some(Color { r: 102, g: 51, b: 153 })
    } else {
        None
    }
}

} // verus!
