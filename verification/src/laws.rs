//! What holds of the parsers for all inputs.

use crate::color::{from_channels, hex_text, Color};
use crate::error::Failure;
use crate::hex::{hex_color, hex_pair, lemma_pair_invalid, lemma_pair_value, pair_value};
use crate::hsl::{
    channel_at, clamp, hsl_arguments_color, hsl_color, hsl_rgb, lemma_channel_bounds, level_at,
    lower_level, nearest_channel, percent_units, real_units, upper_level, FULL, SIXTH, THIRD, TURN,
    TWO_THIRDS,
};
use crate::named::{lemma_named_in_letters, named_color};
use crate::number::{all_hex_digits, hex_digit_char, hex_digit_value, is_hex_digit, HexError};
use crate::parse::css_color;
use crate::rgb::{rgb_color, rgb_component};
use crate::text::{
    all_whitespace, arguments, interior, is_whitespace, lemma_lower_twice, lemma_split_joined,
    lemma_split_single, lemma_trim_ignores_padding, lower, lower_char, split, trim,
};
use vstd::prelude::*;

verus! {

/// The long form of `digits`, three hexadecimal digits: each digit twice.
pub open spec fn doubled(digits: Seq<char>) -> Seq<char>
    recommends
        digits.len() == 3,
{
    seq![digits[0], digits[0], digits[1], digits[1], digits[2], digits[2]]
}

/// An expression that begins with `#` and does not end with white space is
/// read in hexadecimal notation from its second character on.
pub proof fn lemma_hash_selects_hex(body: Seq<char>)
    requires
        body.len() > 0 ==> !is_whitespace(body.last()),
    ensures
        css_color(seq!['#'] + body) == hex_color(body),
{
    let s = seq!['#'] + body;
    assert(s[0] == '#');
    assert(s.last() == if body.len() > 0 {
        body.last()
    } else {
        '#'
    });
    assert(trim(s) == s);
    if named_color(s) is Some {
        lemma_named_in_letters(s);
    }
    assert(s.drop_first() =~= body);
}

/// Six hexadecimal digits after `#` stand for the colour whose channels are
/// the values of the three pairs of digits, in the order red, green, blue.
pub proof fn lemma_long_hex_channels(digits: Seq<char>)
    requires
        digits.len() == 6,
        all_hex_digits(digits),
    ensures
        css_color(seq!['#'] + digits) == Ok::<Color, Failure>(
            Color {
                r: pair_value(digits[0], digits[1]),
                g: pair_value(digits[2], digits[3]),
                b: pair_value(digits[4], digits[5]),
            },
        ),
{
    assert(is_hex_digit(digits[5]));
    lemma_hash_selects_hex(digits);
    assert(hex_pair(digits, 0) =~= seq![digits[0], digits[1]]);
    assert(hex_pair(digits, 1) =~= seq![digits[2], digits[3]]);
    assert(hex_pair(digits, 2) =~= seq![digits[4], digits[5]]);
    lemma_pair_value(digits[0], digits[1]);
    lemma_pair_value(digits[2], digits[3]);
    lemma_pair_value(digits[4], digits[5]);
}

/// Three hexadecimal digits after `#` stand for the same colour as the six
/// digits in which each of them is written twice: each channel is seventeen
/// times the value of its digit.
pub proof fn lemma_short_hex_doubles(digits: Seq<char>)
    requires
        digits.len() == 3,
        all_hex_digits(digits),
    ensures
        css_color(seq!['#'] + digits) == css_color(seq!['#'] + doubled(digits)),
        css_color(seq!['#'] + digits) == Ok::<Color, Failure>(
            Color {
                r: pair_value(digits[0], digits[0]),
                g: pair_value(digits[1], digits[1]),
                b: pair_value(digits[2], digits[2]),
            },
        ),
{
    let long = doubled(digits);
    assert(is_hex_digit(digits[0]) && is_hex_digit(digits[1]) && is_hex_digit(digits[2]));
    assert(all_hex_digits(long));
    lemma_long_hex_channels(long);
    lemma_hash_selects_hex(digits);
    lemma_pair_value(digits[0], digits[0]);
    lemma_pair_value(digits[1], digits[1]);
    lemma_pair_value(digits[2], digits[2]);
}

/// Six characters after `#`, of which some is no hexadecimal digit, fail with
/// `ComponentParseError`: it carries the first pair that holds such a
/// character, and the reason `InvalidDigit`.
pub proof fn lemma_long_hex_invalid_digit(body: Seq<char>, k: int)
    requires
        body.len() == 6,
        !is_whitespace(body.last()),
        0 <= k < 3,
        forall|j: int| 0 <= j < 2 * k ==> is_hex_digit(#[trigger] body[j]),
        !is_hex_digit(body[2 * k]) || !is_hex_digit(body[2 * k + 1]),
    ensures
        css_color(seq!['#'] + body) == Err::<Color, Failure>(
            Failure::ComponentParseError(body.subrange(2 * k, 2 * k + 2), HexError::InvalidDigit),
        ),
{
    lemma_hash_selects_hex(body);
    assert(hex_pair(body, 0) =~= seq![body[0], body[1]]);
    assert(hex_pair(body, 1) =~= seq![body[2], body[3]]);
    assert(hex_pair(body, 2) =~= seq![body[4], body[5]]);
    assert(body.subrange(2 * k, 2 * k + 2) =~= seq![body[2 * k], body[2 * k + 1]]);
    lemma_pair_invalid(body[2 * k], body[2 * k + 1]);
    if k >= 1 {
        assert(is_hex_digit(body[0]) && is_hex_digit(body[1]));
        lemma_pair_value(body[0], body[1]);
    }
    if k >= 2 {
        assert(is_hex_digit(body[2]) && is_hex_digit(body[3]));
        lemma_pair_value(body[2], body[3]);
    }
}

/// Whatever follows `#`, if it has neither three nor six characters the parse
/// fails with `InvalidLength` and the number of those characters.
pub proof fn lemma_hex_length(s: Seq<char>)
    requires
        trim(s).len() > 0,
        trim(s)[0] == '#',
        trim(s).len() != 4,
        trim(s).len() != 7,
    ensures
        css_color(s) == Err::<Color, Failure>(Failure::InvalidLength((trim(s).len() - 1) as nat)),
{
    let t = trim(s);
    if named_color(t) is Some {
        lemma_named_in_letters(t);
    }
}

/// Reading back what `to_hex` writes gives the colour again.
pub proof fn lemma_hex_round_trip(color: Color)
    ensures
        css_color(hex_text(color)) == Ok::<Color, Failure>(color),
{
    let digits = hex_text(color).drop_first();
    assert(hex_text(color) =~= seq!['#'] + digits);
    assert forall|i: int| 0 <= i < digits.len() implies is_hex_digit(#[trigger] digits[i]) by {
        lemma_hex_digit_char((color.r / 16) as nat);
        lemma_hex_digit_char((color.r % 16) as nat);
        lemma_hex_digit_char((color.g / 16) as nat);
        lemma_hex_digit_char((color.g % 16) as nat);
        lemma_hex_digit_char((color.b / 16) as nat);
        lemma_hex_digit_char((color.b % 16) as nat);
    }
    lemma_long_hex_channels(digits);
    lemma_hex_digit_char((color.r / 16) as nat);
    lemma_hex_digit_char((color.r % 16) as nat);
    lemma_hex_digit_char((color.g / 16) as nat);
    lemma_hex_digit_char((color.g % 16) as nat);
    lemma_hex_digit_char((color.b / 16) as nat);
    lemma_hex_digit_char((color.b % 16) as nat);
}

/// The character for a number below sixteen is a hexadecimal digit and
/// stands for that number.
pub proof fn lemma_hex_digit_char(d: nat)
    requires
        d < 16,
    ensures
        is_hex_digit(hex_digit_char(d)),
        hex_digit_value(hex_digit_char(d)) == d,
{
}

/// Capital and small letters are not told apart in a name: any two texts
/// with the same lower-case form stand for the same colour, or both for none,
/// and a text stands for the same as its lower-case form.
pub proof fn lemma_named_ignores_case(a: Seq<char>, b: Seq<char>)
    requires
        lower(a) == lower(b),
    ensures
        named_color(a) == named_color(b),
        named_color(lower(a)) == named_color(a),
{
    lemma_lower_twice(a);
}

/// Turning the hue by whole turns does not change the colour.
pub proof fn lemma_hue_wraps(hue: int, turns: int, saturation: int, lightness: int)
    ensures
        hsl_rgb(hue + turns * TURN, saturation, lightness) == hsl_rgb(hue, saturation, lightness),
{
    vstd::arithmetic::div_mod::lemma_mod_multiples_vanish(turns, hue, TURN as int);
    assert(hue + turns * TURN == TURN * turns + hue) by (nonlinear_arith);
}

/// Every channel of a colour made from hue, saturation and lightness is the
/// rounded level of that channel, a number in `0..=255`: nothing is lost when
/// it is stored in eight bits.
pub proof fn lemma_hsl_channels_fit(hue: int, saturation: int, lightness: int)
    ensures
        ({
            let h = hue % (TURN as int);
            let s = clamp(saturation, 0, FULL as int);
            let l = clamp(lightness, 0, FULL as int);
            let color = hsl_rgb(hue, saturation, lightness);
            &&& color.r == channel_at((h + THIRD) % (TURN as int), s, l)
            &&& color.g == channel_at(h, s, l)
            &&& color.b == channel_at((h - THIRD) % (TURN as int), s, l)
        }),
{
    let h = hue % (TURN as int);
    let s = clamp(saturation, 0, FULL as int);
    let l = clamp(lightness, 0, FULL as int);
    lemma_channel_bounds((h + THIRD) % (TURN as int), s, l);
    lemma_channel_bounds(h, s, l);
    lemma_channel_bounds((h - THIRD) % (TURN as int), s, l);
}

/// Without saturation the colour is a gray: every channel is the lightness,
/// rounded to a channel, whatever the hue.
pub proof fn lemma_no_saturation_is_gray(hue: int, saturation: int, lightness: int)
    requires
        saturation <= 0,
    ensures
        ({
            let level = nearest_channel(clamp(lightness, 0, FULL as int), FULL as int);
            let color = hsl_rgb(hue, saturation, lightness);
            color.r == level && color.g == level && color.b == level
        }),
{
    let l = clamp(lightness, 0, FULL as int);
    let f = FULL as int;
    let w = SIXTH as int;
    let p = lower_level(0, l);
    let q = upper_level(0, l);
    assert(p == l * f && q == l * f) by (nonlinear_arith)
        requires
            p == lower_level(0, l),
            q == upper_level(0, l),
            f == FULL,
    ;
    assert forall|t: int| level_at(p, q, t) == l * (f * w) by {
        assert((q - p) * t == 0 && (q - p) * (TWO_THIRDS - t) == 0
            && p * w == l * (f * w)) by (nonlinear_arith)
            requires
                p == q,
                p == l * f,
        ;
    }
    assert(nearest_channel(l * (f * w), f * (f * w)) == nearest_channel(l, f)) by {
        assert(510 * (l * (f * w)) + f * (f * w) == (f * w) * (510 * l + f)
            && 2 * (f * (f * w)) == (f * w) * (2 * f)) by (nonlinear_arith);
        assert(f * w > 0) by (nonlinear_arith)
            requires
                f > 0,
                w > 0,
        ;
        vstd::arithmetic::div_mod::lemma_div_multiples_vanish_quotient(f * w, 510 * l + f, 2 * f);
    }
    assert(f * f * w == f * (f * w)) by (nonlinear_arith);
    lemma_hsl_channels_fit(hue, saturation, lightness);
}

/// Without lightness the colour is black, and with full lightness it is
/// white, whatever the hue and the saturation.
pub proof fn lemma_lightness_extremes(hue: int, saturation: int, lightness: int)
    ensures
        lightness <= 0 ==> hsl_rgb(hue, saturation, lightness) == (Color { r: 0, g: 0, b: 0 }),
        lightness >= FULL ==> hsl_rgb(hue, saturation, lightness) == (Color {
            r: 255,
            g: 255,
            b: 255,
        }),
{
    let s = clamp(saturation, 0, FULL as int);
    let l = clamp(lightness, 0, FULL as int);
    let f = FULL as int;
    let w = SIXTH as int;
    let p = lower_level(s, l);
    let q = upper_level(s, l);
    let whole = f * f * w;
    assert(whole == 600_000_000_000_000_000_000_000) by (nonlinear_arith)
        requires
            whole == f * f * w,
            f == 100_000_000,
            w == 60_000_000,
    ;
    if lightness <= 0 {
        assert(p == 0 && q == 0) by (nonlinear_arith)
            requires
                p == lower_level(s, 0),
                q == upper_level(s, 0),
        ;
        assert forall|t: int| level_at(p, q, t) == 0 by {
            assert(0 * w == 0 && (0 - 0) * t == 0 && (0 - 0) * (TWO_THIRDS - t) == 0)
                by (nonlinear_arith);
        }
        assert((510 * 0 + whole) / (2 * whole) == 0) by (nonlinear_arith)
            requires
                whole == 600_000_000_000_000_000_000_000,
        ;
    } else if lightness >= FULL {
        assert(p == f * f && q == f * f) by (nonlinear_arith)
            requires
                p == lower_level(s, f),
                q == upper_level(s, f),
                f == FULL,
        ;
        assert forall|t: int| level_at(p, q, t) == whole by {
            assert((q - p) * t == 0 && (q - p) * (TWO_THIRDS - t) == 0 && p * w
                == whole) by (nonlinear_arith)
                requires
                    p == q,
                    p == f * f,
                    whole == f * f * w,
            ;
        }
        assert((510 * whole + whole) / (2 * whole) == 255) by (nonlinear_arith)
            requires
                whole == 600_000_000_000_000_000_000_000,
        ;
    }
}

/// Two hues that differ by whole turns give the same colour with any
/// saturation and lightness.
pub proof fn lemma_hue_text_wraps(
    first: Seq<char>,
    second: Seq<char>,
    turns: int,
    saturation: Seq<char>,
    lightness: Seq<char>,
)
    requires
        real_units(first) is Some,
        real_units(second) is Some,
        real_units(second)->0 == real_units(first)->0 + turns * TURN,
    ensures
        hsl_arguments_color(second, saturation, lightness) == hsl_arguments_color(
            first,
            saturation,
            lightness,
        ),
{
    let hue = real_units(first)->0;
    match (percent_units(saturation), percent_units(lightness)) {
        (Some(s), Some(l)) => {
            lemma_hue_wraps(hue, turns, s, l);
        },
        _ => {},
    }
}

/// White space before and after an expression does not change what it
/// stands for.
pub proof fn lemma_outer_whitespace(before: Seq<char>, s: Seq<char>, after: Seq<char>)
    requires
        all_whitespace(before),
        all_whitespace(after),
    ensures
        css_color(before + s + after) == css_color(s),
{
    lemma_trim_ignores_padding(before, s, after);
}

/// The expression `name(a,b,c)`.
pub open spec fn call_text(name: Seq<char>, a: Seq<char>, b: Seq<char>, c: Seq<char>) -> Seq<
    char,
> {
    name + seq!['('] + (a + seq![','] + b + seq![','] + c) + seq![')']
}

/// The arguments of `name(a,b,c)` are `a`, `b` and `c`, each without its
/// surrounding white space, where `name` holds no `(` and none of the three
/// holds a comma.
pub proof fn lemma_call_arguments(name: Seq<char>, a: Seq<char>, b: Seq<char>, c: Seq<char>)
    requires
        !name.contains('('),
        !a.contains(','),
        !b.contains(','),
        !c.contains(','),
    ensures
        interior(call_text(name, a, b, c)) == Some(a + seq![','] + b + seq![','] + c),
        arguments(a + seq![','] + b + seq![','] + c) == seq![trim(a), trim(b), trim(c)],
{
    let inner = a + seq![','] + b + seq![','] + c;
    let s = call_text(name, a, b, c);
    let open = name.len() as int;
    let close = s.len() - 1;
    assert(s[open] == '(');
    assert(s[close] == ')');
    assert forall|j: int| 0 <= j < open implies s[j] != '(' by {
        assert(s[j] == name[j]);
    }
    s.index_of_first_ensures('(');
    s.index_of_last_ensures(')');
    assert(s.index_of_first('(') == Some(open));
    assert(s.index_of_last(')') == Some(close));
    assert(s.subrange(open + 1, close) =~= inner);
    lemma_split_single(a, ',');
    lemma_split_single(b, ',');
    lemma_split_single(c, ',');
    lemma_split_joined(b, c, ',');
    lemma_split_joined(a, b + seq![','] + c, ',');
    assert(a + seq![','] + (b + seq![','] + c) =~= inner);
    assert(split(inner, ',') =~= seq![a, b, c]);
    assert(arguments(inner) =~= seq![trim(a), trim(b), trim(c)]);
}

/// In `rgb(a, b, c)` each channel is read from its argument without the
/// white space around it; the first argument that fails is reported.
pub proof fn lemma_rgb_of_arguments(name: Seq<char>, a: Seq<char>, b: Seq<char>, c: Seq<char>)
    requires
        !name.contains('('),
        !a.contains(','),
        !b.contains(','),
        !c.contains(','),
    ensures
        rgb_color(call_text(name, a, b, c)) == from_channels(
            rgb_component(trim(a)),
            rgb_component(trim(b)),
            rgb_component(trim(c)),
        ),
{
    lemma_call_arguments(name, a, b, c);
}

/// In `hsl(h, s, l)` hue, saturation and lightness are read from their
/// arguments without the white space around them.
pub proof fn lemma_hsl_of_arguments(name: Seq<char>, a: Seq<char>, b: Seq<char>, c: Seq<char>)
    requires
        !name.contains('('),
        !a.contains(','),
        !b.contains(','),
        !c.contains(','),
    ensures
        hsl_color(call_text(name, a, b, c)) == match hsl_arguments_color(
            trim(a),
            trim(b),
            trim(c),
        ) {
            Some(color) => Ok::<Color, Failure>(color),
            None => Err(Failure::UnsupportedFormat),
        },
{
    lemma_call_arguments(name, a, b, c);
}

/// An argument with white space on both sides.
pub open spec fn padded(before: Seq<char>, argument: Seq<char>, after: Seq<char>) -> Seq<char> {
    before + argument + after
}

/// White space around the arguments of `rgb(..)` or `hsl(..)`, that is
/// after `(`, on either side of a comma and before `)`, and white space around
/// the whole expression, does not change what the expression stands for.
pub proof fn lemma_inner_whitespace(
    name: Seq<char>,
    a: Seq<char>,
    b: Seq<char>,
    c: Seq<char>,
    w: Seq<Seq<char>>,
)
    requires
        lower(name) == "rgb"@ || lower(name) == "hsl"@,
        !a.contains(','),
        !b.contains(','),
        !c.contains(','),
        w.len() == 8,
        forall|k: int| 0 <= k < 8 ==> all_whitespace(#[trigger] w[k]),
    ensures
        css_color(
            w[0] + call_text(name, padded(w[1], a, w[2]), padded(w[3], b, w[4]), padded(w[5], c, w[6]))
                + w[7],
        ) == css_color(call_text(name, a, b, c)),
{
    reveal_strlit("rgb");
    reveal_strlit("hsl");
    reveal_strlit("rgb(");
    reveal_strlit("hsl(");
    let pa = padded(w[1], a, w[2]);
    let pb = padded(w[3], b, w[4]);
    let pc = padded(w[5], c, w[6]);
    let wide = call_text(name, pa, pb, pc);
    let plain = call_text(name, a, b, c);
    lemma_outer_whitespace(w[0], wide, w[7]);
    assert(name.len() == 3) by {
        assert(lower(name).len() == name.len());
    }
    assert forall|j: int| 0 <= j < name.len() implies name[j] != '(' by {
        assert(lower(name)[j] == lower_char(name[j]));
    }
    assert(all_whitespace(w[1]) && all_whitespace(w[2]) && all_whitespace(w[3]) && all_whitespace(
        w[4],
    ) && all_whitespace(w[5]) && all_whitespace(w[6]));
    lemma_padding_has_no_comma(w[1], a, w[2]);
    lemma_padding_has_no_comma(w[3], b, w[4]);
    lemma_padding_has_no_comma(w[5], c, w[6]);
    lemma_call_arguments(name, pa, pb, pc);
    lemma_call_arguments(name, a, b, c);
    lemma_trim_ignores_padding(w[1], a, w[2]);
    lemma_trim_ignores_padding(w[3], b, w[4]);
    lemma_trim_ignores_padding(w[5], c, w[6]);
    lemma_call_selects(name, pa, pb, pc);
    lemma_call_selects(name, a, b, c);
}

/// White space holds no comma, so padding an argument adds none.
proof fn lemma_padding_has_no_comma(before: Seq<char>, argument: Seq<char>, after: Seq<char>)
    requires
        all_whitespace(before),
        all_whitespace(after),
        !argument.contains(','),
    ensures
        !padded(before, argument, after).contains(','),
{
    let p = padded(before, argument, after);
    assert forall|j: int| 0 <= j < p.len() implies p[j] != ',' by {
        if j < before.len() {
            assert(p[j] == before[j]);
        } else if j < before.len() + argument.len() {
            assert(p[j] == argument[j - before.len()]);
        } else {
            assert(p[j] == after[j - before.len() - argument.len()]);
        }
    }
}

/// An expression `rgb(..)` or `hsl(..)` without white space around it is
/// read in the notation that its name selects.
proof fn lemma_call_selects(name: Seq<char>, a: Seq<char>, b: Seq<char>, c: Seq<char>)
    requires
        lower(name) == "rgb"@ || lower(name) == "hsl"@,
    ensures
        lower(name) == "rgb"@ ==> css_color(call_text(name, a, b, c)) == rgb_color(
            call_text(name, a, b, c),
        ),
        lower(name) == "hsl"@ ==> css_color(call_text(name, a, b, c)) == hsl_color(
            call_text(name, a, b, c),
        ),
{
    reveal_strlit("rgb");
    reveal_strlit("hsl");
    reveal_strlit("rgb(");
    reveal_strlit("hsl(");
    let s = call_text(name, a, b, c);
    assert(lower(name).len() == name.len());
    assert(s[0] == name[0]);
    assert(lower(name)[0] == lower_char(name[0]));
    assert(lower(name)[1] == lower_char(name[1]));
    assert(lower(name)[2] == lower_char(name[2]));
    assert(!is_whitespace(s[0]));
    assert(s.last() == ')');
    assert(trim(s) == s);
    if named_color(s) is Some {
        lemma_named_in_letters(s);
    }
    assert(s[1] == name[1] && s[2] == name[2] && s[3] == '(');
    let folded = lower(s);
    assert(folded.subrange(0, 4) =~= seq![lower(name)[0], lower(name)[1], lower(name)[2], '(']);
    if lower(name) == "rgb"@ {
        assert("rgb("@ =~= folded.subrange(0, 4));
    } else {
        assert("hsl("@ =~= folded.subrange(0, 4));
        assert(!("rgb("@ =~= folded.subrange(0, 4)));
    }
}

} // verus!
