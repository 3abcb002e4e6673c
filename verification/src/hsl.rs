//! Cylindrical notation: `hsl(h, s%, l%)`, and the conversion from hue,
//! saturation and lightness to red, green and blue.
//!
//! All quantities are kept as whole numbers of millionths: a hue is a number
//! of millionths of a degree, a saturation or lightness a number of millionths
//! of a percent. The conversion is carried out on exact fractions of these,
//! so that the only rounding is the last step to an 8-bit channel.

use crate::color::Color;
use crate::error::{outcome, ColorParseError, Failure};
use crate::number::{all_digits, decimal_digit, digit_value, digits_value, is_digit};
use crate::text::{argument_bounds, arguments, chars_of, find_first, interior};
use vstd::prelude::*;

verus! {

/// Millionths in one degree, and in one percent.
pub const UNIT: u64 = 1_000_000;

/// A full turn of the hue circle, in millionths of a degree.
pub const TURN: u64 = 360_000_000;

/// A sixth of a turn.
pub const SIXTH: u64 = 60_000_000;

/// A third of a turn.
pub const THIRD: u64 = 120_000_000;

/// Half a turn.
pub const HALF: u64 = 180_000_000;

/// Two thirds of a turn.
pub const TWO_THIRDS: u64 = 240_000_000;

/// One hundred percent, in millionths of a percent.
pub const FULL: u64 = 100_000_000;

/// The parts of a number in decimal notation.
pub struct RealParts {
    /// Whether the number begins with `-`.
    pub negative: bool,
    /// The digits before the point.
    pub whole: Seq<char>,
    /// The digits after the point; empty where there is no point.
    pub fraction: Seq<char>,
}

/// The parts of `s` read as a number in decimal notation: an optional `-`,
/// at least one digit and, optionally, a point followed by at least one
/// digit. `None` where `s` has another form.
pub open spec fn real_parts(s: Seq<char>) -> Option<RealParts> {
    let negative = s.len() > 0 && s[0] == '-';
    let body = if negative {
        s.drop_first()
    } else {
        s
    };
    let (whole, fraction, pointed) = match body.index_of_first('.') {
        Some(dot) => (body.take(dot), body.skip(dot + 1), true),
        None => (body, Seq::<char>::empty(), false),
    };
    if whole.len() > 0 && all_digits(whole) && all_digits(fraction) && (pointed ==> fraction.len()
        > 0) {
        Some(RealParts { negative, whole, fraction })
    } else {
        None
    }
}

/// The first six digits of `fraction`, with `0` in the places that it does
/// not have. Digits after the sixth are not read.
pub open spec fn six_places(fraction: Seq<char>) -> Seq<char> {
    Seq::new(
        6,
        |i: int|
            if i < fraction.len() {
                fraction[i]
            } else {
                '0'
            },
    )
}

/// The number that `parts` stands for, in millionths.
pub open spec fn units_of(parts: RealParts) -> int {
    let magnitude = digits_value(parts.whole) * UNIT + digits_value(six_places(parts.fraction));
    if parts.negative {
        -magnitude
    } else {
        magnitude as int
    }
}

/// The value of `s` read as a number in decimal notation, in millionths.
pub open spec fn real_units(s: Seq<char>) -> Option<int> {
    match real_parts(s) {
        Some(parts) => Some(units_of(parts)),
        None => None,
    }
}

/// The value of `s` read as a percentage, in millionths of a percent: a
/// number in decimal notation, directly followed by `%`.
pub open spec fn percent_units(s: Seq<char>) -> Option<int> {
    if s.len() > 0 && s.last() == '%' {
        real_units(s.drop_last())
    } else {
        None
    }
}

/// The colour that the arguments `hue`, `saturation` and `lightness` stand
/// for, or `None` where one of them is malformed.
pub open spec fn hsl_arguments_color(
    hue: Seq<char>,
    saturation: Seq<char>,
    lightness: Seq<char>,
) -> Option<Color> {
    match (real_units(hue), percent_units(saturation), percent_units(lightness)) {
        (Some(h), Some(s), Some(l)) => Some(hsl_rgb(h, s, l)),
        _ => None,
    }
}

/// The colour that the expression `s` stands for. Only the text between the
/// first `(` and the last `)` is read.
pub open spec fn hsl_color(s: Seq<char>) -> Result<Color, Failure> {
    match interior(s) {
        None => Err(Failure::UnsupportedFormat),
        Some(inner) => {
            let args = arguments(inner);
            if args.len() != 3 {
                Err(Failure::UnsupportedFormat)
            } else {
                match hsl_arguments_color(args[0], args[1], args[2]) {
                    Some(color) => Ok(color),
                    None => Err(Failure::UnsupportedFormat),
                }
            }
        },
    }
}

/// `v`, or the nearer of the two bounds where `v` lies outside them.
pub open spec fn clamp(v: int, low: int, high: int) -> int {
    if v < low {
        low
    } else if v > high {
        high
    } else {
        v
    }
}

/// The upper of the two levels between which the channels move, as a
/// numerator over `FULL * FULL`: `l * (1 + s)` for a lightness below one half,
/// and `l + s - l * s` from one half on.
pub open spec fn upper_level(s: int, l: int) -> int {
    if 2 * l < FULL {
        l * (FULL + s)
    } else {
        (l + s) * FULL - l * s
    }
}

/// The lower of the two levels, as a numerator over `FULL * FULL`: twice the
/// lightness less the upper level.
pub open spec fn lower_level(s: int, l: int) -> int {
    2 * l * FULL - upper_level(s, l)
}

/// The level of one channel at the hue position `t`, between the lower level
/// `p` and the upper level `q`, as a numerator over `SIXTH` times the
/// denominator of `p` and `q`: rising from `p` to `q` over the first sixth of
/// the turn, `q` up to one half, falling back to `p` up to two thirds, and
/// `p` from there on.
pub open spec fn level_at(p: int, q: int, t: int) -> int {
    if t < SIXTH {
        p * SIXTH + (q - p) * t
    } else if t < HALF {
        q * SIXTH
    } else if t < TWO_THIRDS {
        p * SIXTH + (q - p) * (TWO_THIRDS - t)
    } else {
        p * SIXTH
    }
}

/// The whole number nearest to `255 * numerator / denominator`; a value half
/// way between two whole numbers goes to the upper one.
pub open spec fn nearest_channel(numerator: int, denominator: int) -> int {
    (510 * numerator + denominator) / (2 * denominator)
}

/// The channel at hue position `t` for saturation `s` and lightness `l`, with
/// `0 <= t < TURN`, `0 <= s <= FULL` and `0 <= l <= FULL`.
pub open spec fn channel_at(t: int, s: int, l: int) -> int {
    nearest_channel(level_at(lower_level(s, l), upper_level(s, l), t), FULL * FULL * SIXTH)
}

/// The colour with hue `hue` (millionths of a degree), saturation
/// `saturation` and lightness `lightness` (millionths of a percent). The hue
/// is taken modulo a full turn; saturation and lightness are clamped to
/// `0..=FULL`. Red is read a third of a turn ahead of the hue, green at the
/// hue, blue a third of a turn behind.
pub open spec fn hsl_rgb(hue: int, saturation: int, lightness: int) -> Color {
    let h = hue % (TURN as int);
    let s = clamp(saturation, 0, FULL as int);
    let l = clamp(lightness, 0, FULL as int);
    Color {
        r: channel_at((h + THIRD) % (TURN as int), s, l) as u8,
        g: channel_at(h, s, l) as u8,
        b: channel_at((h - THIRD) % (TURN as int), s, l) as u8,
    }
}

/// The two levels lie in order between nothing and the whole.
pub proof fn lemma_levels_ordered(s: int, l: int)
    requires
        0 <= s <= FULL,
        0 <= l <= FULL,
    ensures
        0 <= lower_level(s, l) <= upper_level(s, l) <= FULL * FULL,
{
    let f = FULL as int;
    assert(0 <= l * s <= l * f && 0 <= s * (f - l) <= f * (f - l) && l * f <= f * f
        && (l + s) * f - l * s == l * f + s * (f - l) && l * (f + s) == l * f + l * s && 2 * l * f
        == l * f + l * f && f * (f - l) == f * f - l * f) by (nonlinear_arith)
        requires
            0 <= s <= f,
            0 <= l <= f,
    ;
    if 2 * l < f {
        assert(l * f + l * f <= f * f) by (nonlinear_arith)
            requires
                2 * l < f,
                0 <= l,
        ;
    } else {
        assert(l * f + l * f >= f * f) by (nonlinear_arith)
            requires
                2 * l >= f,
                0 <= f,
        ;
    }
}

/// The level of a channel lies between nothing and the whole.
pub proof fn lemma_level_bounds(p: int, q: int, t: int)
    requires
        0 <= p <= q,
        0 <= t < TURN,
    ensures
        0 <= level_at(p, q, t) <= q * SIXTH,
{
    let w = SIXTH as int;
    assert(0 <= p * w <= q * w) by (nonlinear_arith)
        requires
            0 <= p <= q,
            0 <= w,
    ;
    if t < SIXTH {
        assert(0 <= (q - p) * t <= (q - p) * w && (q - p) * w == q * w - p * w)
            by (nonlinear_arith)
            requires
                0 <= p <= q,
                0 <= t < w,
        ;
    } else if t < HALF {
    } else if t < TWO_THIRDS {
        let u = TWO_THIRDS - t;
        assert(0 <= (q - p) * u <= (q - p) * w && (q - p) * w == q * w - p * w)
            by (nonlinear_arith)
            requires
                0 <= p <= q,
                0 <= u <= w,
        ;
    }
}

/// A level between nothing and the whole gives a channel in `0..=255`.
pub proof fn lemma_nearest_channel_bounds(numerator: int, denominator: int)
    requires
        0 <= numerator <= denominator,
        0 < denominator,
    ensures
        0 <= nearest_channel(numerator, denominator) <= 255,
{
    let x = 510 * numerator + denominator;
    let d = 2 * denominator;
    assert(0 <= x / d <= 255) by (nonlinear_arith)
        requires
            0 <= x <= 255 * d + denominator,
            d == 2 * denominator,
            0 < denominator,
    ;
}

/// Every channel lies in `0..=255`.
pub proof fn lemma_channel_bounds(t: int, s: int, l: int)
    requires
        0 <= t < TURN,
        0 <= s <= FULL,
        0 <= l <= FULL,
    ensures
        0 <= channel_at(t, s, l) <= 255,
{
    let p = lower_level(s, l);
    let q = upper_level(s, l);
    lemma_levels_ordered(s, l);
    lemma_level_bounds(p, q, t);
    assert(q * SIXTH <= FULL * FULL * SIXTH && 0 < FULL * FULL * SIXTH) by (nonlinear_arith)
        requires
            q <= FULL * FULL,
    ;
    lemma_nearest_channel_bounds(level_at(p, q, t), FULL * FULL * SIXTH);
}

/// Rounds the level `numerator / (FULL * FULL * SIXTH)` to a channel.
fn round_channel(numerator: u128) -> (c: u8)
    requires
        numerator <= FULL * FULL * SIXTH,
    ensures
        c == nearest_channel(numerator as int, FULL * FULL * SIXTH),
{
    let denominator: u128 = (FULL as u128) * (FULL as u128) * (SIXTH as u128);
    proof {
        lemma_nearest_channel_bounds(numerator as int, denominator as int);
    }
    let rounded: u128 = (510 * numerator + denominator) / (2 * denominator);
    rounded as u8
}

/// Computes the channel at hue position `t` between the levels `p` and `q`.
fn channel_between(p: u128, q: u128, t: u64) -> (c: u8)
    requires
        p <= q <= FULL * FULL,
        t < TURN,
    ensures
        c == nearest_channel(level_at(p as int, q as int, t as int), FULL * FULL * SIXTH),
{
    let sixth: u128 = SIXTH as u128;
    proof {
        lemma_level_bounds(p as int, q as int, t as int);
        assert(p * sixth <= q * sixth <= FULL * FULL * SIXTH) by (nonlinear_arith)
            requires
                p <= q <= FULL * FULL,
                sixth == SIXTH,
        ;
    }
    let numerator: u128 = if t < SIXTH {
        p * sixth + (q - p) * (t as u128)
    } else if t < HALF {
        q * sixth
    } else if t < TWO_THIRDS {
        p * sixth + (q - p) * ((TWO_THIRDS - t) as u128)
    } else {
        p * sixth
    };
    round_channel(numerator)
}

/// Reduces a hue to the first turn.
fn wrap_hue(hue: i64) -> (h: u64)
    ensures
        h == (hue as int) % (TURN as int),
        h < TURN,
{
    let turn: i64 = TURN as i64;
    if hue >= 0 {
        (hue % turn) as u64
    } else {
        let below: i64 = (-(hue + 1)) % turn;
        proof {
            let n = -(hue + 1) as int;
            vstd::arithmetic::div_mod::lemma_fundamental_div_mod(n, turn as int);
            vstd::arithmetic::div_mod::lemma_fundamental_div_mod_converse(
                hue as int,
                turn as int,
                -(n / (turn as int)) - 1,
                turn - 1 - below,
            );
        }
        (turn - 1 - below) as u64
    }
}

/// Clamps a saturation or lightness to `0..=FULL`.
fn clamp_level(v: i64) -> (c: u64)
    ensures
        c == clamp(v as int, 0, FULL as int),
        c <= FULL,
{
    if v < 0 {
        0
    } else if v > FULL as i64 {
        FULL
    } else {
        v as u64
    }
}

/// Computes the lower and the upper level for saturation `s` and lightness
/// `l`.
fn levels(s: u64, l: u64) -> (pq: (u128, u128))
    requires
        s <= FULL,
        l <= FULL,
    ensures
        pq.0 == lower_level(s as int, l as int),
        pq.1 == upper_level(s as int, l as int),
        pq.0 <= pq.1 <= FULL * FULL,
{
    proof {
        lemma_levels_ordered(s as int, l as int);
        assert(0 <= l * s <= FULL * FULL && 0 <= l * (FULL + s) <= 2 * FULL * FULL && 0 <= (l + s)
            * FULL <= 2 * FULL * FULL && 0 <= 2 * l * FULL <= 2 * FULL * FULL && FULL * FULL
            == 10_000_000_000_000_000int) by (nonlinear_arith)
            requires
                0 <= s <= FULL,
                0 <= l <= FULL,
        ;
    }
    let f: u128 = FULL as u128;
    let q: u128 = if 2 * l < FULL {
        (l as u128) * (f + s as u128)
    } else {
        (l as u128 + s as u128) * f - (l as u128) * (s as u128)
    };
    let p: u128 = 2 * (l as u128) * f - q;
    (p, q)
}

/// Converts hue, saturation and lightness to red, green and blue. The hue is
/// given in millionths of a degree and may be any number; saturation and
/// lightness are given in millionths of a percent and are clamped to
/// `0..=100` percent.
pub fn hsl_to_rgb(hue: i64, saturation: i64, lightness: i64) -> (color: Color)
    ensures
        color == hsl_rgb(hue as int, saturation as int, lightness as int),
{
    let h = wrap_hue(hue);
    let s = clamp_level(saturation);
    let l = clamp_level(lightness);
    let (p, q) = levels(s, l);
    let ahead: u64 = if h + THIRD >= TURN {
        h + THIRD - TURN
    } else {
        h + THIRD
    };
    let behind: u64 = if h < THIRD {
        h + TURN - THIRD
    } else {
        h - THIRD
    };
    Color {
        r: channel_between(p, q, ahead),
        g: channel_between(p, q, h),
        b: channel_between(p, q, behind),
    }
}

/// Where the parts of a number in decimal notation lie in a vector of
/// characters.
struct RealSpan {
    negative: bool,
    whole: (usize, usize),
    fraction: (usize, usize),
}

impl RealSpan {
    /// The parts that the span marks in `chars`.
    spec fn parts(self, chars: Seq<char>) -> RealParts {
        RealParts {
            negative: self.negative,
            whole: chars.subrange(self.whole.0 as int, self.whole.1 as int),
            fraction: chars.subrange(self.fraction.0 as int, self.fraction.1 as int),
        }
    }

    /// The span lies within `chars` and marks digits only.
    spec fn fits(self, chars: Seq<char>) -> bool {
        &&& self.whole.0 <= self.whole.1 <= chars.len()
        &&& self.fraction.0 <= self.fraction.1 <= chars.len()
        &&& all_digits(self.parts(chars).whole)
        &&& all_digits(self.parts(chars).fraction)
    }
}

/// Tells whether `chars[from..to]` holds decimal digits only.
fn digits_only(chars: &Vec<char>, from: usize, to: usize) -> (b: bool)
    requires
        from <= to <= chars.len(),
    ensures
        b == all_digits(chars@.subrange(from as int, to as int)),
{
    let ghost s = chars@.subrange(from as int, to as int);
    let mut i: usize = from;
    while i < to
        invariant
            from <= i <= to <= chars.len(),
            s == chars@.subrange(from as int, to as int),
            forall|j: int| 0 <= j < i - from ==> is_digit(#[trigger] s[j]),
        decreases to - i,
    {
        if decimal_digit(chars[i]).is_none() {
            assert(!is_digit(s[i - from]));
            return false;
        }
        i += 1;
    }
    true
}

/// Finds the parts of `chars[from..to]` read as a number in decimal notation.
fn real_span(chars: &Vec<char>, from: usize, to: usize) -> (span: Option<RealSpan>)
    requires
        from <= to <= chars.len(),
    ensures
        match span {
            Some(span) => span.fits(chars@) && real_parts(chars@.subrange(from as int, to as int))
                == Some(span.parts(chars@)),
            None => real_parts(chars@.subrange(from as int, to as int)) is None,
        },
{
    let ghost s = chars@.subrange(from as int, to as int);
    let negative = from < to && chars[from] == '-';
    let first: usize = if negative {
        from + 1
    } else {
        from
    };
    let ghost body = chars@.subrange(first as int, to as int);
    assert(body =~= if negative {
        s.drop_first()
    } else {
        s
    });
    let (whole, fraction, pointed) = match find_first(chars, first, to, '.') {
        Some(dot) => {
            assert(body.take(dot as int) =~= chars@.subrange(first as int, first + dot));
            assert(body.skip(dot + 1) =~= chars@.subrange(first + dot + 1, to as int));
            ((first, first + dot), (first + dot + 1, to), true)
        },
        None => {
            assert(chars@.subrange(to as int, to as int) =~= Seq::<char>::empty());
            ((first, to), (to, to), false)
        },
    };
    if whole.0 < whole.1 && digits_only(chars, whole.0, whole.1) && digits_only(
        chars,
        fraction.0,
        fraction.1,
    ) && (!pointed || fraction.0 < fraction.1) {
        Some(RealSpan { negative, whole, fraction })
    } else {
        None
    }
}

/// Appending a digit to a number and reducing modulo 360 gives the same as
/// reducing first.
proof fn lemma_degrees_step(v: int, d: int)
    requires
        0 <= v,
        0 <= d < 10,
    ensures
        (v * 10 + d) % 360 == ((v % 360) * 10 + d) % 360,
{
    let k = v / 360;
    let r = v % 360;
    vstd::arithmetic::div_mod::lemma_fundamental_div_mod(v, 360);
    assert(v * 10 + d == 360 * (10 * k) + (r * 10 + d));
    vstd::arithmetic::div_mod::lemma_mod_multiples_vanish(10 * k, r * 10 + d, 360);
}

/// Computes the number that the digits `chars[from..to]` stand for, modulo
/// 360.
fn whole_degrees(chars: &Vec<char>, from: usize, to: usize) -> (d: u64)
    requires
        from <= to <= chars.len(),
        all_digits(chars@.subrange(from as int, to as int)),
    ensures
        d == digits_value(chars@.subrange(from as int, to as int)) % 360,
{
    let ghost s = chars@.subrange(from as int, to as int);
    let mut acc: u64 = 0;
    let mut i: usize = from;
    assert(s.take(0) =~= Seq::<char>::empty());
    while i < to
        invariant
            from <= i <= to <= chars.len(),
            s == chars@.subrange(from as int, to as int),
            all_digits(s),
            acc < 360,
            acc == digits_value(s.take(i - from)) % 360,
        decreases to - i,
    {
        let ghost now = s.take(i - from + 1);
        assert(now.drop_last() =~= s.take(i - from));
        assert(now.last() == s[i - from]);
        let d: u64 = match decimal_digit(chars[i]) {
            Some(d) => d as u64,
            None => 0,
        };
        proof {
            lemma_degrees_step(digits_value(s.take(i - from)) as int, d as int);
        }
        acc = (acc * 10 + d) % 360;
        i += 1;
    }
    assert(s.take(to - from) =~= s);
    acc
}

/// Computes the number that the digits `chars[from..to]` stand for, or 100
/// where it is larger.
fn whole_percent(chars: &Vec<char>, from: usize, to: usize) -> (d: u64)
    requires
        from <= to <= chars.len(),
        all_digits(chars@.subrange(from as int, to as int)),
    ensures
        d == clamp(digits_value(chars@.subrange(from as int, to as int)) as int, 0, 100),
{
    let ghost s = chars@.subrange(from as int, to as int);
    let mut acc: u64 = 0;
    let mut i: usize = from;
    assert(s.take(0) =~= Seq::<char>::empty());
    while i < to
        invariant
            from <= i <= to <= chars.len(),
            s == chars@.subrange(from as int, to as int),
            all_digits(s),
            acc == clamp(digits_value(s.take(i - from)) as int, 0, 100),
        decreases to - i,
    {
        let ghost now = s.take(i - from + 1);
        assert(now.drop_last() =~= s.take(i - from));
        assert(now.last() == s[i - from]);
        let d: u64 = match decimal_digit(chars[i]) {
            Some(d) => d as u64,
            None => 0,
        };
        acc = acc * 10 + d;
        if acc > 100 {
            acc = 100;
        }
        i += 1;
    }
    assert(s.take(to - from) =~= s);
    acc
}

/// Six digits stand for the sum of their values, each times its power of ten.
proof fn lemma_six_digits(p: Seq<char>)
    requires
        p.len() == 6,
    ensures
        digits_value(p) == 100_000 * digit_value(p[0]) + 10_000 * digit_value(p[1]) + 1_000
            * digit_value(p[2]) + 100 * digit_value(p[3]) + 10 * digit_value(p[4]) + digit_value(
            p[5],
        ),
{
    let upto5 = p.drop_last();
    let upto4 = upto5.drop_last();
    let upto3 = upto4.drop_last();
    let upto2 = upto3.drop_last();
    let upto1 = upto2.drop_last();
    let upto0 = upto1.drop_last();
    assert(digits_value(upto0) == 0);
    assert(digits_value(upto1) == digits_value(upto0) * 10 + digit_value(p[0]));
    assert(digits_value(upto2) == digits_value(upto1) * 10 + digit_value(p[1]));
    assert(digits_value(upto3) == digits_value(upto2) * 10 + digit_value(p[2]));
    assert(digits_value(upto4) == digits_value(upto3) * 10 + digit_value(p[3]));
    assert(digits_value(upto5) == digits_value(upto4) * 10 + digit_value(p[4]));
    assert(digits_value(p) == digits_value(upto5) * 10 + digit_value(p[5]));
}

/// Reads the digit in place `place` of the fraction `chars[from..to]`, or 0
/// where the fraction has no such place.
fn fraction_digit(chars: &Vec<char>, from: usize, to: usize, place: usize) -> (d: u64)
    requires
        from <= to <= chars.len(),
        all_digits(chars@.subrange(from as int, to as int)),
        place < 6,
    ensures
        d == digit_value(six_places(chars@.subrange(from as int, to as int))[place as int]),
        d < 10,
{
    if place < to - from {
        assert(chars@.subrange(from as int, to as int)[place as int] == chars@[from + place]);
        match decimal_digit(chars[from + place]) {
            Some(d) => d as u64,
            None => 0,
        }
    } else {
        0
    }
}

/// Computes the millionths that the fraction digits `chars[from..to]` stand
/// for.
fn fraction_units(chars: &Vec<char>, from: usize, to: usize) -> (f: u64)
    requires
        from <= to <= chars.len(),
        all_digits(chars@.subrange(from as int, to as int)),
    ensures
        f == digits_value(six_places(chars@.subrange(from as int, to as int))),
        f < UNIT,
{
    proof {
        lemma_six_digits(six_places(chars@.subrange(from as int, to as int)));
    }
    let d0 = fraction_digit(chars, from, to, 0);
    let d1 = fraction_digit(chars, from, to, 1);
    let d2 = fraction_digit(chars, from, to, 2);
    let d3 = fraction_digit(chars, from, to, 3);
    let d4 = fraction_digit(chars, from, to, 4);
    let d5 = fraction_digit(chars, from, to, 5);
    100_000 * d0 + 10_000 * d1 + 1_000 * d2 + 100 * d3 + 10 * d4 + d5
}

/// Reads `chars[from..to]` as a hue in degrees and reduces it to the first
/// turn, in millionths of a degree.
fn parse_hue(chars: &Vec<char>, from: usize, to: usize) -> (hue: Option<u64>)
    requires
        from <= to <= chars.len(),
    ensures
        match real_units(chars@.subrange(from as int, to as int)) {
            Some(units) => hue == Some((units % (TURN as int)) as u64),
            None => hue is None,
        },
{
    match real_span(chars, from, to) {
        None => None,
        Some(span) => {
            let degrees = whole_degrees(chars, span.whole.0, span.whole.1);
            let fraction = fraction_units(chars, span.fraction.0, span.fraction.1);
            let within: u64 = degrees * UNIT + fraction;
            proof {
                let parts = span.parts(chars@);
                let whole = digits_value(parts.whole) as int;
                let magnitude = whole * UNIT + fraction;
                let turns = whole / 360;
                assert(whole == 360 * turns + degrees);
                assert(magnitude == turns * TURN + within) by (nonlinear_arith)
                    requires
                        whole == 360 * turns + degrees,
                        magnitude == whole * UNIT + fraction,
                        within == degrees * UNIT + fraction,
                        TURN == 360 * UNIT,
                ;
                vstd::arithmetic::div_mod::lemma_fundamental_div_mod_converse(
                    magnitude,
                    TURN as int,
                    turns,
                    within as int,
                );
                if span.negative {
                    if within == 0 {
                        assert(-magnitude == (-turns) * TURN) by (nonlinear_arith)
                            requires
                                magnitude == turns * TURN + within,
                                within == 0,
                        ;
                        vstd::arithmetic::div_mod::lemma_fundamental_div_mod_converse(
                            -magnitude,
                            TURN as int,
                            -turns,
                            0,
                        );
                    } else {
                        assert(-magnitude == (-turns - 1) * TURN + (TURN - within))
                            by (nonlinear_arith)
                            requires
                                magnitude == turns * TURN + within,
                        ;
                        vstd::arithmetic::div_mod::lemma_fundamental_div_mod_converse(
                            -magnitude,
                            TURN as int,
                            -turns - 1,
                            TURN - within,
                        );
                    }
                }
            }
            if span.negative && within > 0 {
                Some(TURN - within)
            } else {
                Some(within)
            }
        },
    }
}

/// Reads `chars[from..to]` as a percentage and clamps it to `0..=100`
/// percent, in millionths of a percent.
fn parse_percent(chars: &Vec<char>, from: usize, to: usize) -> (level: Option<u64>)
    requires
        from <= to <= chars.len(),
    ensures
        match percent_units(chars@.subrange(from as int, to as int)) {
            Some(units) => level == Some(clamp(units, 0, FULL as int) as u64),
            None => level is None,
        },
{
    let ghost s = chars@.subrange(from as int, to as int);
    if from == to || chars[to - 1] != '%' {
        return None;
    }
    assert(s.drop_last() =~= chars@.subrange(from as int, to - 1));
    match real_span(chars, from, to - 1) {
        None => None,
        Some(span) => {
            let percent = whole_percent(chars, span.whole.0, span.whole.1);
            let fraction = fraction_units(chars, span.fraction.0, span.fraction.1);
            proof {
                let parts = span.parts(chars@);
                let whole = digits_value(parts.whole) as int;
                assert(whole >= 100 ==> whole * UNIT + fraction >= FULL) by (nonlinear_arith)
                    requires
                        fraction >= 0,
                        FULL == 100 * UNIT,
                ;
                assert(whole < 100 ==> whole * UNIT + fraction < FULL) by (nonlinear_arith)
                    requires
                        fraction < UNIT,
                        FULL == 100 * UNIT,
                ;
            }
            if span.negative {
                Some(0)
            } else if percent >= 100 {
                Some(FULL)
            } else {
                Some(percent * UNIT + fraction)
            }
        },
    }
}

/// Reads `input` as a colour in the notation `hsl(h, s%, l%)`.
pub fn parse_hsl(input: &str) -> (color: Result<Color, ColorParseError>)
    ensures
        outcome(color) == hsl_color(input@),
{
    let chars = chars_of(input);
    match argument_bounds(&chars) {
        None => Err(ColorParseError::UnsupportedFormat),
        Some(pieces) => {
            if pieces.len() != 3 {
                return Err(ColorParseError::UnsupportedFormat);
            }
            let hue = parse_hue(&chars, pieces[0].0, pieces[0].1);
            let saturation = parse_percent(&chars, pieces[1].0, pieces[1].1);
            let lightness = parse_percent(&chars, pieces[2].0, pieces[2].1);
            match (hue, saturation, lightness) {
                (Some(h), Some(s), Some(l)) => Ok(hsl_to_rgb(h as i64, s as i64, l as i64)),
                _ => Err(ColorParseError::UnsupportedFormat),
            }
        },
    }
}

} // verus!
