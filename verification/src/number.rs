//! Numeric components: hexadecimal pairs, decimal integers, and the decimal
//! rendering of integers.

use vstd::prelude::*;
use vstd::string::*;

verus! {

/// Why a piece of text is not an 8-bit number in hexadecimal notation.
#[derive(Debug, Clone, Copy, PartialEq, Eq, Structural)]
pub enum HexError {
    /// The text has no characters.
    Empty,
    /// Some character is not one of `0-9`, `a-f`, `A-F`.
    InvalidDigit,
    /// Every character is a hexadecimal digit, but the number exceeds 255.
    TooLarge,
}

/// Tells whether `c` is one of `0-9`.
pub open spec fn is_digit(c: char) -> bool {
    '0' <= c <= '9'
}

/// The number that the decimal digit `c` stands for.
pub open spec fn digit_value(c: char) -> nat
    recommends
        is_digit(c),
{
    (c as u32 - '0' as u32) as nat
}

/// Tells whether every character of `s` is a decimal digit.
pub open spec fn all_digits(s: Seq<char>) -> bool {
    forall|i: int| 0 <= i < s.len() ==> is_digit(#[trigger] s[i])
}

/// The number that a sequence of decimal digits stands for, most significant
/// digit first. The empty sequence stands for 0.
pub open spec fn digits_value(s: Seq<char>) -> nat
    recommends
        all_digits(s),
    decreases s.len(),
{
    if s.len() == 0 {
        0
    } else {
        digits_value(s.drop_last()) * 10 + digit_value(s.last())
    }
}

/// The value of `s` read as a decimal integer: an optional `-`, then at least
/// one digit. `None` where `s` has another form, or where the value does not
/// fit in 32 bits with a sign.
pub open spec fn int_text_value(s: Seq<char>) -> Option<int> {
    let negative = s.len() > 0 && s[0] == '-';
    let digits = if negative {
        s.drop_first()
    } else {
        s
    };
    let magnitude = digits_value(digits) as int;
    let value = if negative {
        -magnitude
    } else {
        magnitude
    };
    if digits.len() > 0 && all_digits(digits) && i32::MIN <= value <= i32::MAX {
        Some(value)
    } else {
        None
    }
}

/// Tells whether `c` is one of `0-9`, `a-f`, `A-F`.
pub open spec fn is_hex_digit(c: char) -> bool {
    ||| '0' <= c <= '9'
    ||| 'a' <= c <= 'f'
    ||| 'A' <= c <= 'F'
}

/// The number that the hexadecimal digit `c` stands for.
pub open spec fn hex_digit_value(c: char) -> nat
    recommends
        is_hex_digit(c),
{
    if '0' <= c <= '9' {
        (c as u32 - '0' as u32) as nat
    } else if 'a' <= c <= 'f' {
        (c as u32 - 'a' as u32 + 10) as nat
    } else {
        (c as u32 - 'A' as u32 + 10) as nat
    }
}

/// Tells whether every character of `s` is a hexadecimal digit.
pub open spec fn all_hex_digits(s: Seq<char>) -> bool {
    forall|i: int| 0 <= i < s.len() ==> is_hex_digit(#[trigger] s[i])
}

/// The number that a sequence of hexadecimal digits stands for, most
/// significant digit first.
pub open spec fn hex_value(s: Seq<char>) -> nat
    recommends
        all_hex_digits(s),
    decreases s.len(),
{
    if s.len() == 0 {
        0
    } else {
        hex_value(s.drop_last()) * 16 + hex_digit_value(s.last())
    }
}

/// The value of `s` read as an 8-bit number in hexadecimal notation, or the
/// reason why it is none.
pub open spec fn hex_text_value(s: Seq<char>) -> Result<u8, HexError> {
    if s.len() == 0 {
        Err(HexError::Empty)
    } else if !all_hex_digits(s) {
        Err(HexError::InvalidDigit)
    } else if hex_value(s) > 255 {
        Err(HexError::TooLarge)
    } else {
        Ok(hex_value(s) as u8)
    }
}

/// The character for a number below ten.
pub open spec fn digit_char(d: nat) -> char
    recommends
        d < 10,
{
    ('0' as u32 + d) as char
}

/// The character for a number below sixteen: a decimal digit, or one of the
/// capital letters `A` to `F`.
pub open spec fn hex_digit_char(d: nat) -> char
    recommends
        d < 16,
{
    if d < 10 {
        ('0' as u32 + d) as char
    } else {
        ('A' as u32 + d - 10) as char
    }
}

/// The decimal digits of `n`, most significant first, without leading zeros.
pub open spec fn digits_text(n: nat) -> Seq<char>
    decreases n,
{
    if n < 10 {
        seq![digit_char(n)]
    } else {
        digits_text(n / 10).push(digit_char(n % 10))
    }
}

/// The decimal notation of `v`, with a leading `-` where `v` is negative.
pub open spec fn decimal_text(v: int) -> Seq<char> {
    if v < 0 {
        seq!['-'] + digits_text((-v) as nat)
    } else {
        digits_text(v as nat)
    }
}

/// A prefix of a digit sequence never stands for a larger number than the
/// whole sequence.
pub proof fn lemma_digits_value_prefix(s: Seq<char>, k: int)
    requires
        0 <= k <= s.len(),
    ensures
        digits_value(s.take(k)) <= digits_value(s),
    decreases s.len(),
{
    if k == s.len() {
        assert(s.take(k) =~= s);
    } else {
        assert(s.drop_last().take(k) =~= s.take(k));
        lemma_digits_value_prefix(s.drop_last(), k);
    }
}

/// The value of the decimal digit `c`, if it is one.
pub fn decimal_digit(c: char) -> (d: Option<u8>)
    ensures
        d is Some == is_digit(c),
        d matches Some(v) ==> v == digit_value(c) && v < 10,
{
    if '0' <= c && c <= '9' {
        let n: u32 = c as u32;
        Some((n - 48) as u8)
    } else {
        None
    }
}

/// The value of the hexadecimal digit `c`, if it is one.
pub fn hex_digit(c: char) -> (d: Option<u8>)
    ensures
        d is Some == is_hex_digit(c),
        d matches Some(v) ==> v == hex_digit_value(c) && v < 16,
{
    let n: u32 = c as u32;
    if '0' <= c && c <= '9' {
        Some((n - 48) as u8)
    } else if 'a' <= c && c <= 'f' {
        Some((n - 97 + 10) as u8)
    } else if 'A' <= c && c <= 'F' {
        Some((n - 65 + 10) as u8)
    } else {
        None
    }
}

/// Reads `chars[from..to]` as an 8-bit number in hexadecimal notation.
pub fn parse_hex_u8(chars: &Vec<char>, from: usize, to: usize) -> (value: Result<u8, HexError>)
    requires
        from <= to <= chars.len(),
    ensures
        value == hex_text_value(chars@.subrange(from as int, to as int)),
{
    let ghost s = chars@.subrange(from as int, to as int);
    if from == to {
        return Err(HexError::Empty);
    }
    let mut acc: u32 = 0;
    let mut too_large = false;
    let mut i: usize = from;
    assert(s.take(0) =~= Seq::<char>::empty());
    while i < to
        invariant
            from <= i <= to <= chars.len(),
            s == chars@.subrange(from as int, to as int),
            all_hex_digits(s.take(i - from)),
            acc <= 255,
            !too_large ==> acc == hex_value(s.take(i - from)),
            too_large ==> hex_value(s.take(i - from)) > 255,
        decreases to - i,
    {
        let ghost before = s.take(i - from);
        let ghost now = s.take(i - from + 1);
        assert(now.drop_last() =~= before);
        assert(now.last() == chars@[i as int]);
        match hex_digit(chars[i]) {
            None => {
                assert(!is_hex_digit(s[i - from]));
                return Err(HexError::InvalidDigit);
            },
            Some(d) => {
                if !too_large {
                    let next: u32 = acc * 16 + d as u32;
                    if next > 255 {
                        too_large = true;
                    } else {
                        acc = next;
                    }
                }
            },
        }
        i += 1;
    }
    assert(s.take(to - from) =~= s);
    if too_large {
        Err(HexError::TooLarge)
    } else {
        Ok(acc as u8)
    }
}

/// Reads `chars[from..to]` as a decimal integer of 32 bits with a sign.
pub fn parse_int_i32(chars: &Vec<char>, from: usize, to: usize) -> (value: Option<i32>)
    requires
        from <= to <= chars.len(),
    ensures
        match value {
            Some(v) => int_text_value(chars@.subrange(from as int, to as int)) == Some(v as int),
            None => int_text_value(chars@.subrange(from as int, to as int)) is None,
        },
{
    let ghost s = chars@.subrange(from as int, to as int);
    let negative = from < to && chars[from] == '-';
    let first: usize = if negative {
        from + 1
    } else {
        from
    };
    let ghost digits = chars@.subrange(first as int, to as int);
    assert(digits =~= if negative {
        s.drop_first()
    } else {
        s
    });
    if first == to {
        return None;
    }
    let mut acc: i64 = 0;
    let mut i: usize = first;
    assert(digits.take(0) =~= Seq::<char>::empty());
    while i < to
        invariant
            from <= first <= i <= to <= chars.len(),
            s == chars@.subrange(from as int, to as int),
            digits == chars@.subrange(first as int, to as int),
            negative == (s.len() > 0 && s[0] == '-'),
            digits == if negative {
                s.drop_first()
            } else {
                s
            },
            all_digits(digits.take(i - first)),
            0 <= acc <= 0x8000_0000,
            acc == digits_value(digits.take(i - first)),
        decreases to - i,
    {
        let ghost before = digits.take(i - first);
        let ghost now = digits.take(i - first + 1);
        assert(now.drop_last() =~= before);
        assert(now.last() == chars@[i as int]);
        match decimal_digit(chars[i]) {
            None => {
                assert(!is_digit(digits[i - first]));
                return None;
            },
            Some(d) => {
                let next: i64 = acc * 10 + d as i64;
                if next > 0x8000_0000 {
                    proof {
                        lemma_digits_value_prefix(digits, i - first + 1);
                    }
                    return None;
                }
                acc = next;
            },
        }
        i += 1;
    }
    assert(digits.take(to - first) =~= digits);
    let value: i64 = if negative {
        -acc
    } else {
        acc
    };
    if value > 0x7fff_ffff {
        None
    } else {
        Some(value as i32)
    }
}

/// The one-character text of a number below ten.
pub fn digit_text(d: u64) -> (text: &'static str)
    requires
        d < 10,
    ensures
        text@ == seq![digit_char(d as nat)],
{
    proof {
        reveal_strlit("0");
        reveal_strlit("1");
        reveal_strlit("2");
        reveal_strlit("3");
        reveal_strlit("4");
        reveal_strlit("5");
        reveal_strlit("6");
        reveal_strlit("7");
        reveal_strlit("8");
        reveal_strlit("9");
    }
    let text = if d == 0 {
        "0"
    } else if d == 1 {
        "1"
    } else if d == 2 {
        "2"
    } else if d == 3 {
        "3"
    } else if d == 4 {
        "4"
    } else if d == 5 {
        "5"
    } else if d == 6 {
        "6"
    } else if d == 7 {
        "7"
    } else if d == 8 {
        "8"
    } else {
        "9"
    };
    assert(text@ =~= seq![digit_char(d as nat)]);
    text
}

/// The one-character text of a number below sixteen.
pub fn hex_digit_text(d: u8) -> (text: &'static str)
    requires
        d < 16,
    ensures
        text@ == seq![hex_digit_char(d as nat)],
{
    if d < 10 {
        digit_text(d as u64)
    } else {
        proof {
            reveal_strlit("A");
            reveal_strlit("B");
            reveal_strlit("C");
            reveal_strlit("D");
            reveal_strlit("E");
            reveal_strlit("F");
        }
        let text = if d == 10 {
            "A"
        } else if d == 11 {
            "B"
        } else if d == 12 {
            "C"
        } else if d == 13 {
            "D"
        } else if d == 14 {
            "E"
        } else {
            "F"
        };
        assert(text@ =~= seq![hex_digit_char(d as nat)]);
        text
    }
}

/// Appends the decimal digits of `n` to `out`.
pub fn push_digits(out: &mut String, n: u64)
    ensures
        final(out)@ == old(out)@ + digits_text(n as nat),
    decreases n,
{
    if n >= 10 {
        push_digits(out, n / 10);
    }
    let ghost mid = out@;
    out.append(digit_text(n % 10));
    proof {
        if n >= 10 {
            assert(out@ =~= old(out)@ + digits_text((n / 10) as nat).push(
                digit_char((n % 10) as nat),
            ));
        }
    }
}

/// Appends the decimal notation of `v` to `out`.
pub fn push_decimal(out: &mut String, v: i64)
    ensures
        final(out)@ == old(out)@ + decimal_text(v as int),
{
    if v < 0 {
        proof {
            reveal_strlit("-");
        }
        out.append("-");
        assert(out@ =~= old(out)@ + seq!['-']);
        let magnitude: u64 = (-(v as i128)) as u64;
        push_digits(out, magnitude);
        assert(out@ =~= old(out)@ + (seq!['-'] + digits_text((-v) as nat)));
    } else {
        push_digits(out, v as u64);
    }
}

} // verus!
