//! The ways in which a colour expression can fail to parse, and the message
//! that describes each.

use crate::number::{decimal_text, digits_text, push_decimal, push_digits, HexError};
use vstd::prelude::*;
use vstd::string::*;

verus! {

/// A parse failure. Each variant names one rule of the grammar that the input
/// broke and carries what is needed to report it.
#[derive(Debug, PartialEq, Eq)]
pub enum ColorParseError {
    /// The text after `#` has neither 3 nor 6 characters; carries their number.
    InvalidLength(usize),
    /// A pair of hexadecimal digits is not a number; carries the pair and the
    /// reason.
    ComponentParseError(String, HexError),
    /// The input has none of the known forms.
    MissingHashPrefix,
    /// An `hsl(..)` expression is malformed.
    UnsupportedFormat,
    /// An `rgb(..)` expression lacks its parentheses or does not have three
    /// components.
    RgbInvalidFormat,
    /// A component of `rgb(..)` is not a decimal integer; carries the component.
    RgbComponentParseError(String),
    /// A component of `rgb(..)` lies outside `0..=255`; carries its value.
    RgbComponentOutOfRange(i32),
}

/// The mathematical content of a [`ColorParseError`].
pub enum Failure {
    InvalidLength(nat),
    ComponentParseError(Seq<char>, HexError),
    MissingHashPrefix,
    UnsupportedFormat,
    RgbInvalidFormat,
    RgbComponentParseError(Seq<char>),
    RgbComponentOutOfRange(int),
}

impl View for ColorParseError {
    type V = Failure;

    open spec fn view(&self) -> Failure {
        match self {
            ColorParseError::InvalidLength(n) => Failure::InvalidLength(*n as nat),
            ColorParseError::ComponentParseError(pair, reason) => Failure::ComponentParseError(
                pair@,
                *reason,
            ),
            ColorParseError::MissingHashPrefix => Failure::MissingHashPrefix,
            ColorParseError::UnsupportedFormat => Failure::UnsupportedFormat,
            ColorParseError::RgbInvalidFormat => Failure::RgbInvalidFormat,
            ColorParseError::RgbComponentParseError(text) => Failure::RgbComponentParseError(
                text@,
            ),
            ColorParseError::RgbComponentOutOfRange(v) => Failure::RgbComponentOutOfRange(
                *v as int,
            ),
        }
    }
}

/// The mathematical content of a parse result.
pub open spec fn outcome<T>(result: Result<T, ColorParseError>) -> Result<T, Failure> {
    match result {
        Ok(value) => Ok(value),
        Err(error) => Err(error@),
    }
}

/// The text that describes a [`HexError`].
pub open spec fn hex_error_text(reason: HexError) -> Seq<char> {
    match reason {
        HexError::Empty => "cannot parse integer from empty string"@,
        HexError::InvalidDigit => "invalid digit found in string"@,
        HexError::TooLarge => "number too large to fit in target type"@,
    }
}

/// The message that describes a failure.
pub open spec fn message_text(failure: Failure) -> Seq<char> {
    match failure {
        Failure::InvalidLength(n) => "Недійсна довжина Hex-коду: "@ + digits_text(n)
            + " символів. Очікується 3 або 6."@,
        Failure::ComponentParseError(pair, reason) => "Недійсний шістнадцятковий компонент '"@
            + pair + "'. Деталі: "@ + hex_error_text(reason),
        Failure::MissingHashPrefix => "Колір має починатися з символу '#'. Непідтримуваний формат."@,
        Failure::UnsupportedFormat => "Непідтримуваний формат кольору."@,
        Failure::RgbInvalidFormat => "Некоректний формат rgb(). Очікується: rgb(r, g, b)"@,
        Failure::RgbComponentParseError(text) => "Недійсний числовий компонент rgb(): '"@ + text
            + "'"@,
        Failure::RgbComponentOutOfRange(v) => "Компонент rgb() поза діапазоном 0..=255: "@
            + decimal_text(v),
    }
}

impl HexError {
    /// The text that describes this reason.
    pub fn message(&self) -> (text: &'static str)
        ensures
            text@ == hex_error_text(*self),
    {
        match self {
            HexError::Empty => "cannot parse integer from empty string",
            HexError::InvalidDigit => "invalid digit found in string",
            HexError::TooLarge => "number too large to fit in target type",
        }
    }
}

impl ColorParseError {
    /// The message that describes this failure.
    pub fn message(&self) -> (text: String)
        ensures
            text@ == message_text(self@),
    {
        match self {
            ColorParseError::InvalidLength(n) => {
                let mut text = String::from_str("Недійсна довжина Hex-коду: ");
                push_digits(&mut text, *n as u64);
                text.append(" символів. Очікується 3 або 6.");
                text
            },
            ColorParseError::ComponentParseError(pair, reason) => {
                let mut text = String::from_str("Недійсний шістнадцятковий компонент '");
                text.append(pair.as_str());
                text.append("'. Деталі: ");
                text.append(reason.message());
                text
            },
            ColorParseError::MissingHashPrefix => String::from_str(
                "Колір має починатися з символу '#'. Непідтримуваний формат.",
            ),
            ColorParseError::UnsupportedFormat => String::from_str(
                "Непідтримуваний формат кольору.",
            ),
            ColorParseError::RgbInvalidFormat => String::from_str(
                "Некоректний формат rgb(). Очікується: rgb(r, g, b)",
            ),
            ColorParseError::RgbComponentParseError(component) => {
                let mut text = String::from_str("Недійсний числовий компонент rgb(): '");
                text.append(component.as_str());
                text.append("'");
                text
            },
            ColorParseError::RgbComponentOutOfRange(v) => {
                let mut text = String::from_str("Компонент rgb() поза діапазоном 0..=255: ");
                push_decimal(&mut text, *v as i64);
                text
            },
        }
    }
}

} // verus!
