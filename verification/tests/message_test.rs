use rcp_palette::number::HexError;
use rcp_palette::{parse_color, ColorParseError};

#[test]
fn message_of_invalid_length() {
    assert_eq!(
        ColorParseError::InvalidLength(4).message(),
        "Недійсна довжина Hex-коду: 4 символів. Очікується 3 або 6."
    );
    assert_eq!(
        ColorParseError::InvalidLength(0).message(),
        "Недійсна довжина Hex-коду: 0 символів. Очікується 3 або 6."
    );
    assert_eq!(
        ColorParseError::InvalidLength(1234567890).message(),
        "Недійсна довжина Hex-коду: 1234567890 символів. Очікується 3 або 6."
    );
    assert_eq!(
        ColorParseError::InvalidLength(usize::MAX).message(),
        format!("Недійсна довжина Hex-коду: {} символів. Очікується 3 або 6.", usize::MAX)
    );
}

#[test]
fn message_of_component_parse_error() {
    assert_eq!(
        ColorParseError::ComponentParseError("3G".to_string(), HexError::InvalidDigit).message(),
        "Недійсний шістнадцятковий компонент '3G'. Деталі: invalid digit found in string"
    );
    assert_eq!(
        ColorParseError::ComponentParseError(String::new(), HexError::Empty).message(),
        "Недійсний шістнадцятковий компонент ''. Деталі: cannot parse integer from empty string"
    );
    assert_eq!(
        ColorParseError::ComponentParseError("100".to_string(), HexError::TooLarge).message(),
        "Недійсний шістнадцятковий компонент '100'. Деталі: number too large to fit in target type"
    );
}

#[test]
fn message_of_the_plain_variants() {
    assert_eq!(
        ColorParseError::MissingHashPrefix.message(),
        "Колір має починатися з символу '#'. Непідтримуваний формат."
    );
    assert_eq!(ColorParseError::UnsupportedFormat.message(), "Непідтримуваний формат кольору.");
    assert_eq!(
        ColorParseError::RgbInvalidFormat.message(),
        "Некоректний формат rgb(). Очікується: rgb(r, g, b)"
    );
}

#[test]
fn message_of_rgb_component_parse_error() {
    assert_eq!(
        ColorParseError::RgbComponentParseError("aa".to_string()).message(),
        "Недійсний числовий компонент rgb(): 'aa'"
    );
    assert_eq!(
        ColorParseError::RgbComponentParseError(String::new()).message(),
        "Недійсний числовий компонент rgb(): ''"
    );
}

#[test]
fn message_of_rgb_component_out_of_range() {
    assert_eq!(
        ColorParseError::RgbComponentOutOfRange(256).message(),
        "Компонент rgb() поза діапазоном 0..=255: 256"
    );
    assert_eq!(
        ColorParseError::RgbComponentOutOfRange(-1).message(),
        "Компонент rgb() поза діапазоном 0..=255: -1"
    );
    assert_eq!(
        ColorParseError::RgbComponentOutOfRange(i32::MIN).message(),
        "Компонент rgb() поза діапазоном 0..=255: -2147483648"
    );
    assert_eq!(
        ColorParseError::RgbComponentOutOfRange(i32::MAX).message(),
        "Компонент rgb() поза діапазоном 0..=255: 2147483647"
    );
    assert_eq!(
        ColorParseError::RgbComponentOutOfRange(1000).message(),
        "Компонент rgb() поза діапазоном 0..=255: 1000"
    );
}

#[test]
fn message_of_each_reason() {
    assert_eq!(HexError::Empty.message(), "cannot parse integer from empty string");
    assert_eq!(HexError::InvalidDigit.message(), "invalid digit found in string");
    assert_eq!(HexError::TooLarge.message(), "number too large to fit in target type");
}

#[test]
fn messages_of_parse_failures() {
    assert_eq!(
        parse_color("#1A2B3G").unwrap_err().message(),
        "Недійсний шістнадцятковий компонент '3G'. Деталі: invalid digit found in string"
    );
    assert_eq!(
        parse_color("rgb(256, 0, 0)").unwrap_err().message(),
        "Компонент rgb() поза діапазоном 0..=255: 256"
    );
    assert_eq!(
        parse_color("hsl(x, 0%, 0%)").unwrap_err().message(),
        "Непідтримуваний формат кольору."
    );
}
