use rcp_palette::rgb::parse_rgb;
use rcp_palette::{parse_color, Color, ColorParseError};

fn not_a_number(text: &str) -> ColorParseError {
    ColorParseError::RgbComponentParseError(text.to_string())
}

#[test]
fn rgb_channels_keep_their_order() {
    assert_eq!(parse_color("rgb(255, 170, 0)"), Ok(Color { r: 255, g: 170, b: 0 }));
    assert_eq!(parse_color("rgb(1,2,3)"), Ok(Color { r: 1, g: 2, b: 3 }));
    assert_eq!(parse_color("rgb(0,0,0)"), Ok(Color { r: 0, g: 0, b: 0 }));
    assert_eq!(parse_color("rgb(255,255,255)"), Ok(Color { r: 255, g: 255, b: 255 }));
}

#[test]
fn rgb_every_value_in_range_is_read() {
    for v in 0..=255u8 {
        let text = format!("rgb({}, {}, {})", v, 255 - v, v / 2);
        assert_eq!(parse_color(&text), Ok(Color { r: v, g: 255 - v, b: v / 2 }));
    }
}

#[test]
fn rgb_white_space_does_not_count() {
    let plain = parse_color("rgb(26,43,60)");
    assert_eq!(plain, Ok(Color { r: 26, g: 43, b: 60 }));
    assert_eq!(parse_color(" rgb( 26 , 43 , 60 ) "), plain);
    assert_eq!(parse_color("\trgb(\t26\t,\n43\r,\u{a0}60\u{2003})\n"), plain);
    assert_eq!(parse_color("rgb(   26,43   ,   60)"), plain);
    assert_eq!(parse_color("\u{3000}rgb(26,\u{1680}43,60\u{205f})\u{85}"), plain);
}

#[test]
fn rgb_white_space_in_other_places_counts() {
    assert_eq!(parse_color("rgb (1,2,3)"), Err(ColorParseError::MissingHashPrefix));
    assert_eq!(parse_color("r gb(1,2,3)"), Err(ColorParseError::MissingHashPrefix));
    assert_eq!(parse_color("rgb(1 2,2,3)"), Err(not_a_number("1 2")));
    assert_eq!(parse_color("rgb(- 1,2,3)"), Err(not_a_number("- 1")));
}

#[test]
fn rgb_name_ignores_case() {
    assert_eq!(parse_color("RGB(1,2,3)"), Ok(Color { r: 1, g: 2, b: 3 }));
    assert_eq!(parse_color("Rgb(1,2,3)"), Ok(Color { r: 1, g: 2, b: 3 }));
    assert_eq!(parse_color("rGB(1,2,3)"), Ok(Color { r: 1, g: 2, b: 3 }));
}

#[test]
fn rgb_two_components_is_invalid_format() {
    assert_eq!(parse_color("rgb(255, 170)"), Err(ColorParseError::RgbInvalidFormat));
}

#[test]
fn rgb_wrong_counts_are_invalid_format() {
    assert_eq!(parse_color("rgb(1)"), Err(ColorParseError::RgbInvalidFormat));
    assert_eq!(parse_color("rgb(1,2,3,4)"), Err(ColorParseError::RgbInvalidFormat));
    assert_eq!(parse_color("rgb(1,2,3,)"), Err(ColorParseError::RgbInvalidFormat));
    assert_eq!(parse_color("rgb(a)"), Err(ColorParseError::RgbInvalidFormat));
}

#[test]
fn rgb_missing_or_empty_parentheses_are_invalid_format() {
    assert_eq!(parse_color("rgb("), Err(ColorParseError::RgbInvalidFormat));
    assert_eq!(parse_color("rgb()"), Err(ColorParseError::RgbInvalidFormat));
    assert_eq!(parse_color("rgb(1,2,3"), Err(ColorParseError::RgbInvalidFormat));
    assert_eq!(parse_rgb("rgb 1,2,3)"), Err(ColorParseError::RgbInvalidFormat));
    assert_eq!(parse_rgb("1,2,3"), Err(ColorParseError::RgbInvalidFormat));
    assert_eq!(parse_rgb(""), Err(ColorParseError::RgbInvalidFormat));
    assert_eq!(parse_rgb(")1,2,3("), Err(ColorParseError::RgbInvalidFormat));
    assert_eq!(parse_rgb("rgb)("), Err(ColorParseError::RgbInvalidFormat));
}

#[test]
fn rgb_one_blank_inside_is_one_empty_component() {
    assert_eq!(parse_color("rgb( )"), Err(ColorParseError::RgbInvalidFormat));
    assert_eq!(parse_color("rgb(,,)"), Err(not_a_number("")));
    assert_eq!(parse_color("rgb(1,,3)"), Err(not_a_number("")));
}

#[test]
fn rgb_out_of_range_carries_the_value() {
    assert_eq!(parse_color("rgb(256,0,0)"), Err(ColorParseError::RgbComponentOutOfRange(256)));
    assert_eq!(parse_color("rgb(256, 0, 0)"), Err(ColorParseError::RgbComponentOutOfRange(256)));
    assert_eq!(parse_color("rgb(-1,0,0)"), Err(ColorParseError::RgbComponentOutOfRange(-1)));
    assert_eq!(parse_color("rgb(0,1000,0)"), Err(ColorParseError::RgbComponentOutOfRange(1000)));
    assert_eq!(parse_color("rgb(0,0,300)"), Err(ColorParseError::RgbComponentOutOfRange(300)));
    assert_eq!(
        parse_color("rgb(2147483647,0,0)"),
        Err(ColorParseError::RgbComponentOutOfRange(i32::MAX))
    );
    assert_eq!(
        parse_color("rgb(-2147483648,0,0)"),
        Err(ColorParseError::RgbComponentOutOfRange(i32::MIN))
    );
}

#[test]
fn rgb_not_a_number_carries_the_text() {
    assert_eq!(parse_color("rgb(aa,0,0)"), Err(not_a_number("aa")));
    assert_eq!(parse_color("rgb(aa, 0, 0)"), Err(not_a_number("aa")));
    assert_eq!(parse_color("rgb(0, 1.5, 0)"), Err(not_a_number("1.5")));
    assert_eq!(parse_color("rgb(0, 0, 1e2)"), Err(not_a_number("1e2")));
    assert_eq!(parse_color("rgb(0x10, 0, 0)"), Err(not_a_number("0x10")));
    assert_eq!(parse_color("rgb(-, 0, 0)"), Err(not_a_number("-")));
    assert_eq!(parse_color("rgb(--1, 0, 0)"), Err(not_a_number("--1")));
    assert_eq!(parse_color("rgb(50%, 0, 0)"), Err(not_a_number("50%")));
    assert_eq!(parse_color("rgb(\u{663}, 0, 0)"), Err(not_a_number("\u{663}")));
}

#[test]
fn rgb_plus_sign_is_not_read() {
    assert_eq!(parse_color("rgb(+5, 0, 0)"), Err(not_a_number("+5")));
}

#[test]
fn rgb_numbers_beyond_32_bits_are_no_numbers() {
    assert_eq!(parse_color("rgb(2147483648,0,0)"), Err(not_a_number("2147483648")));
    assert_eq!(parse_color("rgb(-2147483649,0,0)"), Err(not_a_number("-2147483649")));
    assert_eq!(
        parse_color("rgb(99999999999999999999999999,0,0)"),
        Err(not_a_number("99999999999999999999999999"))
    );
}

#[test]
fn rgb_leading_zeros_and_minus_zero_are_read() {
    assert_eq!(parse_color("rgb(007, 000, 0255)"), Ok(Color { r: 7, g: 0, b: 255 }));
    assert_eq!(parse_color("rgb(-0, 0, 0)"), Ok(Color { r: 0, g: 0, b: 0 }));
    assert_eq!(
        parse_color("rgb(00000000000000000000000000000012, 0, 0)"),
        Ok(Color { r: 12, g: 0, b: 0 })
    );
}

#[test]
fn rgb_first_failing_component_is_reported() {
    assert_eq!(parse_color("rgb(256, x, 0)"), Err(ColorParseError::RgbComponentOutOfRange(256)));
    assert_eq!(parse_color("rgb(x, 256, 0)"), Err(not_a_number("x")));
    assert_eq!(parse_color("rgb(1, y, 999)"), Err(not_a_number("y")));
    assert_eq!(parse_color("rgb(1, 2, z)"), Err(not_a_number("z")));
}

#[test]
fn rgb_reads_from_first_open_to_last_close() {
    assert_eq!(parse_color("rgb(1,2,3) and more"), Ok(Color { r: 1, g: 2, b: 3 }));
    assert_eq!(parse_color("rgb(1,2,3))"), Err(not_a_number("3)")));
    assert_eq!(parse_color("rgb((1,2,3)"), Err(not_a_number("(1")));
    assert_eq!(parse_rgb("anything(4,5,6)"), Ok(Color { r: 4, g: 5, b: 6 }));
    assert_eq!(parse_rgb("(4,5,6)"), Ok(Color { r: 4, g: 5, b: 6 }));
}

#[test]
fn parse_rgb_does_not_trim_its_input_but_its_components() {
    assert_eq!(parse_rgb("  rgb( 7 , 8 , 9 )  "), Ok(Color { r: 7, g: 8, b: 9 }));
}
