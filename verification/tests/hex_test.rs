use rcp_palette::hex::{parse_component, parse_hex};
use rcp_palette::number::HexError;
use rcp_palette::{parse_color, Color, ColorParseError};

fn pair_error(pair: &str) -> ColorParseError {
    ColorParseError::ComponentParseError(pair.to_string(), HexError::InvalidDigit)
}

#[test]
fn hex6_channels_are_the_pair_values() {
    assert_eq!(parse_color("#1A2B3C"), Ok(Color { r: 26, g: 43, b: 60 }));
    assert_eq!(parse_color("#000000"), Ok(Color { r: 0, g: 0, b: 0 }));
    assert_eq!(parse_color("#FFFFFF"), Ok(Color { r: 255, g: 255, b: 255 }));
    assert_eq!(parse_color("#0a10fe"), Ok(Color { r: 10, g: 16, b: 254 }));
}

#[test]
fn hex6_accepts_both_cases_of_letters() {
    assert_eq!(parse_color("#abcdef"), Ok(Color { r: 0xab, g: 0xcd, b: 0xef }));
    assert_eq!(parse_color("#ABCDEF"), Ok(Color { r: 0xab, g: 0xcd, b: 0xef }));
    assert_eq!(parse_color("#aBcDeF"), Ok(Color { r: 0xab, g: 0xcd, b: 0xef }));
}

#[test]
fn hex6_every_pair_value_is_read() {
    let digits = "0123456789ABCDEF".as_bytes();
    for high in 0..16usize {
        for low in 0..16usize {
            let pair = format!("{}{}", digits[high] as char, digits[low] as char);
            let text = format!("#{}00{}", pair, pair.to_lowercase());
            let value = (16 * high + low) as u8;
            assert_eq!(parse_color(&text), Ok(Color { r: value, g: 0, b: value }));
        }
    }
}

#[test]
fn hex3_equals_its_doubled_form() {
    let digits = "0123456789abcdefABCDEF".as_bytes();
    for &a in digits {
        for &b in digits {
            for &c in digits {
                let (a, b, c) = (a as char, b as char, c as char);
                let short = format!("#{}{}{}", a, b, c);
                let long = format!("#{}{}{}{}{}{}", a, a, b, b, c, c);
                let color = parse_color(&short);
                assert!(color.is_ok());
                assert_eq!(color, parse_color(&long));
            }
        }
    }
}

#[test]
fn hex3_channels_are_seventeen_times_the_digit() {
    assert_eq!(parse_color("#FA0"), Ok(Color { r: 255, g: 170, b: 0 }));
    assert_eq!(parse_color("#FFAA00"), Ok(Color { r: 255, g: 170, b: 0 }));
    assert_eq!(parse_color("#123"), Ok(Color { r: 17, g: 34, b: 51 }));
    assert_eq!(parse_color("#fff"), Ok(Color { r: 255, g: 255, b: 255 }));
}

#[test]
fn hex_length_four_is_invalid_length() {
    assert_eq!(parse_color("#1234"), Err(ColorParseError::InvalidLength(4)));
}

#[test]
fn hex_other_lengths_carry_their_length() {
    assert_eq!(parse_color("#"), Err(ColorParseError::InvalidLength(0)));
    assert_eq!(parse_color("#1"), Err(ColorParseError::InvalidLength(1)));
    assert_eq!(parse_color("#12"), Err(ColorParseError::InvalidLength(2)));
    assert_eq!(parse_color("#12345"), Err(ColorParseError::InvalidLength(5)));
    assert_eq!(parse_color("#1234567"), Err(ColorParseError::InvalidLength(7)));
    let long = format!("#{}", "A".repeat(1000));
    assert_eq!(parse_color(&long), Err(ColorParseError::InvalidLength(1000)));
}

#[test]
fn hex_length_is_checked_before_the_digits() {
    assert_eq!(parse_color("#GG"), Err(ColorParseError::InvalidLength(2)));
    assert_eq!(parse_color("#zzzz"), Err(ColorParseError::InvalidLength(4)));
}

#[test]
fn hex_length_counts_characters() {
    assert_eq!(parse_color("#éé"), Err(ColorParseError::InvalidLength(2)));
    assert_eq!(parse_color("#é12"), Err(pair_error("éé")));
    assert_eq!(parse_color("#12345é"), Err(pair_error("5é")));
}

#[test]
fn hex_invalid_digit_reports_its_pair() {
    assert_eq!(parse_color("#1A2B3G"), Err(pair_error("3G")));
    assert_eq!(parse_color("#G12B3C"), Err(pair_error("G1")));
    assert_eq!(parse_color("#1AxB3C"), Err(pair_error("xB")));
}

#[test]
fn hex_first_invalid_pair_is_reported() {
    assert_eq!(parse_color("#GGHHII"), Err(pair_error("GG")));
    assert_eq!(parse_color("#00HHII"), Err(pair_error("HH")));
    assert_eq!(parse_color("#xyz"), Err(pair_error("xx")));
    assert_eq!(parse_color("#0yz"), Err(pair_error("yy")));
    assert_eq!(parse_color("#00z"), Err(pair_error("zz")));
}

#[test]
fn hex_sign_is_no_digit() {
    assert_eq!(parse_color("#+1+2+3"), Err(pair_error("+1")));
    assert_eq!(parse_color("#-1-2-3"), Err(pair_error("-1")));
    assert_eq!(parse_color("#+12"), Err(pair_error("++")));
}

#[test]
fn hex_inner_space_is_no_digit() {
    assert_eq!(parse_color("#12 456"), Err(pair_error(" 4")));
    assert_eq!(parse_color("# 12"), Err(pair_error("  ")));
}

#[test]
fn hex_outer_space_is_trimmed() {
    assert_eq!(parse_color("  #1A2B3C\t\n"), Ok(Color { r: 26, g: 43, b: 60 }));
    assert_eq!(parse_color("\u{a0}#FA0\u{3000}"), Ok(Color { r: 255, g: 170, b: 0 }));
    assert_eq!(parse_color(" #1234 "), Err(ColorParseError::InvalidLength(4)));
}

#[test]
fn parse_hex_reads_the_body() {
    assert_eq!(parse_hex("1A2B3C"), Ok(Color { r: 26, g: 43, b: 60 }));
    assert_eq!(parse_hex("FA0"), Ok(Color { r: 255, g: 170, b: 0 }));
    assert_eq!(parse_hex(""), Err(ColorParseError::InvalidLength(0)));
    assert_eq!(parse_hex("#12"), Err(pair_error("##")));
    assert_eq!(parse_hex(" FA0"), Err(ColorParseError::InvalidLength(4)));
}

#[test]
fn parse_component_reads_hex_numbers() {
    assert_eq!(parse_component("00"), Ok(0));
    assert_eq!(parse_component("ff"), Ok(255));
    assert_eq!(parse_component("FF"), Ok(255));
    assert_eq!(parse_component("1A"), Ok(26));
    assert_eq!(parse_component("a"), Ok(10));
    assert_eq!(parse_component("0000ff"), Ok(255));
}

#[test]
fn parse_component_gives_each_reason() {
    assert_eq!(
        parse_component(""),
        Err(ColorParseError::ComponentParseError(String::new(), HexError::Empty))
    );
    assert_eq!(parse_component("3G"), Err(pair_error("3G")));
    assert_eq!(parse_component("+F"), Err(pair_error("+F")));
    assert_eq!(
        parse_component("100"),
        Err(ColorParseError::ComponentParseError("100".to_string(), HexError::TooLarge))
    );
    assert_eq!(
        parse_component("fffffffffffffffffffffffff"),
        Err(ColorParseError::ComponentParseError(
            "fffffffffffffffffffffffff".to_string(),
            HexError::TooLarge
        ))
    );
    assert_eq!(parse_component("100G"), Err(pair_error("100G")));
}

#[test]
fn to_hex_writes_capital_digits() {
    assert_eq!(Color { r: 26, g: 43, b: 60 }.to_hex(), "#1A2B3C");
    assert_eq!(Color { r: 0, g: 0, b: 0 }.to_hex(), "#000000");
    assert_eq!(Color { r: 255, g: 170, b: 9 }.to_hex(), "#FFAA09");
}

#[test]
fn to_hex_round_trips() {
    for r in (0..=255u8).step_by(5) {
        for g in (0..=255u8).step_by(17) {
            for b in (0..=255u8).step_by(3) {
                let color = Color { r, g, b };
                assert_eq!(parse_color(&color.to_hex()), Ok(color));
            }
        }
    }
}

#[test]
fn reparsing_a_parsed_color_gives_it_again() {
    for text in ["#1A2B3C", "#fa0", "rgb(1, 2, 3)", "hsl(210, 50%, 50%)", "RebeccaPurple"] {
        let color = parse_color(text).unwrap();
        assert_eq!(parse_color(&color.to_hex()), Ok(color));
    }
}
