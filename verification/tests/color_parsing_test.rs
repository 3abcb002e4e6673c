use rcp_palette::parse_color;

#[test]
fn hex6_parsing_is_ok() {
    let c = parse_color("#1A2B3C").unwrap();
    assert_eq!((c.r, c.g, c.b), (26, 43, 60));
}

#[test]
fn hex3_parsing_is_ok() {
    let c = parse_color("#FA0").unwrap();
    assert_eq!((c.r, c.g, c.b), (255, 170, 0));
}

#[test]
fn invalid_length_is_error() {
    let err = parse_color("#1234").unwrap_err();
    let msg = err.message();
    assert!(msg.contains("Недійсна довжина") || msg.contains("Invalid"));
}

#[test]
fn invalid_char_is_error() {
    let err = parse_color("#1A2B3G").unwrap_err();
    let msg = err.message();
    assert!(msg.contains("Недійсний") || msg.contains("invalid"));
}

#[test]
fn missing_hash_prefix_is_error() {
    let err = parse_color("1A2B3C").unwrap_err();
    let msg = err.message();
    assert!(msg.contains("починатися") || msg.contains("begin with"));
}

#[test]
fn rgb_parsing_is_ok() {
    let c = parse_color("rgb(255, 170, 0)").unwrap();
    assert_eq!((c.r, c.g, c.b), (255, 170, 0));
}

#[test]
fn rgb_with_spaces_parsing_is_ok() {
    let c = parse_color(" rgb( 26 , 43 , 60 ) ").unwrap();
    assert_eq!((c.r, c.g, c.b), (26, 43, 60));
}

#[test]
fn rgb_invalid_format_is_error() {
    let err = parse_color("rgb(255, 170)").unwrap_err();
    let msg = err.message();
    assert!(msg.contains("rgb") || msg.contains("format"));
}

#[test]
fn rgb_out_of_range_is_error() {
    let err = parse_color("rgb(256, 0, 0)").unwrap_err();
    let msg = err.message();
    assert!(msg.contains("0..=255") || msg.contains("range"));
}

#[test]
fn rgb_non_numeric_component_is_error() {
    let err = parse_color("rgb(aa, 0, 0)").unwrap_err();
    let msg = err.message();
    assert!(msg.contains("числовий") || msg.contains("numeric"));
}
