use rcp_palette::{parse_color, Color, ColorParseError};

#[test]
fn no_prefix_is_missing_hash_prefix() {
    assert_eq!(parse_color("1A2B3C"), Err(ColorParseError::MissingHashPrefix));
}

#[test]
fn unknown_shapes_are_missing_hash_prefix() {
    for text in ["", " ", "\t\n", "rgb", "hsl", "rgba(1,2,3,4)", "hsla(0,0%,0%,1)", "rg(1,2,3)", "1,2,3", "(1,2,3)", "ff0000", "0x112233", "var(--x)"] {
        assert_eq!(parse_color(text), Err(ColorParseError::MissingHashPrefix), "{:?}", text);
    }
}

#[test]
fn hash_must_come_first() {
    assert_eq!(parse_color("x#123"), Err(ColorParseError::MissingHashPrefix));
    assert_eq!(parse_color("##123"), Err(ColorParseError::InvalidLength(4)));
}

#[test]
fn each_notation_is_selected() {
    assert_eq!(parse_color("red"), Ok(Color { r: 255, g: 0, b: 0 }));
    assert_eq!(parse_color("#f00"), Ok(Color { r: 255, g: 0, b: 0 }));
    assert_eq!(parse_color("rgb(255,0,0)"), Ok(Color { r: 255, g: 0, b: 0 }));
    assert_eq!(parse_color("hsl(0,100%,50%)"), Ok(Color { r: 255, g: 0, b: 0 }));
}

#[test]
fn each_notation_fails_with_its_own_error() {
    assert_eq!(parse_color("rgb(1,2)"), Err(ColorParseError::RgbInvalidFormat));
    assert_eq!(parse_color("hsl(1,2)"), Err(ColorParseError::UnsupportedFormat));
    assert_eq!(parse_color("#12"), Err(ColorParseError::InvalidLength(2)));
}

#[test]
fn outer_white_space_never_counts() {
    let spaces = [" ", "\t", "\n", "\u{b}", "\u{c}", "\r", "\u{85}", "\u{a0}", "\u{1680}", "\u{2000}", "\u{2005}", "\u{200a}", "\u{2028}", "\u{2029}", "\u{202f}", "\u{205f}", "\u{3000}"];
    let texts = ["red", "#1A2B3C", "#12", "rgb(1,2,3)", "rgb(1,2)", "hsl(30,100%,50%)", "nothing", "#1A2B3G", "rgb(256,0,0)"];
    for text in texts {
        let plain = parse_color(text);
        for before in spaces {
            for after in spaces {
                let padded = format!("{}{}{}{}", before, before, text, after);
                assert_eq!(parse_color(&padded), plain, "{:?}", padded);
            }
        }
    }
}

#[test]
fn characters_that_are_no_white_space_count() {
    // U+200B ZERO WIDTH SPACE and U+FEFF are not white space.
    assert_eq!(parse_color("\u{200b}red"), Err(ColorParseError::MissingHashPrefix));
    assert_eq!(parse_color("red\u{feff}"), Err(ColorParseError::MissingHashPrefix));
    assert_eq!(parse_color("\u{1c}red"), Err(ColorParseError::MissingHashPrefix));
}

#[test]
fn parsing_twice_gives_the_same() {
    for text in ["red", "#1A2B3C", "rgb(aa,0,0)", "hsl(12.5, 40%, 60%)", "?"] {
        assert_eq!(parse_color(text), parse_color(text));
    }
}
