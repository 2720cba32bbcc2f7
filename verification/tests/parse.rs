use codimate::color::parse::parse_hex;
use codimate::color::parse_color;
use codimate::color::Color;
use codimate::color::ColorParseError;

fn rgba(r: u8, g: u8, b: u8, a: u8) -> Result<Color, ColorParseError> {
    Ok(Color::new(r, g, b, a))
}

#[test]
fn parses_short_hex() {
    assert_eq!(parse_color("#fff"), rgba(255, 255, 255, 255));
}

#[test]
fn short_hex_doubles_each_digit() {
    assert_eq!(parse_color("#abc"), parse_color("#aabbcc"));
    assert_eq!(parse_color("#abc"), rgba(0xaa, 0xbb, 0xcc, 255));
    assert_eq!(parse_color("#abcd"), parse_color("#aabbccdd"));
    assert_eq!(parse_color("#1a2F"), rgba(0x11, 0xaa, 0x22, 0xff));
}

#[test]
fn short_hex_doubles_for_every_digit_triple() {
    let digits = "0123456789abcdefABCDEF";
    for a in digits.chars() {
        for b in digits.chars() {
            for c in digits.chars() {
                let short = format!("#{}{}{}", a, b, c);
                let long = format!("#{}{}{}{}{}{}", a, a, b, b, c, c);
                assert_eq!(parse_color(&short), parse_color(&long));
                assert!(parse_color(&short).is_ok());
            }
        }
    }
}

#[test]
fn parses_long_hex() {
    assert_eq!(parse_color("#87CEFA"), rgba(135, 206, 250, 255));
    assert_eq!(parse_color("#87cefa80"), rgba(135, 206, 250, 128));
    assert_eq!(parse_color("#00000000"), rgba(0, 0, 0, 0));
}

#[test]
fn hex_is_trimmed_outside_and_after_the_hash() {
    assert_eq!(parse_color("  #fff\t\n"), rgba(255, 255, 255, 255));
    assert_eq!(parse_color("# fff "), rgba(255, 255, 255, 255));
    assert_eq!(parse_color("\u{a0}#fff\u{2003}"), rgba(255, 255, 255, 255));
    assert_eq!(parse_color("\u{3000}\u{1680}#010203\u{85}\u{2028}"), rgba(1, 2, 3, 255));
    assert_eq!(parse_color("\u{b}#fff\u{c}"), rgba(255, 255, 255, 255));
}

#[test]
fn hex_of_a_wrong_length_is_invalid_length() {
    assert_eq!(parse_color("#"), Err(ColorParseError::InvalidLength));
    assert_eq!(parse_color("#f"), Err(ColorParseError::InvalidLength));
    assert_eq!(parse_color("#ff"), Err(ColorParseError::InvalidLength));
    assert_eq!(parse_color("#fffff"), Err(ColorParseError::InvalidLength));
    assert_eq!(parse_color("#fffffff"), Err(ColorParseError::InvalidLength));
    assert_eq!(parse_color("#fffffffff"), Err(ColorParseError::InvalidLength));
    assert_eq!(parse_color("#gg"), Err(ColorParseError::InvalidLength));
    assert_eq!(parse_color("#f f"), Err(ColorParseError::InvalidHex));
    assert_eq!(parse_color("#\u{e9}f"), Err(ColorParseError::InvalidHex));
}

#[test]
fn hex_with_a_wrong_digit_is_invalid_hex() {
    assert_eq!(parse_color("#ggg"), Err(ColorParseError::InvalidHex));
    assert_eq!(parse_color("#12345g"), Err(ColorParseError::InvalidHex));
    assert_eq!(parse_color("#-123"), Err(ColorParseError::InvalidHex));
    assert_eq!(parse_color("#fff/"), Err(ColorParseError::InvalidHex));
}

#[test]
fn parse_hex_takes_digits_without_hash() {
    assert_eq!(parse_hex("fff"), rgba(255, 255, 255, 255));
    assert_eq!(parse_hex("01234567"), rgba(1, 35, 69, 103));
    assert_eq!(parse_hex("#fff"), Err(ColorParseError::InvalidHex));
    assert_eq!(parse_hex(""), Err(ColorParseError::InvalidLength));
    assert_eq!(parse_hex(" fff"), Err(ColorParseError::InvalidHex));
}

#[test]
fn hex8_text_round_trips() {
    let mut n: u32 = 0;
    while n < 65536 {
        let c = Color::new(
            ((n & 15) * 17) as u8,
            ((n >> 4 & 15) * 16 + 3) as u8,
            ((n >> 8 & 15) * 15 + 7) as u8,
            ((n >> 12 & 15) * 17) as u8,
        );
        assert_eq!(parse_hex(&c.into_hex8()), Ok(c));
        assert_eq!(parse_color(&c.to_string()), Ok(c));
        let text = format!("{:08x}", n.wrapping_mul(2654435761));
        assert_eq!(parse_hex(&text).unwrap().into_hex8(), text);
        n += 1;
    }
}

#[test]
fn parses_legacy_rgb() {
    assert_eq!(parse_color("rgb(255,0,0)"), rgba(255, 0, 0, 255));
    assert_eq!(parse_color("rgb( 1 , 2 , 3 )"), rgba(1, 2, 3, 255));
    assert_eq!(parse_color("rgba(1,2,3,0.5)"), rgba(1, 2, 3, 128));
    assert_eq!(parse_color("rgb(1,2,3,50%)"), rgba(1, 2, 3, 128));
}

#[test]
fn legacy_rgb_takes_a_slash_before_alpha() {
    assert_eq!(parse_color("rgb(1,2,3/0.5)"), rgba(1, 2, 3, 128));
    assert_eq!(parse_color("rgba(1, 2, 3 / 100%)"), rgba(1, 2, 3, 255));
}

#[test]
fn parses_modern_rgb_with_percent_alpha() {
    assert_eq!(parse_color("rgb(255 0 0 / 50%)"), rgba(255, 0, 0, 128));
}

#[test]
fn parses_modern_rgb() {
    assert_eq!(parse_color("rgb(10 20 30)"), rgba(10, 20, 30, 255));
    assert_eq!(parse_color("rgba(10 20 30/0.2)"), rgba(10, 20, 30, 51));
    assert_eq!(parse_color("rgb(10\t20\n30\r/\u{c}1)"), rgba(10, 20, 30, 255));
}

#[test]
fn function_name_is_case_insensitive() {
    assert_eq!(parse_color("RGB(1,2,3)"), rgba(1, 2, 3, 255));
    assert_eq!(parse_color("RgBa(1 2 3 / 0)"), rgba(1, 2, 3, 0));
    assert_eq!(parse_color("  rGb(1 2 3)  "), rgba(1, 2, 3, 255));
}

#[test]
fn empty_text_is_empty() {
    assert_eq!(parse_color(""), Err(ColorParseError::Empty));
    assert_eq!(parse_color("   "), Err(ColorParseError::Empty));
    assert_eq!(parse_color("\t\n\r \u{a0}\u{2009}"), Err(ColorParseError::Empty));
}

#[test]
fn component_above_255_is_out_of_range() {
    assert_eq!(parse_color("rgb(256,0,0)"), Err(ColorParseError::OutOfRange));
}

#[test]
fn components_out_of_range() {
    assert_eq!(parse_color("rgb(0,256,0)"), Err(ColorParseError::OutOfRange));
    assert_eq!(parse_color("rgb(0 0 255.5)"), Err(ColorParseError::OutOfRange));
    assert_eq!(parse_color("rgb(-1 0 0)"), Err(ColorParseError::OutOfRange));
    assert_eq!(parse_color("rgb(101% 0 0)"), Err(ColorParseError::OutOfRange));
    assert_eq!(parse_color("rgb(-1% 0 0)"), Err(ColorParseError::OutOfRange));
    assert_eq!(parse_color("rgb(0 0 0 / 101%)"), Err(ColorParseError::OutOfRange));
    assert_eq!(parse_color("rgb(0 0 0 / 1.5)"), Err(ColorParseError::OutOfRange));
    assert_eq!(parse_color("rgb(0 0 0 / 256)"), Err(ColorParseError::OutOfRange));
    assert_eq!(parse_color("rgb(0 0 0 / -0.5)"), Err(ColorParseError::OutOfRange));
    assert_eq!(parse_color("rgb(0 0 0 / -2)"), Err(ColorParseError::OutOfRange));
    assert_eq!(
        parse_color("rgb(99999999999999999999999999 0 0)"),
        Err(ColorParseError::OutOfRange)
    );
    assert_eq!(parse_color("rgb(1000000 0 0)"), Err(ColorParseError::OutOfRange));
}

#[test]
fn percent_components_scale_to_255() {
    assert_eq!(parse_color("rgb(100% 0% 50%)"), rgba(255, 0, 128, 255));
    assert_eq!(parse_color("rgb(33.3% 66.6% 99.9%)"), rgba(85, 170, 255, 255));
    assert_eq!(parse_color("rgb(0.1% 0.2% 0.19%)"), rgba(0, 1, 0, 255));
    assert_eq!(parse_color("rgb(10%, 20, 30%)"), rgba(26, 20, 77, 255));
}

#[test]
fn decimal_components_round_to_nearest() {
    assert_eq!(parse_color("rgb(254.5 0.49 0.5)"), rgba(255, 0, 1, 255));
    assert_eq!(parse_color("rgb(127.4999999 127.5 255.0)"), rgba(127, 128, 255, 255));
    assert_eq!(parse_color("rgb(.5 5. +5)"), rgba(1, 5, 5, 255));
    assert_eq!(parse_color("rgb(-0 -0.0 0007)"), rgba(0, 0, 7, 255));
    assert_eq!(parse_color("rgb(1.00000049 2 3)"), rgba(1, 2, 3, 255));
}

#[test]
fn ranges_are_judged_on_every_digit() {
    assert_eq!(parse_color("rgb(-0.0000001 0 0)"), Err(ColorParseError::OutOfRange));
    assert_eq!(parse_color("rgb(-0.0000000 0 0)"), rgba(0, 0, 0, 255));
    assert_eq!(parse_color("rgb(255.0000001 0 0)"), Err(ColorParseError::OutOfRange));
    assert_eq!(parse_color("rgb(255.00000000000 0 0)"), rgba(255, 0, 0, 255));
    assert_eq!(
        parse_color("rgb(255.0000000000000000000000001 0 0)"),
        Err(ColorParseError::OutOfRange)
    );
    assert_eq!(parse_color("rgb(100.0000001% 0 0)"), Err(ColorParseError::OutOfRange));
    assert_eq!(parse_color("rgb(-0.0000001% 0 0)"), Err(ColorParseError::OutOfRange));
    assert_eq!(parse_color("rgb(0 0 0 / 1.0000001)"), Err(ColorParseError::OutOfRange));
    assert_eq!(parse_color("rgb(0 0 0 / 1.0000000)"), rgba(0, 0, 0, 255));
    assert_eq!(parse_color("rgb(0 0 0 / -0.0000001)"), Err(ColorParseError::OutOfRange));
    assert_eq!(parse_color("rgb(0 0 0 / 100.0000001%)"), Err(ColorParseError::OutOfRange));
    assert_eq!(parse_color("rgb(254.5000001 0.4999999 0)"), rgba(255, 0, 0, 255));
}

#[test]
fn alpha_is_a_fraction_first_and_a_level_second() {
    assert_eq!(parse_color("rgb(0 0 0 / 0)"), rgba(0, 0, 0, 0));
    assert_eq!(parse_color("rgb(0 0 0 / 0.0)"), rgba(0, 0, 0, 0));
    assert_eq!(parse_color("rgb(0 0 0 / 0%)"), rgba(0, 0, 0, 0));
    assert_eq!(parse_color("rgb(0 0 0 / 1)"), rgba(0, 0, 0, 255));
    assert_eq!(parse_color("rgb(0 0 0 / 1.0)"), rgba(0, 0, 0, 255));
    assert_eq!(parse_color("rgb(0 0 0 / 2)"), rgba(0, 0, 0, 2));
    assert_eq!(parse_color("rgb(0 0 0 / 128)"), rgba(0, 0, 0, 128));
    assert_eq!(parse_color("rgb(0 0 0 / 255)"), rgba(0, 0, 0, 255));
    assert_eq!(parse_color("rgb(0 0 0 / 0.5)"), rgba(0, 0, 0, 128));
    assert_eq!(parse_color("rgb(0 0 0 / 0.25)"), rgba(0, 0, 0, 64));
    assert_eq!(parse_color("rgb(0 0 0 / 2.0)"), Err(ColorParseError::OutOfRange));
}

#[test]
fn malformed_functions_are_invalid_func() {
    assert_eq!(parse_color("rgb()"), Err(ColorParseError::InvalidFunc));
    assert_eq!(parse_color("rgb(1 2)"), Err(ColorParseError::InvalidFunc));
    assert_eq!(parse_color("rgb(1 2 3 4)"), Err(ColorParseError::InvalidFunc));
    assert_eq!(parse_color("rgb(1,2)"), Err(ColorParseError::InvalidFunc));
    assert_eq!(parse_color("rgb(1,2,3,)"), Err(ColorParseError::InvalidFunc));
    assert_eq!(parse_color("rgb(,1,2,3)"), Err(ColorParseError::InvalidFunc));
    assert_eq!(parse_color("rgb(1,2,3,4,5)"), Err(ColorParseError::InvalidFunc));
    assert_eq!(parse_color("rgb(1,2,3/4/5)"), Err(ColorParseError::InvalidFunc));
    assert_eq!(parse_color("rgb(1 2 3 /)"), Err(ColorParseError::InvalidFunc));
    assert_eq!(parse_color("rgb(1 2 3 / 4 5)"), Err(ColorParseError::InvalidFunc));
    assert_eq!(parse_color("rgb(1 2 3 / 4 / 5)"), Err(ColorParseError::InvalidFunc));
    assert_eq!(parse_color("rgb(1 2 / 3)"), Err(ColorParseError::InvalidFunc));
    assert_eq!(parse_color("rgb(1 2, 3)"), Err(ColorParseError::InvalidFunc));
    assert_eq!(parse_color("rgb(1 2 3"), Err(ColorParseError::InvalidFunc));
    assert_eq!(parse_color("rgb 1 2 3)"), Err(ColorParseError::InvalidFunc));
    assert_eq!(parse_color("rgb (1 2 3)"), Err(ColorParseError::InvalidFunc));
    assert_eq!(parse_color("rgbx(1 2 3)"), Err(ColorParseError::InvalidFunc));
    assert_eq!(parse_color("hsl(1 2 3)"), Err(ColorParseError::InvalidFunc));
    assert_eq!(parse_color("red"), Err(ColorParseError::InvalidFunc));
    assert_eq!(parse_color("fff"), Err(ColorParseError::InvalidFunc));
    assert_eq!(parse_color(")"), Err(ColorParseError::InvalidFunc));
}

#[test]
fn grammar_is_judged_before_ranges() {
    assert_eq!(parse_color("rgb(256,0)"), Err(ColorParseError::InvalidFunc));
    assert_eq!(parse_color("rgb(256 0 0 0)"), Err(ColorParseError::InvalidFunc));
}

#[test]
fn bytes_that_start_no_token_are_invalid_token() {
    assert_eq!(parse_color("rgb(1 2 x)"), Err(ColorParseError::InvalidToken));
    assert_eq!(parse_color("rgb(1;2;3)"), Err(ColorParseError::InvalidToken));
    assert_eq!(parse_color("rgb(1 2 3))"), Err(ColorParseError::InvalidToken));
    assert_eq!(parse_color("rgb(1 2 3 % )"), Err(ColorParseError::InvalidToken));
    assert_eq!(parse_color("rgb(1e2 2 3)"), Err(ColorParseError::InvalidToken));
    assert_eq!(parse_color("rgb(1\u{a0}2 3)"), Err(ColorParseError::InvalidToken));
    assert_eq!(parse_color("rgb(1\u{b}2 3)"), Err(ColorParseError::InvalidToken));
    assert_eq!(parse_color("rgb(#fff)"), Err(ColorParseError::InvalidToken));
}

#[test]
fn numbers_without_a_digit_are_invalid_token() {
    assert_eq!(parse_color("rgb(+ 2 3)"), Err(ColorParseError::InvalidToken));
    assert_eq!(parse_color("rgb(1 . 3)"), Err(ColorParseError::InvalidToken));
    assert_eq!(parse_color("rgb(1 2 -.)"), Err(ColorParseError::InvalidToken));
    assert_eq!(parse_color("rgb(1 2 -%)"), Err(ColorParseError::InvalidToken));
}

#[test]
fn tokens_are_judged_before_grammar() {
    assert_eq!(parse_color("rgb(1 2 3 4 x)"), Err(ColorParseError::InvalidToken));
    assert_eq!(parse_color("rgb(999, x)"), Err(ColorParseError::InvalidToken));
}

#[test]
fn numbers_need_no_space_between_them() {
    assert_eq!(parse_color("rgb(1-0+3)"), rgba(1, 0, 3, 255));
    assert_eq!(parse_color("rgb(10%20%30%)"), rgba(26, 51, 77, 255));
    assert_eq!(parse_color("rgb(1.5.5 3)"), rgba(2, 1, 3, 255));
}

#[test]
fn from_str_parses() {
    let c: Result<Color, ColorParseError> = "#010203".parse();
    assert_eq!(c, rgba(1, 2, 3, 255));
    let e: Result<Color, ColorParseError> = "".parse();
    assert_eq!(e, Err(ColorParseError::Empty));
}

#[test]
fn try_from_parses() {
    assert_eq!(Color::try_from("rgb(1 2 3)"), rgba(1, 2, 3, 255));
    assert_eq!(Color::try_from("nothing"), Err(ColorParseError::InvalidFunc));
}

#[test]
fn every_error_has_its_message() {
    assert_eq!(ColorParseError::Empty.message(), "empty color string");
    assert_eq!(ColorParseError::InvalidLength.message(), "invalid hex length");
    assert_eq!(ColorParseError::InvalidHex.message(), "invalid hex digits");
    assert_eq!(ColorParseError::InvalidFunc.message(), "invalid color function");
    assert_eq!(ColorParseError::OutOfRange.message(), "color component out of range");
    assert_eq!(ColorParseError::InvalidToken.message(), "invalid token in color function");
}
