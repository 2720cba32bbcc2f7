use codimate::color::Color;
use codimate::fixed::Fixed;

fn fx(raw: i32) -> Fixed {
    Fixed::from_raw(raw)
}

fn fx3(a: i32, b: i32, c: i32) -> [Fixed; 3] {
    [fx(a), fx(b), fx(c)]
}

const ONE: i32 = 65536;

#[test]
fn into_hsl_of_primaries() {
    assert_eq!(Color::red().into_hsl(), fx3(0, 100 * ONE, 50 * ONE));
    assert_eq!(Color::green().into_hsl(), fx3(120 * ONE, 100 * ONE, 50 * ONE));
    assert_eq!(Color::blue().into_hsl(), fx3(240 * ONE, 100 * ONE, 50 * ONE));
}

#[test]
fn into_hsl_of_a_gray_has_no_hue_and_no_saturation() {
    assert_eq!(Color::new(128, 128, 128, 255).into_hsl(), fx3(0, 0, 3289650));
    assert_eq!(Color::black().into_hsl(), fx3(0, 0, 0));
    assert_eq!(Color::white().into_hsl(), fx3(0, 0, 100 * ONE));
}

#[test]
fn into_hsl_examples() {
    assert_eq!(Color::new(178, 34, 34, 255).into_hsl(), fx3(0, 4451501, 2724241));
    assert_eq!(Color::new(250, 250, 210, 255).into_hsl(), fx3(60 * ONE, 80 * ONE, 5911090));
}

#[test]
fn into_hsl_wraps_a_negative_hue() {
    assert_eq!(Color::new(255, 0, 64, 255).into_hsl(), fx3(22606064, 100 * ONE, 50 * ONE));
    let h = Color::new(255, 0, 1, 255).into_hsl()[0].raw;
    assert!(h >= 359 * ONE && h < 360 * ONE);
}

#[test]
fn into_hsla_adds_alpha_as_a_fraction() {
    assert_eq!(
        Color::new(250, 250, 210, 128).into_hsla(),
        [fx(60 * ONE), fx(80 * ONE), fx(5911090), fx(32896)]
    );
    assert_eq!(Color::new(0, 0, 0, 255).into_hsla()[3], fx(ONE));
}

#[test]
fn from_hsl_examples() {
    assert_eq!(Color::from_hsl(fx3(1123483, 100 * ONE, 4844552)), Color::new(255, 160, 122, 255));
    assert_eq!(Color::from_hsl(fx3(120 * ONE, 100 * ONE, 50 * ONE)), Color::green());
    assert_eq!(Color::from_hsl(fx3(300 * ONE, 100 * ONE, 50 * ONE)), Color::new(255, 0, 255, 255));
}

#[test]
fn from_hsl_wraps_the_hue() {
    assert_eq!(Color::from_hsl(fx3(-120 * ONE, 100 * ONE, 50 * ONE)), Color::blue());
    assert_eq!(Color::from_hsl(fx3(480 * ONE, 50 * ONE, 25 * ONE)), Color::new(32, 96, 32, 255));
    assert_eq!(Color::from_hsl(fx3(360 * ONE, 100 * ONE, 50 * ONE)), Color::red());
}

#[test]
fn from_hsl_saturates_the_levels() {
    assert_eq!(Color::from_hsl(fx3(0, 1000 * ONE, 50 * ONE)), Color::new(255, 0, 0, 255));
    assert_eq!(Color::from_hsl(fx3(0, 0, 200 * ONE)), Color::new(255, 255, 255, 255));
    assert_eq!(Color::from_hsl(fx3(0, 0, -200 * ONE)), Color::new(0, 0, 0, 255));
    assert_eq!(Color::from_hsl(fx3(i32::MAX, i32::MAX, i32::MAX)).a, 255);
    assert_eq!(Color::from_hsl(fx3(i32::MIN, i32::MIN, i32::MIN)).a, 255);
}

#[test]
fn from_hsla_takes_percentages_and_an_alpha_fraction() {
    assert_eq!(
        Color::from_hsla([fx(25 * ONE), fx(75 * ONE), fx(3084058), fx(32768)]),
        Color::new(210, 105, 30, 128)
    );
    assert_eq!(
        Color::from_hsla([fx(120 * ONE), fx(100 * ONE), fx(50 * ONE), fx(ONE)]),
        Color::green()
    );
}

#[test]
fn from_hsla_limits_saturation_lightness_and_alpha() {
    assert_eq!(
        Color::from_hsla([fx(25 * ONE), fx(500 * ONE), fx(50 * ONE), fx(7 * ONE)]),
        Color::new(255, 106, 0, 255)
    );
    assert_eq!(
        Color::from_hsla([fx(25 * ONE), fx(100 * ONE), fx(50 * ONE), fx(ONE)]),
        Color::new(255, 106, 0, 255)
    );
    assert_eq!(Color::from_hsla([fx(25 * ONE), fx(-5), fx(-5), fx(-3)]), Color::new(0, 0, 0, 0));
    assert_eq!(
        Color::from_hsla([fx(0), fx(0), fx(i32::MAX), fx(0)]),
        Color::new(255, 255, 255, 0)
    );
}

#[test]
fn hsla_round_trip_is_exact() {
    let mut n: u32 = 0;
    while n < 200000 {
        let x = n.wrapping_mul(2654435761);
        let c = Color::new(x as u8, (x >> 8) as u8, (x >> 16) as u8, (x >> 24) as u8);
        assert_eq!(Color::from_hsla(c.into_hsla()), c);
        n += 1;
    }
}

#[test]
fn hsl_round_trip_is_exact() {
    let mut r = 0u32;
    while r < 256 {
        let mut g = 0u32;
        while g < 256 {
            let mut b = 0u32;
            while b < 256 {
                let c = Color::new(r as u8, g as u8, b as u8, 255);
                assert_eq!(Color::from_hsl(c.into_hsl()), c);
                b += 5;
            }
            g += 3;
        }
        r += 3;
    }
}

#[test]
fn lighten_hsl_raises_the_lightness() {
    assert_eq!(Color::new(143, 188, 143, 9).lighten_hsl(fx(6553)), Color::new(175, 207, 175, 255));
    assert_eq!(Color::new(100, 0, 0, 255).lighten_hsl(fx(16384)), Color::new(227, 0, 0, 255));
    assert_eq!(Color::new(238, 130, 238, 9).lighten_hsl(fx(32768)), Color::new(255, 255, 255, 255));
    assert_eq!(Color::new(143, 188, 143, 9).lighten_hsl(fx(5 * ONE)), Color::white());
}

#[test]
fn darken_hsl_lowers_the_lightness() {
    assert_eq!(Color::new(143, 188, 143, 9).darken_hsl(fx(6553)), Color::new(111, 169, 111, 255));
    assert_eq!(Color::new(143, 188, 143, 9).darken_hsl(fx(32768)), Color::new(28, 48, 28, 255));
    assert_eq!(Color::new(143, 188, 143, 9).darken_hsl(fx(5 * ONE)), Color::black());
    assert_eq!(
        Color::new(238, 130, 238, 9).darken_hsl(fx(-32768)),
        Color::new(238, 130, 238, 9).lighten_hsl(fx(32768))
    );
}

#[test]
fn lighten_hsl_by_nothing_keeps_the_color() {
    let mut n: u32 = 0;
    while n < 100000 {
        let x = n.wrapping_mul(2654435761);
        let c = Color::new(x as u8, (x >> 8) as u8, (x >> 16) as u8, (x >> 24) as u8);
        assert_eq!(c.lighten_hsl(fx(0)), c.with_alpha(255));
        assert_eq!(c.darken_hsl(fx(0)), c.with_alpha(255));
        n += 1;
    }
}
