use codimate::color::Color;
use codimate::fixed::Fixed;

fn fx(raw: i32) -> Fixed {
    Fixed::from_raw(raw)
}

fn fx3(a: i32, b: i32, c: i32) -> [Fixed; 3] {
    [fx(a), fx(b), fx(c)]
}

#[test]
fn lerp_interpolates_the_levels() {
    let dark_gray = Color::new(169, 169, 169, 255);
    let steel_blue = Color::new(70, 130, 180, 255);
    assert_eq!(dark_gray.lerp(steel_blue, fx(32768)), Color::new(120, 150, 175, 255));
    assert_eq!(
        Color::new(0, 0, 0, 0).lerp(Color::new(255, 255, 255, 255), fx(16384)),
        Color::new(64, 64, 64, 64)
    );
}

#[test]
fn lerp_limits_the_factor() {
    let a = Color::new(10, 20, 30, 40);
    let b = Color::new(50, 60, 70, 80);
    assert_eq!(a.lerp(b, fx(-5)), a);
    assert_eq!(a.lerp(b, fx(i32::MIN)), a);
    assert_eq!(a.lerp(b, fx(3 * 65536)), b);
    assert_eq!(a.lerp(b, fx(i32::MAX)), b);
}

#[test]
fn lerp_ends_are_the_two_colors() {
    for n in 0..=255u8 {
        let a = Color::new(n, 255 - n, n / 3, n);
        let b = Color::new(255 - n, n / 2, n, 7);
        assert_eq!(a.lerp(b, fx(0)), a);
        assert_eq!(a.lerp(b, fx(65536)), b);
        assert_eq!(a.lerp_linear(b, fx(0)), a);
        assert_eq!(a.lerp_linear(b, fx(65536)), b);
    }
}

#[test]
fn lerp_linear_interpolates_in_linear_light() {
    let dark_slate_gray = Color::new(47, 79, 79, 255);
    let misty_rose = Color::new(255, 228, 225, 255);
    assert_eq!(dark_slate_gray.lerp_linear(misty_rose, fx(32768)), Color::new(190, 175, 173, 255));
    assert_eq!(
        Color::new(0, 0, 0, 0).lerp_linear(Color::new(255, 255, 255, 255), fx(32768)),
        Color::new(188, 188, 188, 128)
    );
}

#[test]
fn mix_oklch_takes_the_short_way_round() {
    assert_eq!(
        Color::mix_oklch(
            fx3(32768, 16384, 350 * 65536),
            fx3(65536, 32768, 10 * 65536),
            fx(32768)
        ),
        fx3(49152, 24576, 0)
    );
    assert_eq!(
        Color::mix_oklch(
            fx3(32768, 16384, 10 * 65536),
            fx3(65536, 32768, 350 * 65536),
            fx(16384)
        ),
        fx3(40960, 20480, 327680)
    );
}

#[test]
fn mix_oklch_lends_a_gray_the_hue_of_the_other() {
    assert_eq!(
        Color::mix_oklch(fx3(32768, 0, 100 * 65536), fx3(65536, 32768, 200 * 65536), fx(32768)),
        fx3(49152, 16384, 200 * 65536)
    );
    assert_eq!(
        Color::mix_oklch(fx3(32768, 21845, 100 * 65536), fx3(65536, 0, 200 * 65536), fx(32768)),
        fx3(49152, 10922, 100 * 65536)
    );
}

#[test]
fn mix_oklch_of_opposite_hues() {
    assert_eq!(
        Color::mix_oklch(fx3(0, 21845, 0), fx3(65536, 65536, 180 * 65536), fx(32768)),
        fx3(32768, 43690, 90 * 65536)
    );
    assert_eq!(
        Color::mix_oklch(fx3(0, 21845, 180 * 65536), fx3(65536, 65536, 0), fx(32768)),
        fx3(32768, 43690, 270 * 65536)
    );
}

#[test]
fn mix_alpha_rounds_to_nearest() {
    let a = Color::new(0, 0, 0, 0);
    let b = Color::new(9, 9, 9, 255);
    assert_eq!(a.mix_alpha(b, fx(32768)), 128);
    assert_eq!(a.mix_alpha(b, fx(-1)), 0);
    assert_eq!(a.mix_alpha(b, fx(70000)), 255);
    assert_eq!(b.mix_alpha(a, fx(16384)), 191);
}
