use codimate::color::Color;
use codimate::fixed::Fixed;
use codimate::fixed::ONE;

fn fx(raw: i32) -> Fixed {
    Fixed::from_raw(raw)
}

#[test]
fn fixed_from_int_scales_by_one() {
    assert_eq!(Fixed::from_int(1).raw, ONE);
    assert_eq!(Fixed::from_int(-3).raw, -3 * 65536);
    assert_eq!(Fixed::from_int(360).raw, 23592960);
    assert_eq!(Fixed::from_raw(17).raw, 17);
}

#[test]
fn decode_follows_the_transfer_function() {
    assert_eq!(Color::decode_srgb(0).raw, 0);
    assert_eq!(Color::decode_srgb(1).raw, 19);
    assert_eq!(Color::decode_srgb(10).raw, 198);
    assert_eq!(Color::decode_srgb(11).raw, 219);
    assert_eq!(Color::decode_srgb(128).raw, 14146);
    assert_eq!(Color::decode_srgb(188).raw, 32957);
    assert_eq!(Color::decode_srgb(255).raw, 65536);
}

#[test]
fn decode_agrees_with_floating_point() {
    for k in 0..=255u8 {
        let s = k as f64 / 255.0;
        let exact = if s <= 0.04045 { s / 12.92 } else { ((s + 0.055) / 1.055).powf(2.4) };
        let got = Color::decode_srgb(k).raw as f64;
        assert!(got <= exact * 65536.0 + 1e-6 && exact * 65536.0 < got + 1.0 + 1e-6);
    }
}

#[test]
fn encode_follows_the_transfer_function() {
    assert_eq!(Color::encode_srgb(fx(0)), 0);
    assert_eq!(Color::encode_srgb(fx(9)), 0);
    assert_eq!(Color::encode_srgb(fx(10)), 1);
    assert_eq!(Color::encode_srgb(fx(14025)), 127);
    assert_eq!(Color::encode_srgb(fx(32768)), 188);
    assert_eq!(Color::encode_srgb(fx(65244)), 254);
    assert_eq!(Color::encode_srgb(fx(65245)), 255);
    assert_eq!(Color::encode_srgb(fx(65536)), 255);
}

#[test]
fn encode_limits_to_the_range() {
    assert_eq!(Color::encode_srgb(fx(-1)), 0);
    assert_eq!(Color::encode_srgb(fx(i32::MIN)), 0);
    assert_eq!(Color::encode_srgb(fx(65537)), 255);
    assert_eq!(Color::encode_srgb(fx(i32::MAX)), 255);
}

#[test]
fn encode_agrees_with_floating_point() {
    let mut x: i32 = 0;
    while x <= 65536 {
        let l = x as f64 / 65536.0;
        let v = if l <= 0.0031308 { 12.92 * l } else { 1.055 * l.powf(1.0 / 2.4) - 0.055 };
        assert_eq!(Color::encode_srgb(fx(x)) as f64, (v * 255.0 + 0.5).floor());
        x += 1;
    }
}

#[test]
fn encode_undoes_decode() {
    for k in 0..=255u8 {
        assert_eq!(Color::encode_srgb(Color::decode_srgb(k)), k);
    }
}

#[test]
fn encode_is_monotone() {
    let mut last = 0u8;
    let mut x: i32 = -5;
    while x < 66000 {
        let k = Color::encode_srgb(fx(x));
        assert!(k >= last);
        last = k;
        x += 1;
    }
    assert_eq!(last, 255);
}

#[test]
fn into_linear_decodes_color_and_scales_alpha() {
    assert_eq!(
        Color::new(255, 160, 122, 255).into_linear(),
        [fx(65536), fx(23038), fx(12754), fx(65536)]
    );
    assert_eq!(Color::new(0, 1, 128, 128).into_linear(), [fx(0), fx(19), fx(14146), fx(32896)]);
    assert_eq!(Color::new(0, 0, 0, 0).into_linear()[3], fx(0));
    assert_eq!(Color::new(0, 0, 0, 1).into_linear()[3], fx(257));
}

#[test]
fn from_linear_encodes_color_and_rounds_alpha() {
    assert_eq!(
        Color::from_linear([fx(65536), fx(65536), fx(48851), fx(65536)]),
        Color::new(255, 255, 224, 255)
    );
    assert_eq!(Color::from_linear([fx(0), fx(10), fx(32768), fx(32768)]), Color::new(0, 1, 188, 128));
    assert_eq!(Color::from_linear([fx(-7), fx(70000), fx(9), fx(128)]), Color::new(0, 255, 0, 0));
    assert_eq!(Color::from_linear([fx(0), fx(0), fx(0), fx(129)]), Color::new(0, 0, 0, 1));
    assert_eq!(Color::from_linear([fx(0), fx(0), fx(0), fx(-1)]), Color::new(0, 0, 0, 0));
    assert_eq!(Color::from_linear([fx(0), fx(0), fx(0), fx(1 << 30)]), Color::new(0, 0, 0, 255));
}

#[test]
fn linear_round_trip_is_exact() {
    for k in 0..=255u8 {
        let c = Color::new(k, 255 - k, k / 2 + 64, k);
        assert_eq!(Color::from_linear(c.into_linear()), c);
    }
}

#[test]
fn lighten_linear_adds_in_linear_light() {
    assert_eq!(Color::new(0, 0, 128, 200).lighten_linear(fx(16384)), Color::new(137, 137, 182, 200));
    assert_eq!(Color::new(1, 2, 3, 4).lighten_linear(fx(5 * 65536)), Color::new(255, 255, 255, 4));
    assert_eq!(Color::new(9, 99, 199, 4).lighten_linear(fx(0)), Color::new(9, 99, 199, 4));
}

#[test]
fn darken_linear_subtracts_in_linear_light() {
    assert_eq!(
        Color::new(255, 250, 205, 255).darken_linear(fx(16384)),
        Color::new(225, 219, 162, 255)
    );
    assert_eq!(Color::new(200, 100, 50, 17).darken_linear(fx(i32::MAX)), Color::new(0, 0, 0, 17));
    assert_eq!(
        Color::new(0, 0, 128, 200).darken_linear(fx(-16384)),
        Color::new(0, 0, 128, 200).lighten_linear(fx(16384))
    );
}

#[test]
fn relative_luminance_of_black_and_white() {
    assert_eq!(Color::black().relative_luminance().raw, 0);
    assert_eq!(Color::white().relative_luminance().raw, ONE);
    assert_eq!(Color::new(255, 255, 255, 0).relative_luminance().raw, ONE);
}

#[test]
fn relative_luminance_weighs_the_channels() {
    assert_eq!(Color::new(240, 230, 140, 255).relative_luminance().raw, 50470);
    assert_eq!(Color::red().relative_luminance().raw, 13932);
    assert_eq!(Color::green().relative_luminance().raw, 46871);
    assert_eq!(Color::blue().relative_luminance().raw, 4731);
}

#[test]
fn contrast_of_white_on_black_is_twenty_one() {
    assert_eq!(Color::white().contrast_ratio(Color::black()).raw, 21 * ONE);
    assert_eq!(Color::black().contrast_ratio(Color::white()).raw, 21 * ONE);
}

#[test]
fn contrast_ratio_examples() {
    assert_eq!(
        Color::new(152, 251, 152, 255).contrast_ratio(Color::new(255, 255, 0, 255)).raw,
        77266
    );
    assert_eq!(Color::new(7, 8, 9, 255).contrast_ratio(Color::new(7, 8, 9, 0)).raw, ONE);
}
