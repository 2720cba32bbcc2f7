use codimate::color::Color;
use codimate::fixed::Fixed;

fn fx(raw: i32) -> Fixed {
    Fixed::from_raw(raw)
}

fn fx3(a: i32, b: i32, c: i32) -> [Fixed; 3] {
    [fx(a), fx(b), fx(c)]
}

fn fx4(a: i32, b: i32, c: i32, d: i32) -> [Fixed; 4] {
    [fx(a), fx(b), fx(c), fx(d)]
}

#[test]
fn into_oklab_examples() {
    assert_eq!(Color::new(255, 222, 173, 255).into_oklab(), fx3(60057, 1041, 4670));
    assert_eq!(Color::red().into_oklab(), fx3(41154, 14737, 8247));
    assert_eq!(Color::blue().into_oklab(), fx3(29623, -2127, -20416));
}

#[test]
fn into_oklab_of_black_and_white() {
    assert_eq!(Color::black().into_oklab(), fx3(0, 0, 0));
    assert_eq!(Color::white().into_oklab(), fx3(65536, 0, 0));
    assert_eq!(Color::new(255, 255, 255, 0).into_oklab(), fx3(65536, 0, 0));
}

#[test]
fn into_oklab_agrees_with_floating_point() {
    let c = Color::new(255, 222, 173, 255).into_oklab();
    assert!((c[0].raw as f64 / 65536.0 - 0.91640).abs() < 1e-3);
    assert!((c[1].raw as f64 / 65536.0 - 0.01587).abs() < 1e-3);
    assert!((c[2].raw as f64 / 65536.0 - 0.07126).abs() < 1e-3);
}

#[test]
fn from_oklab_examples() {
    assert_eq!(Color::from_oklab(fx3(51436, -7186, 9662)), Color::new(154, 205, 50, 255));
    assert_eq!(Color::from_oklab(fx3(65536, 0, 0)), Color::white());
    assert_eq!(Color::from_oklab(fx3(0, 0, 0)), Color::black());
}

#[test]
fn from_oklab_limits_each_channel() {
    assert_eq!(Color::from_oklab(fx3(131072, 65536, -65536)), Color::new(255, 0, 255, 255));
    assert_eq!(Color::from_oklab(fx3(32768, 65536, 0)), Color::new(255, 0, 76, 255));
    assert_eq!(Color::from_oklab(fx3(i32::MAX, i32::MAX, i32::MAX)).a, 255);
    assert_eq!(Color::from_oklab(fx3(i32::MIN, i32::MIN, i32::MIN)).a, 255);
}

#[test]
fn oklab_round_trip_is_exact() {
    let mut r = 0u32;
    while r < 256 {
        let mut g = 0u32;
        while g < 256 {
            let mut b = 0u32;
            while b < 256 {
                let c = Color::new(r as u8, g as u8, b as u8, 255);
                assert_eq!(Color::from_oklab(c.into_oklab()), c);
                b += 15;
            }
            g += 5;
        }
        r += 5;
    }
}

#[test]
fn into_oklch_examples() {
    assert_eq!(Color::new(255, 250, 240, 255).into_oklch(), fx4(64634, 932, 6187, 65254));
    assert_eq!(Color::new(255, 0, 255, 255).into_oklch(), fx4(45985, 21134, 55798, -34378));
}

#[test]
fn into_oklch_of_a_gray_has_hue_zero() {
    assert_eq!(Color::new(128, 128, 128, 255).into_oklch(), fx4(39313, 0, 65536, 0));
    assert_eq!(Color::new(11, 11, 11, 255).into_oklch(), fx4(9798, 0, 65536, 0));
    assert_eq!(Color::black().into_oklch(), fx4(0, 0, 65536, 0));
}

#[test]
fn every_gray_has_no_chroma() {
    for k in 0..=255u8 {
        let gray = Color::new(k, k, k, 255);
        let lab = gray.into_oklab();
        assert_eq!((lab[1].raw, lab[2].raw), (0, 0));
        let lch = gray.into_oklch();
        assert_eq!((lch[1].raw, lch[2].raw, lch[3].raw), (0, 65536, 0));
    }
}

#[test]
fn a_gray_takes_the_hue_of_the_other_color() {
    for k in 0..=255u8 {
        let gray = Color::new(k, k, k, 255).into_oklch();
        let from = [gray[0], gray[1], fx(0)];
        let to = fx3(45875, 6554, 77 * 65536);
        let mut t = 0;
        while t <= 65536 {
            assert_eq!(Color::mix_oklch(from, to, fx(t))[2].raw, 77 * 65536);
            assert_eq!(Color::mix_oklch(to, from, fx(t))[2].raw, 77 * 65536);
            t += 4096;
        }
    }
}

#[test]
fn from_oklch_keeps_a_color_in_the_gamut() {
    assert_eq!(Color::from_oklch(fx4(44446, 8044, 30583, 57962)), Color::new(205, 133, 63, 255));
    assert_eq!(Color::from_oklch(fx4(44446, 8044, 30583, 57962)), Color::from_oklab(fx3(44446, 3753, 7114)));
    assert_eq!(Color::from_oklch(fx4(32768, 0, 65536, 0)), Color::new(99, 99, 99, 255));
}

#[test]
fn from_oklch_reduces_the_chroma_outside_the_gamut() {
    assert_eq!(Color::from_oklch(fx4(45875, 26214, 65536, 0)), Color::new(255, 87, 153, 255));
    assert_eq!(Color::from_oklch(fx4(45875, 26214, 65536, 0)), Color::from_oklab(fx3(45875, 13736, 0)));
    assert_eq!(Color::from_oklch(fx4(32768, 32768, 0, -65536)), Color::new(52, 53, 255, 255));
    assert_eq!(Color::from_oklch(fx4(58982, 131072, -46341, 46341)), Color::new(146, 255, 60, 255));
}

#[test]
fn from_oklch_takes_a_chroma_below_zero() {
    assert_eq!(Color::from_oklch(fx4(32768, -6554, 65536, 0)), Color::new(0, 116, 101, 255));
    assert_eq!(Color::from_oklch(fx4(32768, -65536, 65536, 0)), Color::new(0, 116, 101, 255));
    assert_eq!(
        Color::from_oklch(fx4(32768, -i32::MAX, -65536, 65536)),
        Color::new(148, 1, 191, 255)
    );
}

#[test]
fn from_oklch_differs_from_plain_clipping() {
    assert_eq!(Color::from_oklab(fx3(45875, 26214, 0)), Color::new(255, 0, 148, 255));
}

#[test]
fn oklch_round_trip_is_exact() {
    let mut r = 0u32;
    while r < 256 {
        let mut g = 0u32;
        while g < 256 {
            let mut b = 0u32;
            while b < 256 {
                let c = Color::new(r as u8, g as u8, b as u8, 255);
                assert_eq!(Color::from_oklch(c.into_oklch()), c);
                b += 15;
            }
            g += 5;
        }
        r += 5;
    }
}

#[test]
fn oklch_round_trip_on_the_edge_of_the_gamut() {
    let mut x = 0u32;
    while x < 256 {
        let mut y = 0u32;
        while y < 256 {
            for v in [0u8, 255] {
                for c in [
                    Color::new(v, x as u8, y as u8, 255),
                    Color::new(x as u8, v, y as u8, 255),
                    Color::new(x as u8, y as u8, v, 255),
                ] {
                    assert_eq!(Color::from_oklch(c.into_oklch()), c);
                }
            }
            y += 5;
        }
        x += 3;
    }
}
