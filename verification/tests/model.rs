use codimate::color::BlendMode;
use codimate::color::Color;

#[test]
fn new_keeps_the_channels() {
    let c = Color::new(173, 255, 47, 200);
    assert_eq!((c.r, c.g, c.b, c.a), (173, 255, 47, 200));
}

#[test]
fn named_colors() {
    assert_eq!(Color::transparent(), Color::new(0, 0, 0, 0));
    assert_eq!(Color::black(), Color::new(0, 0, 0, 255));
    assert_eq!(Color::red(), Color::new(255, 0, 0, 255));
    assert_eq!(Color::green(), Color::new(0, 255, 0, 255));
    assert_eq!(Color::blue(), Color::new(0, 0, 255, 255));
    assert_eq!(Color::white(), Color::new(255, 255, 255, 255));
}

#[test]
fn default_is_opaque_black() {
    assert_eq!(Color::default(), Color::new(0, 0, 0, 255));
}

#[test]
fn with_alpha_changes_alpha_only() {
    assert_eq!(Color::new(0, 128, 0, 255).with_alpha(128), Color::new(0, 128, 0, 128));
}

#[test]
fn from_rgb_is_opaque() {
    assert_eq!(Color::from_rgb([211, 212, 213]), Color::new(211, 212, 213, 255));
}

#[test]
fn from_rgba_takes_all_four() {
    assert_eq!(Color::from_rgba([192, 193, 194, 128]), Color::new(192, 193, 194, 128));
}

#[test]
fn into_rgb_drops_alpha() {
    assert_eq!(Color::new(50, 205, 51, 7).into_rgb(), [50, 205, 51]);
}

#[test]
fn into_rgba_gives_all_four() {
    assert_eq!(Color::new(107, 142, 35, 128).into_rgba(), [107, 142, 35, 128]);
}

#[test]
fn byte_forms_round_trip() {
    let c = Color::new(1, 2, 3, 4);
    assert_eq!(Color::from_rgba(c.into_rgba()), c);
    assert_eq!(Color::from_rgb(c.into_rgb()), c.with_alpha(255));
}

#[test]
fn hex6_is_lower_case_without_alpha() {
    assert_eq!(Color::new(135, 206, 250, 3).into_hex6(), "87cefa");
    assert_eq!(Color::new(0, 10, 255, 255).into_hex6(), "000aff");
}

#[test]
fn hex8_is_lower_case_with_alpha() {
    assert_eq!(Color::new(255, 69, 0, 255).into_hex8(), "ff4500ff");
    assert_eq!(Color::new(1, 35, 69, 103).into_hex8(), "01234567");
    assert_eq!(Color::new(137, 171, 205, 239).into_hex8(), "89abcdef");
}

#[test]
fn canonical_text_is_upper_case_with_hash_and_alpha() {
    assert_eq!(Color::new(255, 69, 0, 255).to_string(), "#FF4500FF");
    assert_eq!(Color::new(171, 205, 239, 0).to_string(), "#ABCDEF00");
    assert_eq!(Color::new(0, 0, 0, 9).to_string(), "#00000009");
}

#[test]
fn blend_modes_are_sixteen_distinct_values() {
    let modes = [
        BlendMode::Normal,
        BlendMode::Multiply,
        BlendMode::Screen,
        BlendMode::Overlay,
        BlendMode::Darken,
        BlendMode::Lighten,
        BlendMode::ColorDodge,
        BlendMode::ColorBurn,
        BlendMode::HardLight,
        BlendMode::SoftLight,
        BlendMode::Difference,
        BlendMode::Exclusion,
        BlendMode::Hue,
        BlendMode::Saturation,
        BlendMode::Color,
        BlendMode::Luminosity,
    ];
    for i in 0..modes.len() {
        for j in 0..modes.len() {
            assert_eq!(modes[i] == modes[j], i == j);
        }
    }
}
