use codimate::color::BlendMode;
use codimate::color::Color;
use codimate::fixed::Fixed;

fn fx3(a: i32, b: i32, c: i32) -> [Fixed; 3] {
    [Fixed::from_raw(a), Fixed::from_raw(b), Fixed::from_raw(c)]
}

const MODES: [BlendMode; 16] = [
    BlendMode::Normal,
    BlendMode::Multiply,
    BlendMode::Screen,
    BlendMode::Overlay,
    BlendMode::Darken,
    BlendMode::Lighten,
    BlendMode::ColorDodge,
    BlendMode::ColorBurn,
    BlendMode::HardLight,
    BlendMode::SoftLight,
    BlendMode::Difference,
    BlendMode::Exclusion,
    BlendMode::Hue,
    BlendMode::Saturation,
    BlendMode::Color,
    BlendMode::Luminosity,
];

fn sample(n: u32) -> Color {
    let x = n.wrapping_mul(2654435761).rotate_left(7) ^ n.wrapping_mul(40503);
    Color::new(x as u8, (x >> 8) as u8, (x >> 16) as u8, (x >> 24) as u8)
}

#[test]
fn over_composes_in_linear_light() {
    assert_eq!(
        Color::new(255, 0, 0, 128).over(Color::new(0, 0, 255, 255)),
        Color::new(188, 0, 187, 255)
    );
    assert_eq!(
        Color::new(255, 0, 0, 128).over(Color::new(0, 0, 255, 128)),
        Color::new(213, 0, 156, 192)
    );
}

#[test]
fn over_with_transparent_operands() {
    assert_eq!(Color::new(10, 20, 30, 0).over(Color::new(1, 2, 3, 0)), Color::new(0, 0, 0, 0));
    assert_eq!(Color::new(10, 20, 30, 77).over(Color::new(1, 2, 3, 0)), Color::new(10, 20, 30, 77));
    assert_eq!(Color::new(10, 20, 30, 0).over(Color::new(1, 2, 3, 9)), Color::new(1, 2, 3, 9));
}

#[test]
fn opaque_source_over_anything_is_the_source() {
    for n in 0..2000 {
        let src = sample(n).with_alpha(255);
        assert_eq!(src.over(sample(n + 5000)), src);
    }
}

#[test]
fn over_srgb_fast_composes_on_the_levels() {
    assert_eq!(
        Color::new(255, 0, 0, 128).over_srgb_fast(Color::new(0, 0, 255, 255)),
        Color::new(128, 0, 127, 255)
    );
    assert_eq!(
        Color::new(255, 0, 0, 128).over_srgb_fast(Color::new(0, 0, 255, 128)),
        Color::new(170, 0, 85, 192)
    );
}

#[test]
fn over_srgb_fast_adopts_source_over_transparent_destination() {
    assert_eq!(
        Color::new(10, 20, 30, 40).over_srgb_fast(Color::new(1, 2, 3, 0)),
        Color::new(10, 20, 30, 40)
    );
    assert_eq!(
        Color::new(10, 20, 30, 0).over_srgb_fast(Color::new(1, 2, 3, 0)),
        Color::new(10, 20, 30, 0)
    );
}

#[test]
fn over_srgb_fast_keeps_destination_under_transparent_source() {
    assert_eq!(
        Color::new(10, 20, 30, 0).over_srgb_fast(Color::new(1, 2, 3, 9)),
        Color::new(1, 2, 3, 9)
    );
}

#[test]
fn blend_normal_is_over() {
    for n in 0..5000 {
        let src = sample(n);
        let bg = sample(n + 77777);
        if src.a == 0 && bg.a == 0 {
            continue;
        }
        assert_eq!(src.blend_over(bg, BlendMode::Normal), src.over(bg));
    }
    for a in [0u8, 1, 128, 255] {
        for b in [1u8, 128, 255] {
            let src = Color::new(200, 100, 50, a);
            let bg = Color::new(30, 180, 220, b);
            assert_eq!(src.blend_over(bg, BlendMode::Normal), src.over(bg));
        }
    }
}

#[test]
fn blend_normal_of_two_transparent_colors_keeps_the_backdrop() {
    let src = Color::new(200, 100, 50, 0);
    let bg = Color::new(30, 180, 220, 0);
    assert_eq!(src.blend_over(bg, BlendMode::Normal), bg);
    assert_eq!(src.over(bg), Color::new(0, 0, 0, 0));
    assert_eq!(
        src.blend_over(Color::new(0, 0, 0, 0), BlendMode::Normal),
        src.over(Color::new(0, 0, 0, 0))
    );
}

#[test]
fn blend_over_short_circuits() {
    let src = Color::new(200, 100, 50, 128);
    let bg = Color::new(30, 180, 220, 200);
    for m in MODES {
        assert_eq!(src.with_alpha(0).blend_over(bg, m), bg);
        assert_eq!(src.blend_over(bg.with_alpha(0), m), src.over(bg.with_alpha(0)));
        assert_eq!(src.blend_over(bg.with_alpha(0), m), src);
    }
}

#[test]
fn blend_channel_of_each_mode() {
    let backdrop = fx3(850, 29911, 46903);
    let source = fx3(37852, 8351, 2090);
    let expected = [
        (37852, 8351, 2090),
        (490, 3811, 1495),
        (38211, 34450, 47497),
        (981, 7622, 29458),
        (850, 8351, 2090),
        (37852, 29911, 46903),
        (2012, 34279, 48448),
        (0, 0, 0),
        (10886, 7622, 2991),
        (1225, 17795, 34418),
        (37002, 21560, 44813),
        (37720, 30639, 46001),
        (50542, 12551, 4489),
        (5813, 28380, 41575),
        (44401, 14900, 8639),
        (0, 21604, 34236),
    ];
    for i in 0..16 {
        let e = expected[i];
        assert_eq!(Color::blend_channel(MODES[i], backdrop, source), fx3(e.0, e.1, e.2));
    }
}

#[test]
fn blend_over_of_each_mode_opaque() {
    let src = Color::new(200, 100, 50, 255);
    let bg = Color::new(30, 180, 220, 255);
    let expected = [
        (200, 100, 50),
        (21, 68, 42),
        (201, 192, 221),
        (33, 96, 179),
        (30, 100, 50),
        (200, 180, 220),
        (49, 191, 223),
        (0, 0, 0),
        (113, 96, 60),
        (37, 142, 192),
        (198, 155, 216),
        (200, 182, 218),
        (227, 121, 74),
        (84, 176, 209),
        (215, 131, 102),
        (0, 155, 191),
    ];
    for i in 0..16 {
        let e = expected[i];
        assert_eq!(src.blend_over(bg, MODES[i]), Color::new(e.0, e.1, e.2, 255));
    }
}

#[test]
fn blend_over_of_each_mode_translucent() {
    let src = Color::new(200, 100, 50, 128);
    let bg = Color::new(30, 180, 220, 200);
    let expected = [
        (156, 142, 156),
        (79, 135, 155),
        (156, 178, 209),
        (81, 141, 190),
        (81, 142, 156),
        (156, 173, 208),
        (84, 178, 210),
        (78, 128, 153),
        (108, 141, 157),
        (82, 157, 195),
        (154, 162, 206),
        (155, 174, 207),
        (173, 149, 159),
        (95, 171, 203),
        (165, 152, 165),
        (78, 162, 195),
    ];
    for i in 0..16 {
        let e = expected[i];
        assert_eq!(src.blend_over(bg, MODES[i]), Color::new(e.0, e.1, e.2, 228));
    }
}

#[test]
fn overlay_is_hard_light_with_operands_swapped() {
    let a = fx3(850, 29911, 46903);
    let b = fx3(37852, 8351, 2090);
    assert_eq!(
        Color::blend_channel(BlendMode::Overlay, a, b),
        Color::blend_channel(BlendMode::HardLight, b, a)
    );
}

#[test]
fn soft_light_has_three_branches() {
    let low = Color::blend_channel(BlendMode::SoftLight, fx3(10000, 40000, 40000), fx3(50000, 50000, 20000));
    assert_eq!(low, fx3(18106, 45889, 33926));
}

#[test]
fn color_dodge_and_burn_edges() {
    assert_eq!(
        Color::blend_channel(BlendMode::ColorDodge, fx3(0, 30000, 30000), fx3(65536, 65536, 40000)),
        fx3(0, 65536, 65536)
    );
    assert_eq!(
        Color::blend_channel(BlendMode::ColorDodge, fx3(10000, 0, 1), fx3(32768, 0, 0)),
        fx3(20000, 0, 1)
    );
    assert_eq!(
        Color::blend_channel(BlendMode::ColorBurn, fx3(65536, 30000, 30000), fx3(0, 0, 20000)),
        fx3(65536, 0, 0)
    );
    assert_eq!(
        Color::blend_channel(BlendMode::ColorBurn, fx3(60000, 65535, 0), fx3(32768, 1, 65536)),
        fx3(54464, 0, 0)
    );
}

#[test]
fn multiply_with_white_leaves_backdrop() {
    for n in 0..3000 {
        let bg = sample(n).with_alpha(255);
        assert_eq!(Color::white().blend_over(bg, BlendMode::Multiply), bg);
    }
}

#[test]
fn screen_difference_exclusion_with_black_leave_backdrop() {
    for n in 0..3000 {
        let bg = sample(n).with_alpha(255);
        assert_eq!(Color::black().blend_over(bg, BlendMode::Screen), bg);
        assert_eq!(Color::black().blend_over(bg, BlendMode::Difference), bg);
        assert_eq!(Color::black().blend_over(bg, BlendMode::Exclusion), bg);
    }
}

#[test]
fn identity_blends_on_channels() {
    let b = fx3(0, 12345, 65536);
    assert_eq!(Color::blend_channel(BlendMode::Multiply, b, fx3(65536, 65536, 65536)), b);
    assert_eq!(Color::blend_channel(BlendMode::Screen, b, fx3(0, 0, 0)), b);
    assert_eq!(Color::blend_channel(BlendMode::Difference, b, fx3(0, 0, 0)), b);
    assert_eq!(Color::blend_channel(BlendMode::Exclusion, b, fx3(0, 0, 0)), b);
}

#[test]
fn luminosity_weighs_the_channels() {
    assert_eq!(Color::lum(fx3(65536, 0, 0)).raw, 19660);
    assert_eq!(Color::lum(fx3(0, 65536, 0)).raw, 38666);
    assert_eq!(Color::lum(fx3(0, 0, 65536)).raw, 7208);
    assert_eq!(Color::lum(fx3(-100, -100, -100)).raw, -100);
}

#[test]
fn saturation_is_the_spread() {
    assert_eq!(Color::sat(fx3(60000, 59000, 40000)).raw, 20000);
    assert_eq!(Color::sat(fx3(5, 5, 5)).raw, 0);
    assert_eq!(Color::sat(fx3(-5, 0, 5)).raw, 10);
}

#[test]
fn set_sat_puts_the_least_at_zero_and_the_greatest_at_the_saturation() {
    assert_eq!(
        Color::set_sat(fx3(60000, 59000, 40000), Fixed::from_raw(65536)),
        fx3(65536, 62259, 0)
    );
    assert_eq!(
        Color::set_sat(fx3(16384, 65536, 32768), Fixed::from_raw(32768)),
        fx3(0, 32768, 10922)
    );
    assert_eq!(Color::set_sat(fx3(100, 100, 100), Fixed::from_raw(500)), fx3(0, 0, 0));
    assert_eq!(Color::set_sat(fx3(100, 300, 200), Fixed::from_raw(0)), fx3(0, 0, 0));
}

#[test]
fn set_sat_breaks_ties_red_before_green_before_blue() {
    assert_eq!(
        Color::set_sat(fx3(30000, 30000, 10000), Fixed::from_raw(20000)),
        fx3(20000, 20000, 0)
    );
    assert_eq!(
        Color::set_sat(fx3(30000, 30000, 10000), Fixed::from_raw(10000)),
        fx3(10000, 10000, 0)
    );
    assert_eq!(
        Color::set_sat(fx3(10000, 30000, 30000), Fixed::from_raw(10000)),
        fx3(0, 10000, 10000)
    );
    assert_eq!(
        Color::set_sat(fx3(10000, 10000, 30000), Fixed::from_raw(10000)),
        fx3(0, 0, 10000)
    );
    assert_eq!(
        Color::set_sat(fx3(30000, 10000, 10000), Fixed::from_raw(10000)),
        fx3(10000, 0, 0)
    );
}

#[test]
fn set_sat_gives_the_saturation_that_is_set() {
    let mut n: i64 = 0;
    while n < 4000 {
        let pick = |k: i64| ((n * k) % 65537) as i32;
        let c = fx3(pick(7919), pick(104729), pick(1299709));
        let s = Fixed::from_raw(pick(15485863));
        if Color::sat(c).raw > 0 {
            let out = Color::set_sat(c, s);
            assert_eq!(Color::sat(out), s);
            assert_eq!(out[0].raw.min(out[1].raw).min(out[2].raw), 0);
        }
        n += 1;
    }
}

#[test]
fn clip_color_pulls_toward_the_luminosity() {
    assert_eq!(Color::clip_color(fx3(-1000, 30000, 60000)), fx3(0, 29760, 58560));
    assert_eq!(Color::clip_color(fx3(70000, 30000, 10000)), fx3(65536, 31448, 14404));
    assert_eq!(Color::clip_color(fx3(100, 200, 300)), fx3(100, 200, 300));
}

#[test]
fn set_lum_shifts_and_clips() {
    assert_eq!(
        Color::set_lum(fx3(60000, 20000, 10000), Fixed::from_raw(60000)),
        fx3(65536, 57926, 56023)
    );
    assert_eq!(
        Color::set_lum(fx3(60000, 20000, 10000), Fixed::from_raw(1000)),
        fx3(2392, 478, 0)
    );
}

#[test]
fn blend_applies_a_function_to_each_channel() {
    let f = |b: Fixed, s: Fixed| Fixed::from_raw(b.raw - 2 * s.raw);
    assert_eq!(Color::blend(&fx3(10, 20, 30), &fx3(1, 2, 3), f), fx3(8, 16, 24));
}
