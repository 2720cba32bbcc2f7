use codimate::color::BlendMode;
use codimate::color::Color;
use codimate::fixed::Fixed;

const ONE: f64 = 65536.0;

const MODES: [BlendMode; 16] = [
    BlendMode::Normal,
    BlendMode::Multiply,
    BlendMode::Screen,
    BlendMode::Overlay,
    BlendMode::Darken,
    BlendMode::Lighten,
    BlendMode::ColorDodge,
    BlendMode::ColorBurn,
    BlendMode::HardLight,
    BlendMode::SoftLight,
    BlendMode::Difference,
    BlendMode::Exclusion,
    BlendMode::Hue,
    BlendMode::Saturation,
    BlendMode::Color,
    BlendMode::Luminosity,
];

struct Rng(u64);

impl Rng {
    fn next(&mut self) -> u64 {
        self.0 = self.0.wrapping_mul(6364136223846793005).wrapping_add(1442695040888963407);
        self.0 >> 33
    }

    fn level(&mut self) -> u8 {
        self.next() as u8
    }

    fn unit(&mut self) -> i32 {
        (self.next() % 65537) as i32
    }

    fn color(&mut self) -> Color {
        Color::new(self.level(), self.level(), self.level(), self.level())
    }
}

fn decode(k: u8) -> f64 {
    let s = k as f64 / 255.0;
    if s <= 0.04045 {
        s / 12.92
    } else {
        ((s + 0.055) / 1.055).powf(2.4)
    }
}

fn encode(l: f64) -> f64 {
    let l = l.clamp(0.0, 1.0);
    let v = if l <= 0.0031308 { 12.92 * l } else { 1.055 * l.powf(1.0 / 2.4) - 0.055 };
    (v * 255.0 + 0.5).floor()
}

fn lum(c: [f64; 3]) -> f64 {
    0.3 * c[0] + 0.59 * c[1] + 0.11 * c[2]
}

fn sat(c: [f64; 3]) -> f64 {
    c[0].max(c[1]).max(c[2]) - c[0].min(c[1]).min(c[2])
}

fn clip_color(c: [f64; 3]) -> [f64; 3] {
    let l = lum(c);
    let n = c[0].min(c[1]).min(c[2]);
    let x = c[0].max(c[1]).max(c[2]);
    if n < 0.0 {
        c.map(|v| l + ((v - l) * l) / (l - n))
    } else if x > 1.0 {
        c.map(|v| l + ((v - l) * (1.0 - l)) / (x - l))
    } else {
        c
    }
}

fn set_lum(c: [f64; 3], l: f64) -> [f64; 3] {
    let d = l - lum(c);
    clip_color(c.map(|v| v + d))
}

fn set_sat(c: [f64; 3], s: f64) -> [f64; 3] {
    let [r, g, b] = c;
    let (max_ch, min_ch, mid_ch) = if r >= g && r >= b {
        if g <= b {
            (0, 1, 2)
        } else {
            (0, 2, 1)
        }
    } else if g >= r && g >= b {
        if r <= b {
            (1, 0, 2)
        } else {
            (1, 2, 0)
        }
    } else if r <= g {
        (2, 0, 1)
    } else {
        (2, 1, 0)
    };
    let (max, min, mid) = (c[max_ch], c[min_ch], c[mid_ch]);
    if max - min == 0.0 {
        return [0.0, 0.0, 0.0];
    }
    let mut out = [0.0; 3];
    out[mid_ch] = ((mid - min) * s) / (max - min);
    out[max_ch] = s;
    out[min_ch] = 0.0;
    out
}

fn hard_light(b: f64, s: f64) -> f64 {
    if s <= 0.5 {
        2.0 * b * s
    } else {
        1.0 - 2.0 * (1.0 - b) * (1.0 - s)
    }
}

fn separable(mode: BlendMode, b: f64, s: f64) -> f64 {
    match mode {
        BlendMode::Multiply => b * s,
        BlendMode::Screen => b + s - b * s,
        BlendMode::Overlay => hard_light(s, b),
        BlendMode::Darken => b.min(s),
        BlendMode::Lighten => b.max(s),
        BlendMode::ColorDodge => {
            if b == 0.0 {
                0.0
            } else if s == 1.0 {
                1.0
            } else {
                (b / (1.0 - s)).min(1.0)
            }
        }
        BlendMode::ColorBurn => {
            if b == 1.0 {
                1.0
            } else if s == 0.0 {
                0.0
            } else {
                1.0 - ((1.0 - b) / s).min(1.0)
            }
        }
        BlendMode::HardLight => hard_light(b, s),
        BlendMode::SoftLight => {
            if s <= 0.5 {
                b - (1.0 - 2.0 * s) * b * (1.0 - b)
            } else {
                let d = if b <= 0.25 { ((16.0 * b - 12.0) * b + 4.0) * b } else { b.sqrt() };
                b + (2.0 * s - 1.0) * (d - b)
            }
        }
        BlendMode::Difference => (b - s).abs(),
        BlendMode::Exclusion => b + s - 2.0 * b * s,
        _ => s,
    }
}

fn blend(mode: BlendMode, b: [f64; 3], s: [f64; 3]) -> [f64; 3] {
    match mode {
        BlendMode::Hue => set_lum(set_sat(s, sat(b)), lum(b)),
        BlendMode::Saturation => set_lum(set_sat(b, sat(s)), lum(b)),
        BlendMode::Color => set_lum(s, lum(b)),
        BlendMode::Luminosity => set_lum(b, lum(s)),
        _ => [separable(mode, b[0], s[0]), separable(mode, b[1], s[1]), separable(mode, b[2], s[2])],
    }
}

fn over(src: Color, bg: Color) -> [f64; 4] {
    let fa = src.a as f64 / 255.0;
    let ba = bg.a as f64 / 255.0;
    let out_a = fa + ba * (1.0 - fa);
    let ch = |s: u8, d: u8| {
        if out_a > 0.0 {
            encode((decode(s) * fa + decode(d) * ba * (1.0 - fa)) / out_a)
        } else {
            0.0
        }
    };
    [ch(src.r, bg.r), ch(src.g, bg.g), ch(src.b, bg.b), (out_a * 255.0 + 0.5).floor()]
}

fn blend_over(src: Color, bg: Color, mode: BlendMode) -> [f64; 4] {
    let levels = |c: Color| [c.r as f64, c.g as f64, c.b as f64, c.a as f64];
    if src.a == 0 {
        return levels(bg);
    }
    if mode == BlendMode::Normal || bg.a == 0 {
        return over(src, bg);
    }
    let s = [decode(src.r), decode(src.g), decode(src.b)];
    let d = [decode(bg.r), decode(bg.g), decode(bg.b)];
    let sa = src.a as f64 / 255.0;
    let da = bg.a as f64 / 255.0;
    let bl = blend(mode, d, s);
    let a_out = sa + da - sa * da;
    let ch = |i: usize| {
        encode((d[i] * da * (1.0 - sa) + s[i] * sa * (1.0 - da) + sa * da * bl[i]) / a_out)
    };
    [ch(0), ch(1), ch(2), (a_out * 255.0 + 0.5).floor()]
}

fn within(got: Color, want: [f64; 4], levels: f64) -> bool {
    (got.r as f64 - want[0]).abs() <= levels
        && (got.g as f64 - want[1]).abs() <= levels
        && (got.b as f64 - want[2]).abs() <= levels
        && (got.a as f64 - want[3]).abs() <= 1.0
}

fn close(got: Color, want: [f64; 4]) -> bool {
    within(got, want, 1.0)
}

fn is_separable(mode: BlendMode) -> bool {
    !matches!(
        mode,
        BlendMode::Hue | BlendMode::Saturation | BlendMode::Color | BlendMode::Luminosity
    )
}

#[test]
fn blend_channel_agrees_with_floating_point() {
    let mut rng = Rng(3);
    for _ in 0..20000 {
        let b = [rng.unit(), rng.unit(), rng.unit()];
        let s = [rng.unit(), rng.unit(), rng.unit()];
        for mode in MODES {
            let got = Color::blend_channel(mode, b.map(Fixed::from_raw), s.map(Fixed::from_raw));
            let want = blend(mode, b.map(|v| v as f64 / ONE), s.map(|v| v as f64 / ONE));
            let slack = if is_separable(mode) { 2.0 } else { 64.0 };
            for i in 0..3 {
                assert!((got[i].raw as f64 - want[i] * ONE).abs() <= slack);
                assert!(got[i].raw >= 0 && got[i].raw <= 65536);
            }
        }
    }
}

#[test]
fn over_agrees_with_floating_point() {
    let mut rng = Rng(4);
    for _ in 0..20000 {
        let src = rng.color();
        let bg = rng.color();
        assert!(close(src.over(bg), over(src, bg)));
    }
}

#[test]
fn blend_over_agrees_with_floating_point() {
    let mut rng = Rng(5);
    for _ in 0..5000 {
        let src = rng.color();
        let bg = rng.color();
        for mode in MODES {
            let levels = if is_separable(mode) { 1.0 } else { 2.0 };
            assert!(within(src.blend_over(bg, mode), blend_over(src, bg, mode), levels));
        }
    }
}

#[test]
fn over_srgb_fast_agrees_with_floating_point() {
    let mut rng = Rng(6);
    for _ in 0..20000 {
        let src = rng.color();
        let dst = rng.color();
        if src.a == 0 || dst.a == 0 {
            continue;
        }
        let sa = src.a as f64 / 255.0;
        let da = dst.a as f64 / 255.0;
        let out_a = sa + da * (1.0 - sa);
        let ch = |s: u8, d: u8| {
            let out = (s as f64 / 255.0 * sa + d as f64 / 255.0 * da * (1.0 - sa)) / out_a;
            (out * 255.0 + 0.5).floor()
        };
        let want = [ch(src.r, dst.r), ch(src.g, dst.g), ch(src.b, dst.b), (out_a * 255.0 + 0.5).floor()];
        assert!(close(src.over_srgb_fast(dst), want));
    }
}

#[test]
fn lerp_agrees_with_floating_point() {
    let mut rng = Rng(7);
    for _ in 0..20000 {
        let a = rng.color();
        let b = rng.color();
        let t = rng.unit();
        let tf = t as f64 / ONE;
        let ch = |x: u8, y: u8| (x as f64 + (y as f64 - x as f64) * tf).round();
        let want = [ch(a.r, b.r), ch(a.g, b.g), ch(a.b, b.b), ch(a.a, b.a)];
        assert!(close(a.lerp(b, Fixed::from_raw(t)), want));
        let lin = |x: u8, y: u8| encode(decode(x) + (decode(y) - decode(x)) * tf);
        let alpha = ((a.a as f64 + (b.a as f64 - a.a as f64) * tf) + 0.5).floor();
        let want = [lin(a.r, b.r), lin(a.g, b.g), lin(a.b, b.b), alpha];
        assert!(close(a.lerp_linear(b, Fixed::from_raw(t)), want));
    }
}

#[test]
fn luminance_and_contrast_agree_with_floating_point() {
    let mut rng = Rng(8);
    let lum = |c: Color| 0.2126 * decode(c.r) + 0.7152 * decode(c.g) + 0.0722 * decode(c.b);
    for _ in 0..20000 {
        let a = rng.color();
        let b = rng.color();
        assert!((a.relative_luminance().raw as f64 / ONE - lum(a)).abs() < 1e-4);
        let (hi, lo) = if lum(a) >= lum(b) { (lum(a), lum(b)) } else { (lum(b), lum(a)) };
        let want = (hi + 0.05) / (lo + 0.05);
        assert!((a.contrast_ratio(b).raw as f64 / ONE - want).abs() < 2e-2);
    }
}

#[test]
fn into_hsl_agrees_with_floating_point() {
    let mut rng = Rng(9);
    for _ in 0..50000 {
        let c = rng.color();
        let (r, g, b) = (c.r as f64 / 255.0, c.g as f64 / 255.0, c.b as f64 / 255.0);
        let max = r.max(g).max(b);
        let min = r.min(g).min(b);
        let delta = max - min;
        let h = if delta == 0.0 {
            0.0
        } else if r == max {
            60.0 * ((g - b) / delta).rem_euclid(6.0)
        } else if g == max {
            60.0 * ((b - r) / delta + 2.0)
        } else {
            60.0 * ((r - g) / delta + 4.0)
        };
        let l = (max + min) / 2.0;
        let s = if delta == 0.0 { 0.0 } else { delta / (1.0 - (2.0 * l - 1.0).abs()) };
        let got = c.into_hsl();
        assert!((got[0].raw as f64 / ONE - h).abs() < 1e-4);
        assert!((got[1].raw as f64 / ONE - s * 100.0).abs() < 1e-4);
        assert!((got[2].raw as f64 / ONE - l * 100.0).abs() < 1e-4);
    }
}

#[test]
fn from_hsl_agrees_with_floating_point() {
    let mut rng = Rng(10);
    for _ in 0..50000 {
        let h = (rng.next() % (720 * 65536)) as i32 - 360 * 65536;
        let s = (rng.next() % (100 * 65536 + 1)) as i32;
        let l = (rng.next() % (100 * 65536 + 1)) as i32;
        let (hf, sf, lf) = ((h as f64 / ONE).rem_euclid(360.0), s as f64 / ONE / 100.0, l as f64 / ONE / 100.0);
        let c = (1.0 - (2.0 * lf - 1.0).abs()) * sf;
        let x = c * (1.0 - ((hf / 60.0) % 2.0 - 1.0).abs());
        let m = lf - c / 2.0;
        let (r, g, b) = if hf < 60.0 {
            (c, x, 0.0)
        } else if hf < 120.0 {
            (x, c, 0.0)
        } else if hf < 180.0 {
            (0.0, c, x)
        } else if hf < 240.0 {
            (0.0, x, c)
        } else if hf < 300.0 {
            (x, 0.0, c)
        } else {
            (c, 0.0, x)
        };
        let level = |v: f64| ((v + m) * 255.0 + 0.5).floor().clamp(0.0, 255.0);
        let got = Color::from_hsl([Fixed::from_raw(h), Fixed::from_raw(s), Fixed::from_raw(l)]);
        assert!(close(got, [level(r), level(g), level(b), 255.0]));
    }
}

#[test]
fn into_oklab_matches_the_float_formulas() {
    let mut rng = Rng(11);
    for _ in 0..50000 {
        let c = rng.color();
        let lin = [decode(c.r), decode(c.g), decode(c.b)];
        let l = (0.41222147 * lin[0] + 0.53633254 * lin[1] + 0.051445993 * lin[2]).cbrt();
        let m = (0.2119035 * lin[0] + 0.6806996 * lin[1] + 0.10739696 * lin[2]).cbrt();
        let s = (0.08830246 * lin[0] + 0.28171884 * lin[1] + 0.6299787 * lin[2]).cbrt();
        let want = [
            0.21045426 * l + 0.7936178 * m - 0.004072047 * s,
            1.9779985 * l - 2.4285922 * m + 0.4505937 * s,
            0.025904037 * l + 0.78277177 * m - 0.80867577 * s,
        ];
        let got = c.into_oklab();
        for i in 0..3 {
            assert!((got[i].raw as f64 / ONE - want[i]).abs() < 1e-3);
        }
    }
}

#[test]
fn from_oklab_agrees_with_floating_point() {
    let mut rng = Rng(12);
    for _ in 0..50000 {
        let lab = [rng.unit(), rng.unit() - 32768, rng.unit() - 32768];
        let f = lab.map(|v| v as f64 / ONE);
        let l = (f[0] + 0.39633778 * f[1] + 0.21580376 * f[2]).powi(3);
        let m = (f[0] - 0.105561346 * f[1] - 0.06385417 * f[2]).powi(3);
        let s = (f[0] - 0.08948418 * f[1] - 1.2914856 * f[2]).powi(3);
        let want = [
            encode(4.0767417 * l - 3.3077116 * m + 0.23096993 * s),
            encode(-1.268438 * l + 2.6097574 * m - 0.3413194 * s),
            encode(-0.0041960863 * l - 0.7034186 * m + 1.7076147 * s),
            255.0,
        ];
        assert!(close(Color::from_oklab(lab.map(Fixed::from_raw)), want));
    }
}
