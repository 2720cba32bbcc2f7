//! Conversion between encoded sRGB and HSL: hue in degrees, saturation and
//! lightness as percentages.

use crate::arith::abs;
use crate::arith::clamp;
use crate::arith::div_floor;
use crate::arith::div_half_up;
use crate::arith::half_up;
use crate::arith::lemma_div_floor_bounds;
use crate::arith::lemma_div_floor_monotone;
use crate::arith::lemma_div_floor_unique;
use crate::arith::lemma_mul_bound;
use crate::color::blend::max3;
use crate::color::blend::min3;
use crate::color::linear::alpha_level;
use crate::color::linear::alpha_to_linear;
use crate::color::linear::linear_to_alpha;
use crate::color::linear::raw4;
use crate::color::model::Color;
use crate::fixed::raw3;
use crate::fixed::Fixed;
use crate::fixed::ONE;
use vstd::prelude::*;

verus! {

/// One hundred percent as a raw value.
pub const PERCENT: i64 = 6553600;

/// Sixty degrees as a raw value: one sector of the hue circle.
pub const SECTOR: i64 = 3932160;

/// The encoded red, green and blue of a color.
pub open spec fn levels(c: Color) -> (int, int, int) {
    (c.r as int, c.g as int, c.b as int)
}

/// The hue of a color in degrees, from 0 up to 360, rounded down to the
/// lattice. A gray has hue 0.
///
/// Where red is the greatest channel the hue is `60 (g - b) / delta`, taken
/// modulo 360; where green is, `60 ((b - r) / delta + 2)`; where blue is,
/// `60 ((r - g) / delta + 4)`. `delta` is the greatest channel less the
/// least. Red counts before green and green before blue.
pub open spec fn hue_spec(c: Color) -> int {
    let hi = max3(levels(c));
    let delta = hi - min3(levels(c));
    if delta == 0 {
        0
    } else if c.r == hi {
        ((SECTOR * (c.g - c.b)) / delta) % (6 * SECTOR)
    } else if c.g == hi {
        2 * SECTOR + (SECTOR * (c.b - c.r)) / delta
    } else {
        4 * SECTOR + (SECTOR * (c.r - c.g)) / delta
    }
}

/// The saturation of a color as a percentage, rounded down to the lattice:
/// `delta / (1 - |2 l - 1|)`, and 0 for a gray.
pub open spec fn saturation_spec(c: Color) -> int {
    let hi = max3(levels(c));
    let lo = min3(levels(c));
    if hi == lo {
        0
    } else {
        (PERCENT * (hi - lo)) / (255 - abs(hi + lo - 255))
    }
}

/// The lightness of a color as a percentage, rounded down to the lattice:
/// the mean of the greatest and the least channel.
pub open spec fn lightness_spec(c: Color) -> int {
    (PERCENT * (max3(levels(c)) + min3(levels(c)))) / 510
}

/// The level of the channel value `num / den`: times 255, rounded to
/// nearest, and limited to the range from 0 to 255.
pub open spec fn fraction_level(num: int, den: int) -> u8 {
    clamp(half_up(255 * num, den), 0, 255) as u8
}

/// The chroma of the HSL color, `(1 - |2 l - 1|) s`, times `scale * scale`.
pub open spec fn chroma_weight(s: int, l: int, scale: int) -> int {
    (scale - abs(2 * l - scale)) * s
}

/// The share of the chroma that the second-greatest channel gets,
/// `1 - |(h / 60) mod 2 - 1|`, times sixty degrees. `h` is a hue from 0 up
/// to 360 degrees.
pub open spec fn ramp(h: int) -> int {
    SECTOR - abs(h % (2 * SECTOR) - SECTOR)
}

/// The denominator that the three channel values of an HSL color share.
pub open spec fn hsl_denominator(scale: int) -> int {
    2 * SECTOR * (scale * scale)
}

/// The channel value of the greatest channel, `c + m`, as a numerator over
/// `hsl_denominator`.
pub open spec fn top_numerator(s: int, l: int, scale: int) -> int {
    SECTOR * (chroma_weight(s, l, scale) + 2 * l * scale)
}

/// The channel value of the least channel, `m`, as a numerator over
/// `hsl_denominator`.
pub open spec fn bottom_numerator(s: int, l: int, scale: int) -> int {
    SECTOR * (2 * l * scale - chroma_weight(s, l, scale))
}

/// The channel value of the second-greatest channel, `x + m`, as a numerator
/// over `hsl_denominator`.
pub open spec fn middle_numerator(h: int, s: int, l: int, scale: int) -> int {
    2 * (chroma_weight(s, l, scale) * ramp(h)) + bottom_numerator(s, l, scale)
}

/// The opaque color of the hue `h`, the saturation `s` and the lightness
/// `l`. The hue is in raw degrees and is taken modulo 360. Saturation and
/// lightness are fractions of `scale`.
///
/// With the chroma `c = (1 - |2 l - 1|) s`, `x = c (1 - |(h / 60) mod 2 - 1|)`
/// and `m = l - c / 2`, the channels are `m` plus `(c, x, 0)` where the hue
/// is below 60 degrees, `(x, c, 0)` below 120, `(0, c, x)` below 180,
/// `(0, x, c)` below 240, `(x, 0, c)` below 300, and `(c, 0, x)` from there.
pub open spec fn hsl_to_rgb(h: int, s: int, l: int, scale: int) -> (u8, u8, u8) {
    let hue = h % (6 * SECTOR);
    let den = hsl_denominator(scale);
    let top = fraction_level(top_numerator(s, l, scale), den);
    let middle = fraction_level(middle_numerator(hue, s, l, scale), den);
    let bottom = fraction_level(bottom_numerator(s, l, scale), den);
    if hue < SECTOR {
        (top, middle, bottom)
    } else if hue < 2 * SECTOR {
        (middle, top, bottom)
    } else if hue < 3 * SECTOR {
        (bottom, top, middle)
    } else if hue < 4 * SECTOR {
        (bottom, middle, top)
    } else if hue < 5 * SECTOR {
        (middle, bottom, top)
    } else {
        (top, bottom, middle)
    }
}

/// The opaque color of a hue in degrees and of a saturation and a lightness
/// in percent.
pub open spec fn from_hsl_spec(h: int, s: int, l: int) -> Color {
    let rgb = hsl_to_rgb(h, s, l, PERCENT as int);
    Color { r: rgb.0, g: rgb.1, b: rgb.2, a: 255 }
}

/// The color of a hue in degrees, of a saturation and a lightness in
/// percent, each limited to the range from 0 to 100, and of an alpha as a
/// fraction of one.
pub open spec fn from_hsla_spec(h: int, s: int, l: int, a: int) -> Color {
    let rgb = hsl_to_rgb(
        h,
        clamp(s, 0, PERCENT as int),
        clamp(l, 0, PERCENT as int),
        PERCENT as int,
    );
    Color { r: rgb.0, g: rgb.1, b: rgb.2, a: linear_to_alpha(a) }
}

/// The opaque color rebuilt from the hue and the saturation of `c` and from
/// a lightness of `amt` more than its own. `amt` is a fraction of one, as the
/// lightness is when it is not written in percent; the sum is limited to the
/// range from zero to one.
pub open spec fn lighten_hsl_spec(c: Color, amt: int) -> Color {
    from_hsl_spec(
        hue_spec(c),
        saturation_spec(c),
        clamp(lightness_spec(c) + 100 * amt, 0, PERCENT as int),
    )
}

/// Hue, saturation and lightness lie in their ranges.
pub proof fn lemma_hsl_ranges(c: Color)
    ensures
        0 <= hue_spec(c) < 6 * SECTOR,
        0 <= saturation_spec(c) <= PERCENT,
        0 <= lightness_spec(c) <= PERCENT,
{
    let hi = max3(levels(c));
    let lo = min3(levels(c));
    let delta = hi - lo;
    if delta > 0 {
        let den = 255 - abs(hi + lo - 255);
        assert(0 < delta <= den);
        lemma_div_floor_monotone(0, PERCENT * delta, den);
        lemma_div_floor_monotone(PERCENT * delta, PERCENT * den, den);
        lemma_div_floor_unique(PERCENT * den, den, PERCENT as int);
        lemma_div_floor_unique(0, den, 0);
        if c.r == hi {
        } else if c.g == hi {
            lemma_sector_offset(c.b - c.r, delta);
        } else {
            lemma_sector_offset(c.r - c.g, delta);
        }
    }
}

/// The hue counts modulo 360 degrees: whole turns added to it change
/// nothing.
pub proof fn lemma_hue_wraps(h: int, s: int, l: int, turns: int)
    ensures
        from_hsl_spec(h + turns * (6 * SECTOR), s, l) == from_hsl_spec(h, s, l),
{
    vstd::arithmetic::div_mod::lemma_mod_multiples_vanish(turns, h, 6 * SECTOR);
    assert(h + turns * (6 * SECTOR) == (6 * SECTOR) * turns + h) by (nonlinear_arith);
}

/// A difference of two channels, as a share of `delta`, is at most one
/// sector either way.
proof fn lemma_sector_offset(d: int, delta: int)
    requires
        delta > 0,
        -delta <= d <= delta,
    ensures
        -SECTOR <= (SECTOR * d) / delta <= SECTOR,
{
    assert(SECTOR * (-delta) <= SECTOR * d <= SECTOR * delta) by (nonlinear_arith)
        requires
            -delta <= d <= delta,
    ;
    lemma_div_floor_monotone(SECTOR * (-delta), SECTOR * d, delta);
    lemma_div_floor_monotone(SECTOR * d, SECTOR * delta, delta);
    lemma_div_floor_unique(SECTOR * delta, delta, SECTOR as int);
    lemma_div_floor_unique(SECTOR * (-delta), delta, -SECTOR);
}

fn greatest(r: u8, g: u8, b: u8) -> (hi: u8)
    ensures
        hi == max3((r as int, g as int, b as int)),
{
    if r >= g && r >= b {
        r
    } else if g >= b {
        g
    } else {
        b
    }
}

fn least(r: u8, g: u8, b: u8) -> (lo: u8)
    ensures
        lo == min3((r as int, g as int, b as int)),
{
    if r <= g && r <= b {
        r
    } else if g <= b {
        g
    } else {
        b
    }
}

/// Hue, saturation and lightness of a color.
fn hsl_of(c: Color) -> (out: [Fixed; 3])
    ensures
        raw3(out) == (hue_spec(c), saturation_spec(c), lightness_spec(c)),
{
    proof {
        lemma_hsl_ranges(c);
    }
    let hi = greatest(c.r, c.g, c.b);
    let lo = least(c.r, c.g, c.b);
    let delta: i64 = hi as i64 - lo as i64;
    let sum: i64 = hi as i64 + lo as i64;
    let l = Fixed { raw: ((PERCENT * sum) / 510) as i32 };
    if delta == 0 {
        return [Fixed { raw: 0 }, Fixed { raw: 0 }, l];
    }
    let (d, base): (i64, i64) = if c.r == hi {
        (c.g as i64 - c.b as i64, 0)
    } else if c.g == hi {
        (c.b as i64 - c.r as i64, 2 * SECTOR)
    } else {
        (c.r as i64 - c.g as i64, 4 * SECTOR)
    };
    proof {
        lemma_sector_offset(d as int, delta as int);
    }
    let offset: i64 = div_floor((SECTOR * d) as i128, delta as i128) as i64;
    let h: i64 = if c.r == hi && offset < 0 {
        offset + 6 * SECTOR
    } else {
        base + offset
    };
    let spread: i64 = if sum >= 255 {
        510 - sum
    } else {
        sum
    };
    let s: i64 = (PERCENT * delta) / spread;
    proof {
        if c.r == hi {
            assert((offset as int) % 23592960 == if offset < 0 {
                offset + 23592960
            } else {
                offset as int
            });
        }
    }
    [Fixed { raw: h as i32 }, Fixed { raw: s as i32 }, l]
}

/// The level of the channel value `num / den`.
fn level_of(num: i128, den: i128) -> (level: u8)
    requires
        0 < den <= 0x1_0000_0000_0000_0000_0000,
        -0x1_0000_0000_0000_0000_0000_0000 <= num <= 0x1_0000_0000_0000_0000_0000_0000,
    ensures
        level == fraction_level(num as int, den as int),
{
    let q = div_half_up(255 * num, den);
    if q < 0 {
        0
    } else if q > 255 {
        255
    } else {
        q as u8
    }
}

/// Red, green and blue of an HSL color: see [`hsl_to_rgb`].
fn hsl_levels(h: i32, s: i32, l: i32, scale: i64) -> (rgb: (u8, u8, u8))
    requires
        scale == PERCENT,
    ensures
        rgb == hsl_to_rgb(h as int, s as int, l as int, scale as int),
{
    let turn: i64 = 6 * SECTOR;
    let hue: i64 = (h as i64) - (div_floor(h as i128, turn as i128) as i64) * turn;
    proof {
        lemma_div_floor_bounds(h as int, turn as int);
        vstd::arithmetic::div_mod::lemma_fundamental_div_mod(h as int, turn as int);
    }
    assert(hue == (h as int) % (6 * SECTOR));
    let two_l: i64 = 2 * (l as i64) - scale;
    let a: i128 = (scale - if two_l < 0 {
        -two_l
    } else {
        two_l
    }) as i128;
    let si: i128 = s as i128;
    let li: i128 = l as i128;
    let sc: i128 = scale as i128;
    proof {
        lemma_mul_bound(a as int, si as int, 0x2_0000_0000, 0x8000_0000);
        lemma_mul_bound(li as int, sc as int, 0x8000_0000, 0x80_0000);
        lemma_mul_bound(sc as int, sc as int, 0x80_0000, 0x80_0000);
        assert(sc * sc > 0) by (nonlinear_arith)
            requires
                sc > 0,
        ;
    }
    let cw: i128 = a * si;
    let base: i128 = 2 * (li * sc);
    assert(2 * li * sc == 2 * (li * sc)) by (nonlinear_arith);
    let half: i64 = hue % (2 * SECTOR);
    let share: i64 = SECTOR - if half < SECTOR {
        SECTOR - half
    } else {
        half - SECTOR
    };
    assert(share == ramp(hue as int));
    proof {
        lemma_mul_bound(cw as int, share as int, 0x1_0000_0000_0000_0000, 0x40_0000);
    }
    let den: i128 = 2 * (SECTOR as i128) * (sc * sc);
    let top: i128 = (SECTOR as i128) * (cw + base);
    let bottom: i128 = (SECTOR as i128) * (base - cw);
    let middle: i128 = 2 * (cw * (share as i128)) + bottom;
    let t = level_of(top, den);
    let m = level_of(middle, den);
    let b = level_of(bottom, den);
    if hue < SECTOR {
        (t, m, b)
    } else if hue < 2 * SECTOR {
        (m, t, b)
    } else if hue < 3 * SECTOR {
        (b, t, m)
    } else if hue < 4 * SECTOR {
        (b, m, t)
    } else if hue < 5 * SECTOR {
        (m, b, t)
    } else {
        (t, b, m)
    }
}

fn clamp_to_percent(x: i64) -> (out: i32)
    ensures
        out == clamp(x as int, 0, PERCENT as int),
{
    if x < 0 {
        0
    } else if x > PERCENT {
        PERCENT as i32
    } else {
        x as i32
    }
}

impl Color {
    /// The opaque color of a hue in degrees, a saturation in percent and a
    /// lightness in percent. The hue is taken modulo 360.
    pub fn from_hsl(hsl: [Fixed; 3]) -> (c: Color)
        ensures
            c == from_hsl_spec(hsl[0].raw as int, hsl[1].raw as int, hsl[2].raw as int),
    {
        let (r, g, b) = hsl_levels(hsl[0].raw, hsl[1].raw, hsl[2].raw, PERCENT);
        Color { r, g, b, a: 255 }
    }

    /// The color of a hue in degrees, of a saturation and a lightness in
    /// percent, and of an alpha as a fraction of one. The hue is taken
    /// modulo 360; saturation and lightness are limited to the range from 0
    /// to 100, alpha to the range from zero to one.
    pub fn from_hsla(hsla: [Fixed; 4]) -> (c: Color)
        ensures
            c == from_hsla_spec(
                hsla[0].raw as int,
                hsla[1].raw as int,
                hsla[2].raw as int,
                hsla[3].raw as int,
            ),
    {
        let s = clamp_to_percent(hsla[1].raw as i64);
        let l = clamp_to_percent(hsla[2].raw as i64);
        let (r, g, b) = hsl_levels(hsla[0].raw, s, l, PERCENT);
        Color { r, g, b, a: alpha_level(hsla[3].raw as i64) }
    }

    /// The opaque color of the same hue and saturation and of a lightness
    /// that is `amt` greater. `amt` is a fraction of one: 0.5 takes a
    /// lightness of 30 percent to 80 percent. The lightness is limited to
    /// the range from zero to one.
    pub fn lighten_hsl(self, amt: Fixed) -> (c: Color)
        ensures
            c == lighten_hsl_spec(self, amt.raw as int),
    {
        let hsl = self.into_hsl();
        let l = clamp_to_percent(hsl[2].raw as i64 + 100 * (amt.raw as i64));
        Self::from_hsl([hsl[0], hsl[1], Fixed { raw: l }])
    }

    /// The opaque color of the same hue and saturation and of a lightness
    /// that is `amt` less. `amt` is a fraction of one. The lightness is
    /// limited to the range from zero to one.
    pub fn darken_hsl(self, amt: Fixed) -> (c: Color)
        ensures
            c == lighten_hsl_spec(self, -(amt.raw as int)),
    {
        let hsl = self.into_hsl();
        let l = clamp_to_percent(hsl[2].raw as i64 - 100 * (amt.raw as i64));
        Self::from_hsl([hsl[0], hsl[1], Fixed { raw: l }])
    }

    /// Hue in degrees, from 0 up to 360, saturation in percent and
    /// lightness in percent.
    pub fn into_hsl(self) -> (hsl: [Fixed; 3])
        ensures
            raw3(hsl) == (hue_spec(self), saturation_spec(self), lightness_spec(self)),
            0 <= hsl[0].raw < 6 * SECTOR,
            0 <= hsl[1].raw <= PERCENT,
            0 <= hsl[2].raw <= PERCENT,
    {
        proof {
            lemma_hsl_ranges(self);
        }
        hsl_of(self)
    }

    /// Hue in degrees, from 0 up to 360, saturation in percent, lightness
    /// in percent, and alpha as a fraction of one.
    pub fn into_hsla(self) -> (hsla: [Fixed; 4])
        ensures
            raw4(hsla) == (
                hue_spec(self),
                saturation_spec(self),
                lightness_spec(self),
                alpha_to_linear(self.a),
            ),
            0 <= hsla[0].raw < 6 * SECTOR,
            0 <= hsla[1].raw <= PERCENT,
            0 <= hsla[2].raw <= PERCENT,
            0 <= hsla[3].raw <= ONE,
    {
        proof {
            lemma_hsl_ranges(self);
        }
        let hsl = hsl_of(self);
        [hsl[0], hsl[1], hsl[2], Fixed { raw: ((self.a as i32) * ONE) / 255 }]
    }
}

} // verus!
