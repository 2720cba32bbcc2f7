//! Conversion between encoded sRGB and linear light, and what is measured
//! in linear light: luminance and contrast.

use crate::arith::clamp;
use crate::arith::half_up;
use crate::arith::lemma_div_floor_monotone;
use crate::arith::lemma_div_floor_unique;
use crate::color::model::Color;
use crate::color::transfer::lemma_encode_decode;
use crate::color::transfer::lemma_table_decodes;
use crate::color::transfer::linear_to_srgb;
use crate::color::transfer::srgb_to_linear;
use crate::fixed::quotient;
use crate::fixed::Fixed;
use crate::fixed::ONE;
use vstd::prelude::*;

verus! {

/// What four fixed-point numbers stand for in contracts: their raw values.
pub open spec fn raw4(a: [Fixed; 4]) -> (int, int, int, int) {
    (a[0].raw as int, a[1].raw as int, a[2].raw as int, a[3].raw as int)
}

/// The alpha level `a` as a fraction of one: `a / 255`, rounded down.
pub open spec fn alpha_to_linear(a: u8) -> int {
    (a * ONE) / 255
}

/// The alpha level of a fraction of one: `x * 255`, rounded to nearest. The
/// fraction is limited to the range from zero to one first.
pub open spec fn linear_to_alpha(x: int) -> u8 {
    half_up(clamp(x, 0, ONE as int) * 255, ONE as int) as u8
}

/// A color in linear light: red, green, blue and alpha. Alpha is a plain
/// fraction, not corrected by the transfer function.
pub open spec fn into_linear_spec(c: Color) -> (int, int, int, int) {
    (srgb_to_linear(c.r), srgb_to_linear(c.g), srgb_to_linear(c.b), alpha_to_linear(c.a))
}

/// The color that linear-light values encode to.
pub open spec fn from_linear_spec(lin: (int, int, int, int)) -> Color {
    Color {
        r: linear_to_srgb(lin.0),
        g: linear_to_srgb(lin.1),
        b: linear_to_srgb(lin.2),
        a: linear_to_alpha(lin.3),
    }
}

/// A color in linear light with `amt` added to red, green and blue, each
/// limited to the range from zero to one.
pub open spec fn shifted_linear(c: Color, amt: int) -> (int, int, int, int) {
    (
        clamp(srgb_to_linear(c.r) + amt, 0, ONE as int),
        clamp(srgb_to_linear(c.g) + amt, 0, ONE as int),
        clamp(srgb_to_linear(c.b) + amt, 0, ONE as int),
        alpha_to_linear(c.a),
    )
}

/// The WCAG relative luminance: `0.2126 R + 0.7152 G + 0.0722 B` of the
/// linear-light channels, rounded down.
pub open spec fn relative_luminance_spec(c: Color) -> int {
    (2126 * srgb_to_linear(c.r) + 7152 * srgb_to_linear(c.g) + 722 * srgb_to_linear(c.b)) / 10000
}

/// The WCAG contrast ratio `(L1 + 0.05) / (L2 + 0.05)`, with `L1` the
/// greater of the two relative luminances, rounded down.
pub open spec fn contrast_ratio_spec(c: Color, d: Color) -> int {
    let lc = relative_luminance_spec(c);
    let ld = relative_luminance_spec(d);
    let hi = if lc >= ld {
        lc
    } else {
        ld
    };
    let lo = if lc >= ld {
        ld
    } else {
        lc
    };
    (ONE * (20 * hi + ONE)) / (20 * lo + ONE)
}

/// An alpha level goes to linear light and back unchanged.
pub proof fn lemma_alpha_round_trip(a: u8)
    ensures
        0 <= alpha_to_linear(a) <= ONE,
        linear_to_alpha(alpha_to_linear(a)) == a,
{
}

/// A color goes to linear light and back unchanged.
pub proof fn lemma_linear_round_trip(c: Color)
    ensures
        from_linear_spec(into_linear_spec(c)) == c,
{
    lemma_encode_decode(c.r);
    lemma_encode_decode(c.g);
    lemma_encode_decode(c.b);
    lemma_alpha_round_trip(c.a);
}

/// The relative luminance lies between zero and one.
pub proof fn lemma_relative_luminance_unit(c: Color)
    ensures
        0 <= relative_luminance_spec(c) <= ONE,
{
    lemma_table_decodes(c.r);
    lemma_table_decodes(c.g);
    lemma_table_decodes(c.b);
}

/// `x` limited to the range from zero to one.
fn clamp_unit(x: i64) -> (out: Fixed)
    ensures
        out.raw == clamp(x as int, 0, ONE as int),
{
    if x < 0 {
        Fixed { raw: 0 }
    } else if x > ONE as i64 {
        Fixed { raw: ONE }
    } else {
        Fixed { raw: x as i32 }
    }
}

/// The alpha level of a fraction of one.
pub fn alpha_level(x: i64) -> (a: u8)
    ensures
        a == linear_to_alpha(x as int),
{
    let c: i64 = clamp_unit(x).raw as i64;
    ((c * 255 + 32768) / 65536) as u8
}

impl Color {
    /// The color in linear light: red, green and blue decoded by the sRGB
    /// transfer function, alpha as a plain fraction.
    pub fn into_linear(self) -> (lin: [Fixed; 4])
        ensures
            raw4(lin) == into_linear_spec(self),
            lin[0].is_unit() && lin[1].is_unit() && lin[2].is_unit() && lin[3].is_unit(),
    {
        [
            Self::decode_srgb(self.r),
            Self::decode_srgb(self.g),
            Self::decode_srgb(self.b),
            Fixed { raw: ((self.a as i32) * ONE) / 255 },
        ]
    }

    /// The color that linear-light values encode to. Values outside the
    /// range from zero to one are limited to it.
    pub fn from_linear(lin: [Fixed; 4]) -> (c: Color)
        ensures
            c == from_linear_spec(raw4(lin)),
    {
        Color {
            r: Self::encode_srgb(lin[0]),
            g: Self::encode_srgb(lin[1]),
            b: Self::encode_srgb(lin[2]),
            a: alpha_level(lin[3].raw as i64),
        }
    }

    /// The color with `amt` added to red, green and blue in linear light.
    pub fn lighten_linear(self, amt: Fixed) -> (c: Color)
        ensures
            c == from_linear_spec(shifted_linear(self, amt.raw as int)),
            c.a == self.a,
    {
        proof {
            lemma_alpha_round_trip(self.a);
        }
        let lin = self.into_linear();
        let a: i64 = amt.raw as i64;
        Self::from_linear(
            [
                clamp_unit(lin[0].raw as i64 + a),
                clamp_unit(lin[1].raw as i64 + a),
                clamp_unit(lin[2].raw as i64 + a),
                lin[3],
            ],
        )
    }

    /// The color with `amt` taken from red, green and blue in linear light.
    pub fn darken_linear(self, amt: Fixed) -> (c: Color)
        ensures
            c == from_linear_spec(shifted_linear(self, -(amt.raw as int))),
            c.a == self.a,
    {
        proof {
            lemma_alpha_round_trip(self.a);
        }
        let lin = self.into_linear();
        let a: i64 = amt.raw as i64;
        Self::from_linear(
            [
                clamp_unit(lin[0].raw as i64 - a),
                clamp_unit(lin[1].raw as i64 - a),
                clamp_unit(lin[2].raw as i64 - a),
                lin[3],
            ],
        )
    }

    /// The WCAG relative luminance of the color, from zero for black to one
    /// for white. Alpha is not looked at.
    pub fn relative_luminance(self) -> (l: Fixed)
        ensures
            l.raw == relative_luminance_spec(self),
            l.is_unit(),
    {
        let lin = self.into_linear();
        let num: i128 = 2126 * (lin[0].raw as i128) + 7152 * (lin[1].raw as i128) + 722 * (
        lin[2].raw as i128);
        quotient(num, 10000)
    }

    /// The WCAG contrast ratio of two colors, from 1 to 21.
    pub fn contrast_ratio(self, other: Color) -> (ratio: Fixed)
        ensures
            ratio.raw == contrast_ratio_spec(self, other),
            ONE <= ratio.raw <= 21 * ONE,
    {
        let a = self.relative_luminance().raw;
        let b = other.relative_luminance().raw;
        let (l1, l2) = if a >= b {
            (a, b)
        } else {
            (b, a)
        };
        let num: i128 = (ONE as i128) * (20 * (l1 as i128) + (ONE as i128));
        let den: i128 = 20 * (l2 as i128) + (ONE as i128);
        proof {
            lemma_div_floor_monotone(ONE * den, num as int, den as int);
            lemma_div_floor_monotone(num as int, 21 * ONE * ONE, den as int);
            lemma_div_floor_monotone(21 * ONE * ONE, 21 * ONE * den, den as int);
            lemma_div_floor_unique(ONE * den, den as int, ONE as int);
            lemma_div_floor_unique(21 * ONE * den, den as int, 21 * ONE);
        }
        quotient(num, den)
    }
}

} // verus!
