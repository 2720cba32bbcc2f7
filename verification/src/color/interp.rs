//! Interpolation between two colors: on the encoded levels, and in linear
//! light.

use crate::arith::clamp;
use crate::arith::half_up;
use crate::color::linear::from_linear_spec;
use crate::color::linear::into_linear_spec;
use crate::color::linear::lemma_linear_round_trip;
use crate::color::model::Color;
use crate::fixed::quotient;
use crate::fixed::Fixed;
use crate::fixed::ONE;
use vstd::prelude::*;

verus! {

/// The level a fraction `t` of the way from `a` to `b`, rounded to nearest.
pub open spec fn lerp_level(a: u8, b: u8, t: int) -> u8 {
    half_up(a * ONE + (b - a) * t, ONE as int) as u8
}

/// The color a fraction `t` of the way from `c` to `d`, channel by channel on
/// the encoded levels. `t` is limited to the range from zero to one.
pub open spec fn lerp_spec(c: Color, d: Color, t: int) -> Color {
    let t = clamp(t, 0, ONE as int);
    Color {
        r: lerp_level(c.r, d.r, t),
        g: lerp_level(c.g, d.g, t),
        b: lerp_level(c.b, d.b, t),
        a: lerp_level(c.a, d.a, t),
    }
}

/// The value a fraction `t` of the way from `x` to `y`, rounded down.
pub open spec fn mix(x: int, y: int, t: int) -> int {
    (x * ONE + (y - x) * t) / (ONE as int)
}

/// The color a fraction `t` of the way from `c` to `d` in linear light, alpha
/// included. `t` is limited to the range from zero to one.
pub open spec fn lerp_linear_spec(c: Color, d: Color, t: int) -> Color {
    let t = clamp(t, 0, ONE as int);
    let x = into_linear_spec(c);
    let y = into_linear_spec(d);
    from_linear_spec((mix(x.0, y.0, t), mix(x.1, y.1, t), mix(x.2, y.2, t), mix(x.3, y.3, t)))
}

/// Mixing from `x` to `y` gives `x` at zero and `y` at one.
pub proof fn lemma_mix_ends(x: int, y: int)
    ensures
        mix(x, y, 0) == x,
        mix(x, y, ONE as int) == y,
{
    assert((y - x) * 0 == 0) by (nonlinear_arith);
    assert((y - x) * ONE == y * ONE - x * ONE) by (nonlinear_arith);
}

/// Interpolation on the encoded levels gives the first color at zero and the
/// second at one.
pub proof fn lemma_lerp_ends(c: Color, d: Color)
    ensures
        lerp_spec(c, d, 0) == c,
        lerp_spec(c, d, ONE as int) == d,
{
    lemma_lerp_level_ends(c.r, d.r);
    lemma_lerp_level_ends(c.g, d.g);
    lemma_lerp_level_ends(c.b, d.b);
    lemma_lerp_level_ends(c.a, d.a);
}

proof fn lemma_lerp_level_ends(a: u8, b: u8)
    ensures
        lerp_level(a, b, 0) == a,
        lerp_level(a, b, ONE as int) == b,
{
    assert((b - a) * 0 == 0) by (nonlinear_arith);
    assert((b - a) * ONE == b * ONE - a * ONE) by (nonlinear_arith);
}

/// Interpolation in linear light gives the first color at zero and the
/// second at one.
pub proof fn lemma_lerp_linear_ends(c: Color, d: Color)
    ensures
        lerp_linear_spec(c, d, 0) == c,
        lerp_linear_spec(c, d, ONE as int) == d,
{
    let x = into_linear_spec(c);
    let y = into_linear_spec(d);
    lemma_mix_ends(x.0, y.0);
    lemma_mix_ends(x.1, y.1);
    lemma_mix_ends(x.2, y.2);
    lemma_mix_ends(x.3, y.3);
    lemma_linear_round_trip(c);
    lemma_linear_round_trip(d);
}

/// `t` limited to the range from zero to one.
fn clamp_factor(t: Fixed) -> (out: i64)
    ensures
        out == clamp(t.raw as int, 0, ONE as int),
{
    if t.raw < 0 {
        0
    } else if t.raw > ONE {
        ONE as i64
    } else {
        t.raw as i64
    }
}

fn lerp8(a: u8, b: u8, t: i64) -> (out: u8)
    requires
        0 <= t <= ONE,
    ensures
        out == lerp_level(a, b, t as int),
{
    let d: i64 = b as i64 - a as i64;
    assert(-255 * ONE <= d * t <= 255 * ONE && 0 <= a * ONE + d * t <= 255 * ONE)
        by (nonlinear_arith)
        requires
            d == b - a,
            0 <= a <= 255,
            0 <= b <= 255,
            0 <= t <= ONE,
    ;
    let num: i64 = (a as i64) * (ONE as i64) + d * t;
    let q: i64 = (2 * num + ONE as i64) / (2 * (ONE as i64));
    q as u8
}

fn mix_fixed(x: Fixed, y: Fixed, t: i64) -> (out: Fixed)
    requires
        x.is_unit(),
        y.is_unit(),
        0 <= t <= ONE,
    ensures
        out.raw == mix(x.raw as int, y.raw as int, t as int),
{
    let d: i64 = y.raw as i64 - x.raw as i64;
    assert(-(ONE * ONE) <= d * t <= ONE * ONE && 0 <= x.raw * ONE <= ONE * ONE)
        by (nonlinear_arith)
        requires
            -ONE <= d <= ONE,
            0 <= t <= ONE,
            0 <= x.raw <= ONE,
    ;
    let num: i64 = (x.raw as i64) * (ONE as i64) + d * t;
    quotient(num as i128, ONE as i128)
}

impl Color {
    /// Interpolates from this color to `other` on the encoded levels. `t`
    /// is limited to the range from zero to one.
    pub fn lerp(self, other: Color, t: Fixed) -> (c: Color)
        ensures
            c == lerp_spec(self, other, t.raw as int),
    {
        let t = clamp_factor(t);
        Color {
            r: lerp8(self.r, other.r, t),
            g: lerp8(self.g, other.g, t),
            b: lerp8(self.b, other.b, t),
            a: lerp8(self.a, other.a, t),
        }
    }

    /// Interpolates from this color to `other` in linear light. `t` is
    /// limited to the range from zero to one.
    pub fn lerp_linear(self, other: Color, t: Fixed) -> (c: Color)
        ensures
            c == lerp_linear_spec(self, other, t.raw as int),
    {
        let t = clamp_factor(t);
        let a = self.into_linear();
        let b = other.into_linear();
        Color::from_linear(
            [
                mix_fixed(a[0], b[0], t),
                mix_fixed(a[1], b[1], t),
                mix_fixed(a[2], b[2], t),
                mix_fixed(a[3], b[3], t),
            ],
        )
    }
}

} // verus!
