//! The sixteen blend modes on linear-light triples.
//!
//! A channel value `v` stands for `v / 65536`. Each formula is the W3C one,
//! computed exactly and rounded down once.

use crate::arith::abs;
use crate::arith::isqrt;
use crate::arith::lemma_div_floor_monotone;
use crate::arith::lemma_div_floor_unique;
use crate::arith::lemma_mul_bound;
use crate::arith::lemma_scaled_between;
use crate::arith::lemma_sqrt_floor;
use crate::arith::sqrt_floor;
use crate::color::model::BlendMode;
use crate::color::model::Color;
use crate::fixed::quotient;
use crate::fixed::raw3;
use crate::fixed::within;
use crate::fixed::Fixed;
use crate::fixed::ONE;
use vstd::prelude::*;

verus! {

// ---------------------------------------------------------------------------
// Separable modes
// ---------------------------------------------------------------------------

/// Multiply: `b * s`.
pub open spec fn multiply(b: int, s: int) -> int {
    (b * s) / (ONE as int)
}

/// Screen: `b + s - b * s`.
pub open spec fn screen(b: int, s: int) -> int {
    (b * ONE + s * ONE - b * s) / (ONE as int)
}

/// Hard light: `2 b s` where `s <= 1/2`, else `1 - 2 (1 - b) (1 - s)`.
pub open spec fn hard_light(b: int, s: int) -> int {
    if 2 * s <= ONE {
        (2 * b * s) / (ONE as int)
    } else {
        (ONE * ONE - 2 * (ONE - b) * (ONE - s)) / (ONE as int)
    }
}

/// Overlay: hard light with backdrop and source swapped.
pub open spec fn overlay(b: int, s: int) -> int {
    hard_light(s, b)
}

/// Darken: the smaller of the two.
pub open spec fn darken(b: int, s: int) -> int {
    if b <= s {
        b
    } else {
        s
    }
}

/// Lighten: the greater of the two.
pub open spec fn lighten(b: int, s: int) -> int {
    if b >= s {
        b
    } else {
        s
    }
}

/// Color dodge: 0 where `b == 0`; 1 where `s == 1`; else `min(1, b / (1 - s))`.
pub open spec fn color_dodge(b: int, s: int) -> int {
    if b == 0 {
        0
    } else if s == ONE {
        ONE as int
    } else if b >= ONE - s {
        ONE as int
    } else {
        (b * ONE) / (ONE - s)
    }
}

/// Color burn: 1 where `b == 1`; 0 where `s == 0`; else
/// `1 - min(1, (1 - b) / s)`.
pub open spec fn color_burn(b: int, s: int) -> int {
    if b == ONE {
        ONE as int
    } else if s == 0 {
        0
    } else if ONE - b >= s {
        0
    } else {
        (ONE * (s - (ONE - b))) / s
    }
}

/// The polynomial `((16 b - 12) b + 4) b` of soft light, times `65536^3`.
pub open spec fn soft_light_curve(b: int) -> int {
    16 * (b * b * b) - 12 * (b * b) * ONE + 4 * b * (ONE * ONE)
}

/// Soft light: where `s <= 1/2`, `b - (1 - 2 s) b (1 - b)`; else
/// `b + (2 s - 1) (d - b)`, with `d = ((16 b - 12) b + 4) b` where
/// `b <= 1/4`, and `d` the square root of `b`, rounded down, elsewhere.
pub open spec fn soft_light(b: int, s: int) -> int {
    if 2 * s <= ONE {
        (b * (ONE * ONE) - (ONE - 2 * s) * (b * (ONE - b))) / (ONE * ONE)
    } else if 4 * b <= ONE {
        (b * (ONE * ONE * ONE) + (2 * s - ONE) * (soft_light_curve(b) - b * (ONE * ONE))) / (ONE
            * ONE * ONE)
    } else {
        (b * ONE + (2 * s - ONE) * (sqrt_floor(b * ONE) - b)) / (ONE as int)
    }
}

/// Difference: `|b - s|`.
pub open spec fn difference(b: int, s: int) -> int {
    abs(b - s)
}

/// Exclusion: `b + s - 2 b s`.
pub open spec fn exclusion(b: int, s: int) -> int {
    (b * ONE + s * ONE - 2 * (b * s)) / (ONE as int)
}

/// The blend of one channel in a separable mode.
pub open spec fn separable(mode: BlendMode, b: int, s: int) -> int {
    match mode {
        BlendMode::Multiply => multiply(b, s),
        BlendMode::Screen => screen(b, s),
        BlendMode::Overlay => overlay(b, s),
        BlendMode::Darken => darken(b, s),
        BlendMode::Lighten => lighten(b, s),
        BlendMode::ColorDodge => color_dodge(b, s),
        BlendMode::ColorBurn => color_burn(b, s),
        BlendMode::HardLight => hard_light(b, s),
        BlendMode::SoftLight => soft_light(b, s),
        BlendMode::Difference => difference(b, s),
        BlendMode::Exclusion => exclusion(b, s),
        _ => s,
    }
}

/// The widest that a blended channel gets: four, as a raw value.
pub const BLEND_BOUND: i32 = 262144;

fn multiply_channel(b: Fixed, s: Fixed) -> (out: Fixed)
    requires
        b.is_unit(),
        s.is_unit(),
    ensures
        out.raw == multiply(b.raw as int, s.raw as int),
        out.is_unit(),
{
    proof {
        lemma_scaled_between(b.raw as int, s.raw as int, ONE as int);
    }
    let num: i128 = (b.raw as i128) * (s.raw as i128);
    quotient(num, ONE as i128)
}

fn screen_channel(b: Fixed, s: Fixed) -> (out: Fixed)
    requires
        b.is_unit(),
        s.is_unit(),
    ensures
        out.raw == screen(b.raw as int, s.raw as int),
        out.is_unit(),
{
    let bi: i128 = b.raw as i128;
    let si: i128 = s.raw as i128;
    let one: i128 = ONE as i128;
    assert(0 <= bi * si <= ONE * ONE) by (nonlinear_arith)
        requires
            0 <= bi <= ONE,
            0 <= si <= ONE,
    ;
    let num: i128 = bi * one + si * one - bi * si;
    proof {
        let y: int = (ONE - bi) * si;
        lemma_scaled_between(ONE - bi, si as int, ONE as int);
        assert(num == bi * ONE + y) by (nonlinear_arith)
            requires
                num == bi * ONE + si * ONE - bi * si,
                y == (ONE - bi) * si,
        ;
        assert((num as int) / (ONE as int) == bi + y / (ONE as int));
    }
    quotient(num, one)
}

fn hard_light_channel(b: Fixed, s: Fixed) -> (out: Fixed)
    requires
        b.is_unit(),
        s.is_unit(),
    ensures
        out.raw == hard_light(b.raw as int, s.raw as int),
        out.is_unit(),
{
    let bi: i128 = b.raw as i128;
    let si: i128 = s.raw as i128;
    let one: i128 = ONE as i128;
    if 2 * si <= one {
        proof {
            lemma_scaled_between(bi as int, 2 * si, ONE as int);
            assert(2 * bi * si == bi * (2 * si)) by (nonlinear_arith);
            lemma_mul_bound(bi as int, 2 * si, ONE as int, ONE as int);
        }
        let num: i128 = 2 * bi * si;
        quotient(num, one)
    } else {
        proof {
            lemma_mul_bound(ONE - bi, 2 * (ONE - si), ONE as int, ONE as int);
        }
        let y: i128 = (one - bi) * (2 * (one - si));
        proof {
            assert(0 <= y <= (ONE - bi) * ONE) by (nonlinear_arith)
                requires
                    y == (ONE - bi) * (2 * (ONE - si)),
                    0 <= ONE - bi,
                    0 <= 2 * (ONE - si) <= ONE,
            ;
            assert(2 * (ONE - bi) * (ONE - si) == y) by (nonlinear_arith)
                requires
                    y == (ONE - bi) * (2 * (ONE - si)),
            ;
        }
        let num: i128 = one * one - y;
        proof {
            lemma_div_floor_monotone(bi * ONE, num as int, ONE as int);
            lemma_div_floor_monotone(num as int, ONE * ONE, ONE as int);
        }
        quotient(num, one)
    }
}

fn overlay_channel(b: Fixed, s: Fixed) -> (out: Fixed)
    requires
        b.is_unit(),
        s.is_unit(),
    ensures
        out.raw == overlay(b.raw as int, s.raw as int),
        out.is_unit(),
{
    hard_light_channel(s, b)
}

fn darken_channel(b: Fixed, s: Fixed) -> (out: Fixed)
    ensures
        out.raw == darken(b.raw as int, s.raw as int),
        b.is_unit() && s.is_unit() ==> out.is_unit(),
{
    if b.raw <= s.raw {
        b
    } else {
        s
    }
}

fn lighten_channel(b: Fixed, s: Fixed) -> (out: Fixed)
    ensures
        out.raw == lighten(b.raw as int, s.raw as int),
        b.is_unit() && s.is_unit() ==> out.is_unit(),
{
    if b.raw >= s.raw {
        b
    } else {
        s
    }
}

fn color_dodge_channel(b: Fixed, s: Fixed) -> (out: Fixed)
    requires
        b.is_unit(),
        s.is_unit(),
    ensures
        out.raw == color_dodge(b.raw as int, s.raw as int),
        out.is_unit(),
{
    if b.raw == 0 {
        Fixed { raw: 0 }
    } else if s.raw == ONE {
        Fixed { raw: ONE }
    } else if b.raw >= ONE - s.raw {
        Fixed { raw: ONE }
    } else {
        let den: i128 = (ONE - s.raw) as i128;
        let num: i128 = (b.raw as i128) * (ONE as i128);
        proof {
            assert(num == ONE * (b.raw as int)) by (nonlinear_arith)
                requires
                    num == (b.raw as int) * ONE,
            ;
            lemma_scaled_between(ONE as int, b.raw as int, den as int);
        }
        quotient(num, den)
    }
}

fn color_burn_channel(b: Fixed, s: Fixed) -> (out: Fixed)
    requires
        b.is_unit(),
        s.is_unit(),
    ensures
        out.raw == color_burn(b.raw as int, s.raw as int),
        out.is_unit(),
{
    if b.raw == ONE {
        Fixed { raw: ONE }
    } else if s.raw == 0 {
        Fixed { raw: 0 }
    } else if ONE - b.raw >= s.raw {
        Fixed { raw: 0 }
    } else {
        let den: i128 = s.raw as i128;
        let m: i128 = (s.raw - (ONE - b.raw)) as i128;
        let num: i128 = (ONE as i128) * m;
        proof {
            lemma_scaled_between(ONE as int, m as int, den as int);
        }
        quotient(num, den)
    }
}

fn soft_light_channel(b: Fixed, s: Fixed) -> (out: Fixed)
    requires
        b.is_unit(),
        s.is_unit(),
    ensures
        out.raw == soft_light(b.raw as int, s.raw as int),
        out.is_unit(),
{
    let bi: i128 = b.raw as i128;
    let si: i128 = s.raw as i128;
    let one: i128 = ONE as i128;
    let one2: i128 = one * one;
    if 2 * si <= one {
        assert(0 <= bi * (ONE - bi) <= bi * ONE) by (nonlinear_arith)
            requires
                0 <= bi <= ONE,
        ;
        let y: i128 = bi * (one - bi);
        assert(0 <= (ONE - 2 * si) * y <= ONE * y) by (nonlinear_arith)
            requires
                0 <= ONE - 2 * si <= ONE,
                0 <= y,
        ;
        let num: i128 = bi * one2 - (one - 2 * si) * y;
        proof {
            lemma_div_floor_monotone(0, num as int, ONE * ONE);
            lemma_div_floor_monotone(num as int, ONE * (ONE * ONE), ONE * ONE);
        }
        quotient(num, one2)
    } else if 4 * bi <= one {
        let one3: i128 = one2 * one;
        assert(0 <= bi * bi <= 16384 * 16384) by (nonlinear_arith)
            requires
                0 <= bi <= 16384,
        ;
        let b2: i128 = bi * bi;
        assert(0 <= b2 * bi <= 16384 * 16384 * 16384) by (nonlinear_arith)
            requires
                0 <= b2 <= 16384 * 16384,
                0 <= bi <= 16384,
        ;
        let b3: i128 = b2 * bi;
        assert(b3 == bi * bi * bi);
        let curve: i128 = 16 * b3 - 12 * b2 * one + 4 * bi * one2;
        let w: i128 = curve - bi * one2;
        proof {
            lemma_soft_light_curve(bi as int);
        }
        assert(0 <= (2 * si - ONE) * w <= ONE * w) by (nonlinear_arith)
            requires
                0 <= 2 * si - ONE <= ONE,
                0 <= w,
        ;
        let num: i128 = bi * one3 + (2 * si - one) * w;
        proof {
            let d: int = ONE * ONE * ONE;
            lemma_div_floor_monotone(0, num as int, d);
            lemma_div_floor_monotone(num as int, ONE * d, d);
            lemma_div_floor_unique(ONE * d, d, ONE as int);
        }
        quotient(num, one3)
    } else {
        let root: i128 = isqrt((bi * one) as u64) as i128;
        proof {
            lemma_sqrt_floor(bi * ONE);
            assert(bi <= root <= ONE) by (nonlinear_arith)
                requires
                    root >= 0,
                    root * root <= bi * ONE < (root + 1) * (root + 1),
                    0 <= bi <= ONE,
            ;
        }
        let w: i128 = root - bi;
        assert(0 <= (2 * si - ONE) * w <= ONE * w) by (nonlinear_arith)
            requires
                0 <= 2 * si - ONE <= ONE,
                0 <= w,
        ;
        let num: i128 = bi * one + (2 * si - one) * w;
        proof {
            lemma_div_floor_monotone(0, num as int, ONE as int);
            lemma_div_floor_monotone(num as int, ONE * ONE, ONE as int);
        }
        quotient(num, one)
    }
}

fn difference_channel(b: Fixed, s: Fixed) -> (out: Fixed)
    requires
        b.is_unit(),
        s.is_unit(),
    ensures
        out.raw == difference(b.raw as int, s.raw as int),
        out.is_unit(),
{
    if b.raw >= s.raw {
        Fixed { raw: b.raw - s.raw }
    } else {
        Fixed { raw: s.raw - b.raw }
    }
}

fn exclusion_channel(b: Fixed, s: Fixed) -> (out: Fixed)
    requires
        b.is_unit(),
        s.is_unit(),
    ensures
        out.raw == exclusion(b.raw as int, s.raw as int),
        out.is_unit(),
{
    let bi: i128 = b.raw as i128;
    let si: i128 = s.raw as i128;
    let one: i128 = ONE as i128;
    assert(0 <= bi * si <= ONE * ONE) by (nonlinear_arith)
        requires
            0 <= bi <= ONE,
            0 <= si <= ONE,
    ;
    let num: i128 = bi * one + si * one - 2 * (bi * si);
    proof {
        assert(0 <= num <= ONE * ONE) by (nonlinear_arith)
            requires
                num == bi * ONE + si * ONE - 2 * (bi * si),
                0 <= bi <= ONE,
                0 <= si <= ONE,
        ;
        lemma_div_floor_monotone(0, num as int, ONE as int);
        lemma_div_floor_monotone(num as int, ONE * ONE, ONE as int);
    }
    quotient(num, one)
}

/// The curve of soft light lies above the diagonal and below one half, up to
/// one quarter: `b <= ((16 b - 12) b + 4) b <= 1/2` for `0 <= b <= 1/4`.
pub proof fn lemma_soft_light_curve(b: int)
    requires
        0 <= b,
        4 * b <= ONE,
    ensures
        b * (ONE * ONE) <= soft_light_curve(b),
        2 * soft_light_curve(b) <= ONE * ONE * ONE,
{
    let q: int = ONE / 4;
    let u: int = q - b;
    assert(soft_light_curve(b) - b * (ONE * ONE) == b * (16 * (b * b) - 48 * (b * q) + 48 * (q * q)))
        by (nonlinear_arith)
        requires
            q * 4 == ONE,
    ;
    assert(16 * (b * b) - 48 * (b * q) + 48 * (q * q) >= 0) by (nonlinear_arith)
        requires
            0 <= b <= q,
    ;
    assert(b * (16 * (b * b) - 48 * (b * q) + 48 * (q * q)) >= 0) by (nonlinear_arith)
        requires
            0 <= b,
            16 * (b * b) - 48 * (b * q) + 48 * (q * q) >= 0,
    ;
    assert(ONE * ONE * ONE - 2 * soft_light_curve(b) == 32 * (u * (u * u + q * q)))
        by (nonlinear_arith)
        requires
            q * 4 == ONE,
            u == q - b,
    ;
    assert(u * (u * u + q * q) >= 0) by (nonlinear_arith)
        requires
            0 <= u,
    ;
}

// ---------------------------------------------------------------------------
// Non-separable modes
// ---------------------------------------------------------------------------

/// The greatest of three.
pub open spec fn max3(c: (int, int, int)) -> int {
    if c.0 >= c.1 && c.0 >= c.2 {
        c.0
    } else if c.1 >= c.2 {
        c.1
    } else {
        c.2
    }
}

/// The least of three.
pub open spec fn min3(c: (int, int, int)) -> int {
    if c.0 <= c.1 && c.0 <= c.2 {
        c.0
    } else if c.1 <= c.2 {
        c.1
    } else {
        c.2
    }
}

/// The luminosity of a color: `0.3 r + 0.59 g + 0.11 b`.
pub open spec fn lum(c: (int, int, int)) -> int {
    (30 * c.0 + 59 * c.1 + 11 * c.2) / 100
}

/// The saturation of a color: its greatest channel less its least.
pub open spec fn sat(c: (int, int, int)) -> int {
    max3(c) - min3(c)
}

/// The color `c` with its saturation set to `s`.
///
/// The least channel becomes zero and the greatest becomes `s`; the middle
/// one keeps its place between them: `(mid - min) s / (max - min)`. A color
/// without saturation becomes black. Where two channels are equal, red
/// counts before green and green before blue, as the greatest and as the
/// least.
pub open spec fn set_sat(c: (int, int, int), s: int) -> (int, int, int) {
    let (r, g, b) = c;
    let hi = max3(c);
    let lo = min3(c);
    let mid = r + g + b - hi - lo;
    if hi == lo {
        (0, 0, 0)
    } else {
        let top = s;
        let bottom = 0;
        let middle = ((mid - lo) * s) / (hi - lo);
        if r >= g && r >= b {
            if g <= b {
                (top, bottom, middle)
            } else {
                (top, middle, bottom)
            }
        } else if g >= r && g >= b {
            if r <= b {
                (bottom, top, middle)
            } else {
                (middle, top, bottom)
            }
        } else if r <= g {
            (bottom, middle, top)
        } else {
            (middle, bottom, top)
        }
    }
}

/// One channel pulled toward the luminosity `l` by the factor `m / d`.
pub open spec fn pulled(v: int, l: int, m: int, d: int) -> int {
    l + ((v - l) * m) / d
}

/// The color `c` brought into range at its luminosity.
///
/// Where a channel is below zero, all are pulled toward the luminosity `l`
/// by `l / (l - min)`; else, where a channel is above one, by
/// `(1 - l) / (max - l)`; else the color stays.
pub open spec fn clip_color(c: (int, int, int)) -> (int, int, int) {
    let l = lum(c);
    let n = min3(c);
    let x = max3(c);
    if n < 0 {
        (pulled(c.0, l, l, l - n), pulled(c.1, l, l, l - n), pulled(c.2, l, l, l - n))
    } else if x > ONE {
        (
            pulled(c.0, l, ONE - l, x - l),
            pulled(c.1, l, ONE - l, x - l),
            pulled(c.2, l, ONE - l, x - l),
        )
    } else {
        c
    }
}

/// The color `c` shifted to the luminosity `l`, and then brought into range.
pub open spec fn set_lum(c: (int, int, int), l: int) -> (int, int, int) {
    let d = l - lum(c);
    clip_color((c.0 + d, c.1 + d, c.2 + d))
}

/// The blend of the linear-light colors `backdrop` and `source`.
pub open spec fn blend_spec(mode: BlendMode, backdrop: (int, int, int), source: (int, int, int)) -> (
    int,
    int,
    int,
) {
    match mode {
        BlendMode::Normal => source,
        BlendMode::Hue => set_lum(set_sat(source, sat(backdrop)), lum(backdrop)),
        BlendMode::Saturation => set_lum(set_sat(backdrop, sat(source)), lum(backdrop)),
        BlendMode::Color => set_lum(source, lum(backdrop)),
        BlendMode::Luminosity => set_lum(backdrop, lum(source)),
        _ => (
            separable(mode, backdrop.0, source.0),
            separable(mode, backdrop.1, source.1),
            separable(mode, backdrop.2, source.2),
        ),
    }
}

/// A color with saturation gets the saturation that is set: its least
/// channel becomes zero and its greatest becomes `s`.
pub proof fn lemma_set_sat_saturation(c: (int, int, int), s: int)
    requires
        max3(c) > min3(c),
        s >= 0,
    ensures
        min3(set_sat(c, s)) == 0,
        max3(set_sat(c, s)) == s,
        sat(set_sat(c, s)) == s,
{
    let mid = c.0 + c.1 + c.2 - max3(c) - min3(c);
    lemma_scaled_between(s, mid - min3(c), max3(c) - min3(c));
    assert((mid - min3(c)) * s == s * (mid - min3(c))) by (nonlinear_arith);
}

/// Where no channel has to be brought into range, setting the luminosity
/// gives a color of that luminosity.
pub proof fn lemma_set_lum_luminosity(c: (int, int, int), l: int)
    requires
        0 <= min3(c) + (l - lum(c)),
        max3(c) + (l - lum(c)) <= ONE,
    ensures
        lum(set_lum(c, l)) == l,
{
    lemma_lum_shift(c, l - lum(c));
}

/// The luminosity lies between the least and the greatest channel.
pub proof fn lemma_lum_between(c: (int, int, int))
    ensures
        min3(c) <= lum(c) <= max3(c),
{
}

/// Shifting every channel by `d` shifts the luminosity by `d`.
pub proof fn lemma_lum_shift(c: (int, int, int), d: int)
    ensures
        lum((c.0 + d, c.1 + d, c.2 + d)) == lum(c) + d,
{
}

/// A channel that is pulled toward the luminosity ends between the two.
pub proof fn lemma_pulled_between(v: int, l: int, m: int, d: int)
    requires
        d > 0,
        0 <= m <= d,
    ensures
        v >= l ==> l <= pulled(v, l, m, d) <= v,
        v <= l ==> v <= pulled(v, l, m, d) <= l,
{
    lemma_scaled_between(v - l, m, d);
}

/// Pulling keeps the order of the channels.
pub proof fn lemma_pulled_monotone(v: int, w: int, l: int, m: int, d: int)
    requires
        d > 0,
        m >= 0,
        v <= w,
    ensures
        pulled(v, l, m, d) <= pulled(w, l, m, d),
{
    assert((v - l) * m <= (w - l) * m) by (nonlinear_arith)
        requires
            v <= w,
            m >= 0,
    ;
    lemma_div_floor_monotone((v - l) * m, (w - l) * m, d);
}

/// A channel at distance `d` from the luminosity is pulled to distance `m`.
pub proof fn lemma_pulled_end(v: int, l: int, m: int, d: int)
    requires
        d > 0,
        v - l == d || v - l == -d,
    ensures
        v - l == d ==> pulled(v, l, m, d) == l + m,
        v - l == -d ==> pulled(v, l, m, d) == l - m,
{
    if v - l == d {
        assert((v - l) * m == m * d && (m + 1) * d == m * d + d) by (nonlinear_arith)
            requires
                v - l == d,
        ;
        lemma_div_floor_unique((v - l) * m, d, m);
    } else {
        assert((v - l) * m == (-m) * d && (-m + 1) * d == (-m) * d + d) by (nonlinear_arith)
            requires
                v - l == -d,
        ;
        lemma_div_floor_unique((v - l) * m, d, -m);
    }
}

/// Clipping keeps every channel within the bounds that it had, and brings a
/// color whose channels lie at most one apart into the range from zero to
/// one.
pub proof fn lemma_clip_color_range(c: (int, int, int), lo: int, hi: int)
    requires
        0 <= lum(c) <= ONE,
        lo <= 0,
        ONE <= hi,
        within(c, lo, hi),
    ensures
        within(clip_color(c), lo, hi),
        sat(c) <= ONE ==> within(clip_color(c), 0, ONE as int),
{
    let l = lum(c);
    let n = min3(c);
    let x = max3(c);
    if n < 0 {
        let d = l - n;
        lemma_pulled_between(c.0, l, l, d);
        lemma_pulled_between(c.1, l, l, d);
        lemma_pulled_between(c.2, l, l, d);
        lemma_pulled_end(n, l, l, d);
        lemma_pulled_monotone(n, c.0, l, l, d);
        lemma_pulled_monotone(n, c.1, l, l, d);
        lemma_pulled_monotone(n, c.2, l, l, d);
    } else if x > ONE {
        let d = x - l;
        let m = ONE - l;
        lemma_pulled_between(c.0, l, m, d);
        lemma_pulled_between(c.1, l, m, d);
        lemma_pulled_between(c.2, l, m, d);
        lemma_pulled_end(x, l, m, d);
        lemma_pulled_monotone(c.0, x, l, m, d);
        lemma_pulled_monotone(c.1, x, l, m, d);
        lemma_pulled_monotone(c.2, x, l, m, d);
    }
}

/// Multiplying with white, screening with black, and the difference and the
/// exclusion with black all leave a channel as it is.
pub proof fn lemma_identity_channels(b: int)
    requires
        0 <= b,
    ensures
        multiply(b, ONE as int) == b,
        screen(b, 0) == b,
        difference(b, 0) == b,
        exclusion(b, 0) == b,
{
    assert(b * 0 == 0) by (nonlinear_arith);
}

/// Multiplying with white leaves the backdrop as it is; so do screening
/// with black, and the difference and the exclusion with black.
pub proof fn lemma_identity_blends(backdrop: (int, int, int))
    requires
        within(backdrop, 0, ONE as int),
    ensures
        blend_spec(BlendMode::Multiply, backdrop, (ONE as int, ONE as int, ONE as int))
            == backdrop,
        blend_spec(BlendMode::Screen, backdrop, (0, 0, 0)) == backdrop,
        blend_spec(BlendMode::Difference, backdrop, (0, 0, 0)) == backdrop,
        blend_spec(BlendMode::Exclusion, backdrop, (0, 0, 0)) == backdrop,
{
    lemma_identity_channels(backdrop.0);
    lemma_identity_channels(backdrop.1);
    lemma_identity_channels(backdrop.2);
}

impl Color {
    /// The luminosity of a linear-light color: `0.3 r + 0.59 g + 0.11 b`.
    pub fn lum(c: [Fixed; 3]) -> (l: Fixed)
        requires
            within(raw3(c), -BLEND_BOUND as int, BLEND_BOUND as int),
        ensures
            l.raw == lum(raw3(c)),
            min3(raw3(c)) <= l.raw <= max3(raw3(c)),
    {
        let num: i128 = 30 * (c[0].raw as i128) + 59 * (c[1].raw as i128) + 11 * (c[2].raw as i128);
        quotient(num, 100)
    }

    /// The saturation of a linear-light color: its greatest channel less its
    /// least.
    pub fn sat(c: [Fixed; 3]) -> (s: Fixed)
        requires
            within(raw3(c), -BLEND_BOUND as int, BLEND_BOUND as int),
        ensures
            s.raw == sat(raw3(c)),
            s.raw >= 0,
    {
        let (r, g, b) = (c[0].raw, c[1].raw, c[2].raw);
        let hi = if r >= g && r >= b {
            r
        } else if g >= b {
            g
        } else {
            b
        };
        let lo = if r <= g && r <= b {
            r
        } else if g <= b {
            g
        } else {
            b
        };
        Fixed { raw: hi - lo }
    }

    /// The color `c` with its saturation set to `s`: see [`set_sat`].
    pub fn set_sat(c: [Fixed; 3], s: Fixed) -> (out: [Fixed; 3])
        requires
            within(raw3(c), 0, ONE as int),
            s.is_unit(),
        ensures
            raw3(out) == set_sat(raw3(c), s.raw as int),
            within(raw3(out), 0, s.raw as int),
            sat(raw3(out)) <= s.raw,
    {
        let (r, g, b) = (c[0].raw, c[1].raw, c[2].raw);
        // 0 stands for red, 1 for green, 2 for blue.
        let max: i32;
        let max_ch: u8;
        let min: i32;
        let min_ch: u8;
        let mid: i32;
        let mid_ch: u8;

        if r >= g && r >= b {
            max = r;
            max_ch = 0;
            if g <= b {
                min = g;
                min_ch = 1;
                mid = b;
                mid_ch = 2;
            } else {
                min = b;
                min_ch = 2;
                mid = g;
                mid_ch = 1;
            }
        } else if g >= r && g >= b {
            max = g;
            max_ch = 1;
            if r <= b {
                min = r;
                min_ch = 0;
                mid = b;
                mid_ch = 2;
            } else {
                min = b;
                min_ch = 2;
                mid = r;
                mid_ch = 0;
            }
        } else {
            max = b;
            max_ch = 2;
            if r <= g {
                min = r;
                min_ch = 0;
                mid = g;
                mid_ch = 1;
            } else {
                min = g;
                min_ch = 1;
                mid = r;
                mid_ch = 0;
            }
        }
        assert(max == max3(raw3(c)) && min == min3(raw3(c)) && mid == r + g + b - max - min);

        let chroma: i32 = max - min;
        if chroma == 0 {
            return [Fixed { raw: 0 }, Fixed { raw: 0 }, Fixed { raw: 0 }];
        }
        let si: i128 = s.raw as i128;
        let share: i128 = (mid - min) as i128;
        proof {
            lemma_scaled_between(si as int, share as int, chroma as int);
            assert(share * si == si * share) by (nonlinear_arith);
            assert(0 <= share * si <= ONE * chroma) by (nonlinear_arith)
                requires
                    0 <= share <= chroma,
                    0 <= si <= ONE,
            ;
        }
        let new_max = s;
        let new_min = Fixed { raw: 0 };
        let new_mid = quotient(share * si, chroma as i128);

        let mut out = [new_mid, new_mid, new_mid];
        if max_ch == 0 {
            out[0] = new_max;
        } else if max_ch == 1 {
            out[1] = new_max;
        } else {
            out[2] = new_max;
        }
        if min_ch == 0 {
            out[0] = new_min;
        } else if min_ch == 1 {
            out[1] = new_min;
        } else {
            out[2] = new_min;
        }
        out
    }

    /// The color `c` brought into range at its luminosity: see
    /// [`clip_color`].
    pub fn clip_color(c: [Fixed; 3]) -> (out: [Fixed; 3])
        requires
            within(raw3(c), -BLEND_BOUND as int, BLEND_BOUND as int),
            0 <= lum(raw3(c)) <= ONE,
        ensures
            raw3(out) == clip_color(raw3(c)),
            within(raw3(out), -BLEND_BOUND as int, BLEND_BOUND as int),
            sat(raw3(c)) <= ONE ==> within(raw3(out), 0, ONE as int),
    {
        proof {
            lemma_clip_color_range(raw3(c), -BLEND_BOUND as int, BLEND_BOUND as int);
        }
        let l: i32 = Self::lum(c).raw;
        let (r, g, b) = (c[0].raw, c[1].raw, c[2].raw);
        let n = if r <= g && r <= b {
            r
        } else if g <= b {
            g
        } else {
            b
        };
        let x = if r >= g && r >= b {
            r
        } else if g >= b {
            g
        } else {
            b
        };
        if n < 0 {
            Self::pull(c, l, l, l - n)
        } else if x > ONE {
            Self::pull(c, l, ONE - l, x - l)
        } else {
            c
        }
    }

    /// Each channel of `c` pulled toward `l` by the factor `m / d`.
    fn pull(c: [Fixed; 3], l: i32, m: i32, d: i32) -> (out: [Fixed; 3])
        requires
            within(raw3(c), -BLEND_BOUND as int, BLEND_BOUND as int),
            0 <= l <= ONE,
            d > 0,
            0 <= m <= d,
        ensures
            raw3(out) == (
                pulled(c[0].raw as int, l as int, m as int, d as int),
                pulled(c[1].raw as int, l as int, m as int, d as int),
                pulled(c[2].raw as int, l as int, m as int, d as int),
            ),
    {
        [
            Self::pull_channel(c[0].raw, l, m, d),
            Self::pull_channel(c[1].raw, l, m, d),
            Self::pull_channel(c[2].raw, l, m, d),
        ]
    }

    fn pull_channel(v: i32, l: i32, m: i32, d: i32) -> (out: Fixed)
        requires
            -BLEND_BOUND <= v <= BLEND_BOUND,
            0 <= l <= ONE,
            d > 0,
            0 <= m <= d,
        ensures
            out.raw == pulled(v as int, l as int, m as int, d as int),
    {
        proof {
            lemma_scaled_between(v - l, m as int, d as int);
        }
        let a: i128 = (v - l) as i128;
        assert(-(2 * BLEND_BOUND) * d <= a * m <= 2 * BLEND_BOUND * d) by (nonlinear_arith)
            requires
                -(2 * BLEND_BOUND) <= a <= 2 * BLEND_BOUND,
                0 <= m <= d,
        ;
        let q = quotient(a * (m as i128), d as i128);
        Fixed { raw: l + q.raw }
    }

    /// The color `c` shifted to the luminosity `l`, and then brought into
    /// range.
    pub fn set_lum(c: [Fixed; 3], l: Fixed) -> (out: [Fixed; 3])
        requires
            within(raw3(c), -ONE as int, 2 * ONE),
            l.is_unit(),
        ensures
            raw3(out) == set_lum(raw3(c), l.raw as int),
            within(raw3(out), -BLEND_BOUND as int, BLEND_BOUND as int),
            sat(raw3(c)) <= ONE ==> within(raw3(out), 0, ONE as int),
    {
        let d: i32 = l.raw - Self::lum(c).raw;
        let shifted = [
            Fixed { raw: c[0].raw + d },
            Fixed { raw: c[1].raw + d },
            Fixed { raw: c[2].raw + d },
        ];
        proof {
            lemma_lum_shift(raw3(c), d as int);
            assert(raw3(shifted) == (c[0].raw + d, c[1].raw + d, c[2].raw + d));
            assert(sat(raw3(shifted)) == sat(raw3(c)));
        }
        Self::clip_color(shifted)
    }

    /// Applies `f` to each channel of `backdrop` and `source`.
    pub fn blend<F: Fn(Fixed, Fixed) -> Fixed>(backdrop: &[Fixed; 3], source: &[Fixed; 3], f: F) -> (out:
        [Fixed; 3])
        requires
            forall|i: int| 0 <= i < 3 ==> call_requires(f, (#[trigger] backdrop[i], source[i])),
        ensures
            forall|i: int|
                0 <= i < 3 ==> call_ensures(f, (backdrop[i], source[i]), #[trigger] out[i]),
    {
        let r = f(backdrop[0], source[0]);
        let g = f(backdrop[1], source[1]);
        let b = f(backdrop[2], source[2]);
        [r, g, b]
    }

    /// The blend of the linear-light colors `backdrop` and `source`, channel
    /// values between zero and one.
    pub fn blend_channel(mode: BlendMode, backdrop: [Fixed; 3], source: [Fixed; 3]) -> (out: [Fixed;
        3])
        requires
            within(raw3(backdrop), 0, ONE as int),
            within(raw3(source), 0, ONE as int),
        ensures
            raw3(out) == blend_spec(mode, raw3(backdrop), raw3(source)),
            within(raw3(out), 0, ONE as int),
    {
        match mode {
            BlendMode::Normal => source,
            BlendMode::Multiply => Self::blend(&backdrop, &source, multiply_channel),
            BlendMode::Screen => Self::blend(&backdrop, &source, screen_channel),
            BlendMode::Overlay => Self::blend(&backdrop, &source, overlay_channel),
            BlendMode::Darken => Self::blend(&backdrop, &source, darken_channel),
            BlendMode::Lighten => Self::blend(&backdrop, &source, lighten_channel),
            BlendMode::ColorDodge => Self::blend(&backdrop, &source, color_dodge_channel),
            BlendMode::ColorBurn => Self::blend(&backdrop, &source, color_burn_channel),
            BlendMode::HardLight => Self::blend(&backdrop, &source, hard_light_channel),
            BlendMode::SoftLight => Self::blend(&backdrop, &source, soft_light_channel),
            BlendMode::Difference => Self::blend(&backdrop, &source, difference_channel),
            BlendMode::Exclusion => Self::blend(&backdrop, &source, exclusion_channel),
            BlendMode::Hue => Self::set_lum(
                Self::set_sat(source, Self::sat(backdrop)),
                Self::lum(backdrop),
            ),
            BlendMode::Saturation => Self::set_lum(
                Self::set_sat(backdrop, Self::sat(source)),
                Self::lum(backdrop),
            ),
            BlendMode::Color => Self::set_lum(source, Self::lum(backdrop)),
            BlendMode::Luminosity => Self::set_lum(backdrop, Self::lum(source)),
        }
    }
}

} // verus!
