//! The round trip through HSL: a color that is taken apart into hue,
//! saturation and lightness, and rebuilt from them, is the same color.
//!
//! Hue, saturation and lightness are each rounded down to the lattice. The
//! proof bounds what the three roundings displace in a rebuilt channel, in
//! units of the channel's denominator, and finds it below one half.

use crate::arith::abs;
use crate::arith::lemma_div_floor_bounds;
use crate::arith::lemma_div_floor_monotone;
use crate::arith::lemma_div_floor_unique;
use crate::color::blend::max3;
use crate::color::blend::min3;
use crate::color::hsl::bottom_numerator;
use crate::color::hsl::chroma_weight;
use crate::color::hsl::fraction_level;
use crate::color::hsl::from_hsl_spec;
use crate::color::hsl::from_hsla_spec;
use crate::color::hsl::hsl_denominator;
use crate::color::hsl::hue_spec;
use crate::color::hsl::lemma_hsl_ranges;
use crate::color::hsl::levels;
use crate::color::hsl::lighten_hsl_spec;
use crate::color::hsl::lightness_spec;
use crate::color::hsl::middle_numerator;
use crate::color::hsl::ramp;
use crate::color::hsl::saturation_spec;
use crate::color::hsl::top_numerator;
use crate::color::linear::alpha_to_linear;
use crate::color::linear::lemma_alpha_round_trip;
use crate::color::hsl::PERCENT;
use crate::color::hsl::SECTOR;
use crate::color::model::Color;
use vstd::prelude::*;

verus! {

/// A channel value within half a level of `k` has the level `k`.
pub proof fn lemma_level_exact(num: int, den: int, k: int)
    requires
        den > 0,
        0 <= k <= 255,
        -den <= 2 * (255 * num - k * den) < den,
    ensures
        fraction_level(num, den) == k,
{
    assert((k + 1) * (2 * den) == k * (2 * den) + 2 * den) by (nonlinear_arith);
    assert(k * (2 * den) == 2 * (k * den)) by (nonlinear_arith);
    lemma_div_floor_unique(2 * (255 * num) + den, 2 * den, k);
}

/// What is below a bound after scaling by a positive factor is below it
/// before.
proof fn lemma_cancel(e: int, f: int, bound: int)
    requires
        f > 0,
        -(bound * f) < e * f < bound * f,
    ensures
        -bound < e < bound,
{
    assert(-bound < e < bound) by (nonlinear_arith)
        requires
            f > 0,
            -(bound * f) < e * f < bound * f,
    ;
}

/// The quantities that the proof speaks of, for a color that is no gray.
pub struct Parts {
    /// The greatest and the least channel, their sum and their difference.
    pub hi: int,
    pub lo: int,
    pub sum: int,
    pub delta: int,
    /// `255 (1 - |2 l - 1|)` for the exact lightness.
    pub spread: int,
    /// The lightness and the saturation, rounded down.
    pub l: int,
    pub s: int,
    /// What the rounding took from the lightness, times 510, and from the
    /// saturation, times `spread`.
    pub lr: int,
    pub sr: int,
    /// What the rounding of the lightness adds to `255 (P - |2 l - P|)`.
    pub t: int,
    /// `255 spread` times the chroma weight, less its exact value.
    pub y: int,
}

/// The parts of a color.
pub open spec fn parts(c: Color) -> Parts {
    let hi = max3(levels(c));
    let lo = min3(levels(c));
    let sum = hi + lo;
    let delta = hi - lo;
    let spread = 255 - abs(sum - 255);
    let l = lightness_spec(c);
    let s = saturation_spec(c);
    let lr = PERCENT * sum - 510 * l;
    let sr = PERCENT * delta - spread * s;
    let t = if sum >= 255 {
        lr
    } else {
        -lr
    };
    Parts {
        hi,
        lo,
        sum,
        delta,
        spread,
        l,
        s,
        lr,
        sr,
        t,
        y: t * (PERCENT * delta - sr) - PERCENT * (spread * sr),
    }
}

/// What holds of the parts of a color that is no gray.
pub open spec fn parts_hold(c: Color, q: Parts) -> bool {
    &&& q == parts(c)
    &&& 0 < q.delta <= q.spread <= 255
    &&& 0 <= q.lo < q.hi <= 255
    &&& 0 <= q.lr <= 509
    &&& 0 <= q.sr < q.spread
    &&& 0 <= q.s
    &&& 255 * (PERCENT - abs(2 * q.l - PERCENT)) == PERCENT * q.spread + q.t
    &&& 255 * (2 * q.l) == PERCENT * q.sum - q.lr
    &&& 255 * q.spread * chroma_weight(q.s, q.l, PERCENT as int) == q.y + PERCENT * PERCENT * (
    q.spread * q.delta)
    &&& -(764 * PERCENT * q.spread) <= q.y <= 764 * PERCENT * q.spread
}

/// `255 f cw` in terms of the roundings, where `cw = a s` is the chroma
/// weight, `255 a = p f + t` and `f s = p delta - sr`.
proof fn lemma_chroma_parts(p: int, f: int, delta: int, a: int, s: int, t: int, sr: int)
    requires
        255 * a == p * f + t,
        f * s == p * delta - sr,
    ensures
        255 * f * (a * s) == t * (p * delta - sr) - p * (f * sr) + p * p * (f * delta),
{
    let u: int = f * s;
    assert(255 * f * (a * s) == (255 * a) * u) by (nonlinear_arith)
        requires
            u == f * s,
    ;
    assert((p * f + t) * u == p * (f * u) + t * u) by (nonlinear_arith);
    assert(f * u == p * (f * delta) - f * sr) by (nonlinear_arith)
        requires
            u == p * delta - sr,
    ;
    assert(p * (p * (f * delta) - f * sr) == p * p * (f * delta) - p * (f * sr))
        by (nonlinear_arith);
}

/// The bound on `y`, the part of `255 f cw` that the roundings add.
proof fn lemma_chroma_bound(p: int, f: int, delta: int, s: int, t: int, sr: int)
    requires
        p > 0,
        0 < delta <= f <= 255,
        0 <= s,
        0 <= sr < f,
        -509 <= t <= 509,
        f * s == p * delta - sr,
    ensures
        -(764 * p * f) <= t * (p * delta - sr) - p * (f * sr) <= 764 * p * f,
{
    let u: int = p * delta - sr;
    let pf: int = p * f;
    assert(0 <= f * sr <= 255 * f) by (nonlinear_arith)
        requires
            0 <= sr <= 255,
            0 <= f,
    ;
    assert(0 <= p * (f * sr) <= 255 * pf) by (nonlinear_arith)
        requires
            0 <= f * sr <= 255 * f,
            p > 0,
            pf == p * f,
    ;
    assert(0 <= u) by (nonlinear_arith)
        requires
            u == f * s,
            0 <= f,
            0 <= s,
    ;
    assert(u <= pf) by (nonlinear_arith)
        requires
            u == p * delta - sr,
            0 <= sr,
            delta <= f,
            p > 0,
            pf == p * f,
    ;
    assert(-(509 * u) <= t * u <= 509 * u) by (nonlinear_arith)
        requires
            -509 <= t <= 509,
            0 <= u,
    ;
    assert(764 * p * f == 764 * pf) by (nonlinear_arith)
        requires
            pf == p * f,
    ;
}

/// The parts of a color that is no gray are as `parts_hold` says.
pub proof fn lemma_parts(c: Color)
    requires
        max3(levels(c)) > min3(levels(c)),
    ensures
        parts_hold(c, parts(c)),
{
    let q = parts(c);
    let p: int = PERCENT as int;
    lemma_hsl_ranges(c);
    lemma_div_floor_bounds(p * q.delta, q.spread);
    assert(q.s * q.spread == q.spread * q.s) by (nonlinear_arith);
    assert((q.s + 1) * q.spread == q.spread * q.s + q.spread) by (nonlinear_arith);
    let a: int = p - abs(2 * q.l - p);
    assert(0 <= q.lr <= 509);
    assert(255 * (2 * q.l) == p * q.sum - q.lr);
    assert(255 * a == p * q.spread + q.t);
    assert(0 <= q.sr < q.spread);
    lemma_chroma_parts(p, q.spread, q.delta, a, q.s, q.t, q.sr);
    lemma_chroma_bound(p, q.spread, q.delta, q.s, q.t, q.sr);
    assert(chroma_weight(q.s, q.l, p) == a * q.s);
}

/// The displacement of the greatest channel, scaled by `f`.
proof fn lemma_top_rest(
    p: int,
    k: int,
    f: int,
    hi: int,
    lo: int,
    cw: int,
    l: int,
    lr: int,
    y: int,
)
    requires
        255 * (2 * l) == p * (hi + lo) - lr,
        255 * f * cw == y + p * p * (f * (hi - lo)),
    ensures
        (255 * (k * (cw + 2 * l * p)) - hi * (2 * k * (p * p))) * f == k * (y - p * (f * lr)),
        (255 * (k * (2 * l * p - cw)) - lo * (2 * k * (p * p))) * f == k * (-y - p * (f * lr)),
{
    let x: int = 255 * f * cw;
    let m: int = 255 * (2 * l);
    let ppf: int = p * p * f;
    assert((255 * (k * (cw + 2 * l * p))) * f == k * (x + m * (p * f))) by (nonlinear_arith)
        requires
            x == 255 * f * cw,
            m == 255 * (2 * l),
    ;
    assert((255 * (k * (2 * l * p - cw))) * f == k * (m * (p * f) - x)) by (nonlinear_arith)
        requires
            x == 255 * f * cw,
            m == 255 * (2 * l),
    ;
    assert(m * (p * f) == ppf * (hi + lo) - p * (f * lr)) by (nonlinear_arith)
        requires
            m == p * (hi + lo) - lr,
            ppf == p * p * f,
    ;
    assert(p * p * (f * (hi - lo)) == ppf * (hi - lo)) by (nonlinear_arith)
        requires
            ppf == p * p * f,
    ;
    assert((hi * (2 * k * (p * p))) * f == k * (ppf * (2 * hi))) by (nonlinear_arith)
        requires
            ppf == p * p * f,
    ;
    assert((lo * (2 * k * (p * p))) * f == k * (ppf * (2 * lo))) by (nonlinear_arith)
        requires
            ppf == p * p * f,
    ;
    assert(ppf * (hi - lo) + ppf * (hi + lo) == ppf * (2 * hi)) by (nonlinear_arith);
    assert(ppf * (hi + lo) - ppf * (hi - lo) == ppf * (2 * lo)) by (nonlinear_arith);
    let top_f: int = (255 * (k * (cw + 2 * l * p))) * f;
    let hi_f: int = (hi * (2 * k * (p * p))) * f;
    assert((255 * (k * (cw + 2 * l * p)) - hi * (2 * k * (p * p))) * f == top_f - hi_f)
        by (nonlinear_arith)
        requires
            top_f == (255 * (k * (cw + 2 * l * p))) * f,
            hi_f == (hi * (2 * k * (p * p))) * f,
    ;
    let r1: int = x + m * (p * f);
    let r2: int = ppf * (2 * hi);
    assert(k * r1 - k * r2 == k * (r1 - r2)) by (nonlinear_arith);
    let bottom_f: int = (255 * (k * (2 * l * p - cw))) * f;
    let lo_f: int = (lo * (2 * k * (p * p))) * f;
    assert((255 * (k * (2 * l * p - cw)) - lo * (2 * k * (p * p))) * f == bottom_f - lo_f)
        by (nonlinear_arith)
        requires
            bottom_f == (255 * (k * (2 * l * p - cw))) * f,
            lo_f == (lo * (2 * k * (p * p))) * f,
    ;
    let r3: int = m * (p * f) - x;
    let r4: int = ppf * (2 * lo);
    assert(k * r3 - k * r4 == k * (r3 - r4)) by (nonlinear_arith);
}

/// The greatest and the least channel come back from hue, saturation and
/// lightness as they were.
pub proof fn lemma_top_bottom_exact(c: Color)
    ensures
        fraction_level(
            top_numerator(saturation_spec(c), lightness_spec(c), PERCENT as int),
            hsl_denominator(PERCENT as int),
        ) == max3(levels(c)),
        fraction_level(
            bottom_numerator(saturation_spec(c), lightness_spec(c), PERCENT as int),
            hsl_denominator(PERCENT as int),
        ) == min3(levels(c)),
{
    let p: int = PERCENT as int;
    let k: int = SECTOR as int;
    let s = saturation_spec(c);
    let l = lightness_spec(c);
    let den = hsl_denominator(p);
    let hi = max3(levels(c));
    let lo = min3(levels(c));
    assert(den == 2 * k * (p * p));
    assert(den > 0) by (nonlinear_arith)
        requires
            den == 2 * k * (p * p),
            k > 0,
            p > 0,
    ;
    if hi == lo {
        let lr: int = p * (2 * hi) - 510 * l;
        assert(0 <= lr <= 509);
        assert(chroma_weight(s, l, p) == 0) by (nonlinear_arith)
            requires
                s == 0,
                chroma_weight(s, l, p) == (p - abs(2 * l - p)) * s,
        ;
        let num = top_numerator(s, l, p);
        assert(num == k * (2 * l * p));
        assert(bottom_numerator(s, l, p) == num);
        assert(2 * (255 * num - hi * den) == -(2 * k * p * lr)) by (nonlinear_arith)
            requires
                num == k * (2 * l * p),
                den == 2 * k * (p * p),
                lr == p * (2 * hi) - 510 * l,
        ;
        assert(-den < -(2 * k * p * lr) <= 0) by (nonlinear_arith)
            requires
                den == 2 * k * (p * p),
                0 <= lr <= 509,
                p > 509,
                k > 0,
        ;
        lemma_level_exact(num, den, hi);
    } else {
        lemma_parts(c);
        let q = parts(c);
        let cw = chroma_weight(s, l, p);
        let f: int = q.spread;
        let top = top_numerator(s, l, p);
        let bottom = bottom_numerator(s, l, p);
        assert(top == k * (cw + 2 * l * p));
        assert(bottom == k * (2 * l * p - cw));
        lemma_top_rest(p, k, f, hi, lo, cw, l, q.lr, q.y);
        lemma_rest_bound(p, k, f, q.y, q.lr);
        let e_top: int = 255 * top - hi * den;
        let e_bottom: int = 255 * bottom - lo * den;
        lemma_cancel(e_top, f, k * (p * p));
        lemma_cancel(e_bottom, f, k * (p * p));
        assert(den == 2 * (k * (p * p))) by (nonlinear_arith)
            requires
                den == 2 * k * (p * p),
        ;
        lemma_level_exact(top, den, hi);
        lemma_level_exact(bottom, den, lo);
    }
}

/// The bound on what the roundings displace in the greatest and the least
/// channel.
proof fn lemma_rest_bound(p: int, k: int, f: int, y: int, lr: int)
    requires
        p > 1273,
        k > 0,
        f > 0,
        0 <= lr <= 509,
        -(764 * p * f) <= y <= 764 * p * f,
    ensures
        -(k * (p * p) * f) < k * (y - p * (f * lr)) < k * (p * p) * f,
        -(k * (p * p) * f) < k * (-y - p * (f * lr)) < k * (p * p) * f,
        -(1273 * (p * f)) <= y - p * (f * lr) <= 1273 * (p * f),
        -(1273 * (p * f)) <= -y - p * (f * lr) <= 1273 * (p * f),
{
    let pf: int = p * f;
    assert(764 * p * f == 764 * pf) by (nonlinear_arith)
        requires
            pf == p * f,
    ;
    assert(0 <= p * (f * lr) <= 509 * pf) by (nonlinear_arith)
        requires
            pf == p * f,
            0 <= lr <= 509,
            p > 0,
            f > 0,
    ;
    let r1: int = y - p * (f * lr);
    let r2: int = -y - p * (f * lr);
    assert(-(1273 * pf) <= r1 <= 1273 * pf);
    assert(-(1273 * pf) <= r2 <= 1273 * pf);
    assert(1273 * pf < p * pf) by (nonlinear_arith)
        requires
            p > 1273,
            pf == p * f,
            f > 0,
            p > 0,
    ;
    assert(k * (p * p) * f == k * (p * pf)) by (nonlinear_arith)
        requires
            pf == p * f,
    ;
    assert(-(k * (p * pf)) < k * r1 < k * (p * pf)) by (nonlinear_arith)
        requires
            k > 0,
            -(p * pf) < r1 < p * pf,
    ;
    assert(-(k * (p * pf)) < k * r2 < k * (p * pf)) by (nonlinear_arith)
        requires
            k > 0,
            -(p * pf) < r2 < p * pf,
    ;
}

/// The displacement of the second-greatest channel, scaled by `f delta`.
///
/// `rd` is the ramp times `delta`; it differs by `rho` from its exact value
/// `k (m - lo)`.
proof fn lemma_middle_rest(
    p: int,
    k: int,
    f: int,
    delta: int,
    lo: int,
    m: int,
    cw: int,
    ramp: int,
    bottom: int,
    rho: int,
    y: int,
    r_bottom: int,
)
    requires
        255 * f * cw == y + p * p * (f * delta),
        (255 * bottom - lo * (2 * k * (p * p))) * f == k * r_bottom,
        ramp * delta == k * (m - lo) + rho,
    ensures
        (255 * (2 * (cw * ramp) + bottom) - m * (2 * k * (p * p))) * (f * delta) == 2 * (y * (ramp
            * delta)) + 2 * (p * (p * f * delta) * rho) + k * r_bottom * delta,
{
    let x: int = 255 * f * cw;
    let rd: int = ramp * delta;
    let g: int = p * f * delta;
    let den: int = 2 * k * (p * p);
    let e_bottom: int = 255 * bottom - lo * den;
    let fd: int = f * delta;
    assert((255 * (2 * (cw * ramp))) * fd == 2 * (x * rd)) by (nonlinear_arith)
        requires
            x == 255 * f * cw,
            rd == ramp * delta,
            fd == f * delta,
    ;
    assert(p * p * (f * delta) == p * g) by (nonlinear_arith)
        requires
            g == p * f * delta,
    ;
    assert(x * rd == y * rd + (p * g) * rd) by (nonlinear_arith)
        requires
            x == y + p * g,
    ;
    assert((p * g) * rd == k * ((p * g) * (m - lo)) + (p * g) * rho) by (nonlinear_arith)
        requires
            rd == k * (m - lo) + rho,
    ;
    assert((255 * bottom) * fd == (e_bottom * f) * delta + (lo * den) * fd) by (nonlinear_arith)
        requires
            e_bottom == 255 * bottom - lo * den,
            fd == f * delta,
    ;
    assert((lo * den) * fd == 2 * (k * ((p * g) * lo))) by (nonlinear_arith)
        requires
            den == 2 * k * (p * p),
            fd == f * delta,
            g == p * f * delta,
    ;
    assert((m * den) * fd == 2 * (k * ((p * g) * m))) by (nonlinear_arith)
        requires
            den == 2 * k * (p * p),
            fd == f * delta,
            g == p * f * delta,
    ;
    assert((p * g) * (m - lo) == (p * g) * m - (p * g) * lo) by (nonlinear_arith);
    let pgm: int = (p * g) * m;
    let pgl: int = (p * g) * lo;
    assert(k * (pgm - pgl) == k * pgm - k * pgl) by (nonlinear_arith);
    let a1: int = (255 * (2 * (cw * ramp))) * fd;
    let a2: int = (255 * bottom) * fd;
    let a3: int = (m * den) * fd;
    assert((255 * (2 * (cw * ramp) + bottom) - m * den) * fd == a1 + a2 - a3) by (nonlinear_arith)
        requires
            a1 == (255 * (2 * (cw * ramp))) * fd,
            a2 == (255 * bottom) * fd,
            a3 == (m * den) * fd,
    ;
    assert((e_bottom * f) * delta == k * r_bottom * delta);
    assert(p * (p * f * delta) * rho == (p * g) * rho);
}

/// The bound on what the roundings displace in the second-greatest channel.
proof fn lemma_middle_bound(
    p: int,
    k: int,
    f: int,
    delta: int,
    rd: int,
    rho: int,
    y: int,
    r_bottom: int,
)
    requires
        p > 0,
        k > 0,
        2801 * k + 508 * p < k * p,
        0 < delta <= f <= 255,
        0 <= rd <= k * delta,
        -delta < rho < delta,
        -(764 * (p * f)) <= y <= 764 * (p * f),
        -(1273 * (p * f)) <= r_bottom <= 1273 * (p * f),
    ensures
        -(k * (p * p) * (f * delta)) < 2 * (y * rd) + 2 * (p * (p * f * delta) * rho) + k * r_bottom
            * delta < k * (p * p) * (f * delta),
{
    let pf: int = p * f;
    let g: int = p * f * delta;
    assert(g == pf * delta && g > 0) by (nonlinear_arith)
        requires
            g == p * f * delta,
            pf == p * f,
            p > 0,
            f > 0,
            delta > 0,
    ;
    let t1: int = y * rd;
    assert(-(764 * (k * g)) <= t1 <= 764 * (k * g)) by (nonlinear_arith)
        requires
            t1 == y * rd,
            -(764 * pf) <= y <= 764 * pf,
            0 <= rd <= k * delta,
            g == pf * delta,
            pf >= 0,
    ;
    let t2: int = p * g * rho;
    assert(-(254 * (p * g)) <= t2 <= 254 * (p * g)) by (nonlinear_arith)
        requires
            t2 == p * g * rho,
            -254 <= rho <= 254,
            p > 0,
            g > 0,
    ;
    let t3: int = k * r_bottom * delta;
    assert(-(1273 * (k * g)) <= t3 <= 1273 * (k * g)) by (nonlinear_arith)
        requires
            t3 == k * r_bottom * delta,
            -(1273 * pf) <= r_bottom <= 1273 * pf,
            g == pf * delta,
            k > 0,
            delta > 0,
    ;
    assert(2801 * (k * g) + 508 * (p * g) < (k * p) * g) by (nonlinear_arith)
        requires
            2801 * k + 508 * p < k * p,
            g > 0,
    ;
    assert(k * (p * p) * (f * delta) == (k * p) * g) by (nonlinear_arith)
        requires
            g == p * f * delta,
    ;
    assert(p * (p * f * delta) * rho == t2);
}

/// The second-greatest channel comes back from hue, saturation and lightness
/// as it was. `m` is its level; `rho` is what the rounding of the hue adds to
/// the ramp, times `delta`.
pub proof fn lemma_middle_exact(c: Color, m: int, rho: int)
    requires
        max3(levels(c)) > min3(levels(c)),
        min3(levels(c)) <= m <= max3(levels(c)),
        -(max3(levels(c)) - min3(levels(c))) < rho < max3(levels(c)) - min3(levels(c)),
        ramp(hue_spec(c)) * (max3(levels(c)) - min3(levels(c))) == SECTOR * (m - min3(levels(c)))
            + rho,
        0 <= ramp(hue_spec(c)) <= SECTOR,
    ensures
        fraction_level(
            middle_numerator(hue_spec(c), saturation_spec(c), lightness_spec(c), PERCENT as int),
            hsl_denominator(PERCENT as int),
        ) == m,
{
    let p: int = PERCENT as int;
    let k: int = SECTOR as int;
    let s = saturation_spec(c);
    let l = lightness_spec(c);
    let h = hue_spec(c);
    let den = hsl_denominator(p);
    let hi = max3(levels(c));
    let lo = min3(levels(c));
    lemma_parts(c);
    let q = parts(c);
    let f: int = q.spread;
    let delta: int = q.delta;
    let cw = chroma_weight(s, l, p);
    let bottom = bottom_numerator(s, l, p);
    let middle = middle_numerator(h, s, l, p);
    let rmp = ramp(h);
    assert(bottom == k * (2 * l * p - cw));
    assert(middle == 2 * (cw * rmp) + bottom);
    assert(den == 2 * k * (p * p));
    lemma_top_rest(p, k, f, hi, lo, cw, l, q.lr, q.y);
    lemma_rest_bound(p, k, f, q.y, q.lr);
    let r_bottom: int = -q.y - p * (f * q.lr);
    lemma_middle_rest(p, k, f, delta, lo, m, cw, rmp, bottom, rho, q.y, r_bottom);
    let rd: int = rmp * delta;
    assert(0 <= rd <= k * delta) by (nonlinear_arith)
        requires
            rd == rmp * delta,
            0 <= rmp <= k,
            delta > 0,
    ;
    assert(764 * p * f == 764 * (p * f)) by (nonlinear_arith);
    lemma_middle_bound(p, k, f, delta, rd, rho, q.y, r_bottom);
    let e: int = 255 * middle - m * den;
    assert(f * delta > 0) by (nonlinear_arith)
        requires
            f > 0,
            delta > 0,
    ;
    lemma_cancel(e, f * delta, k * (p * p));
    assert(den == 2 * (k * (p * p))) by (nonlinear_arith)
        requires
            den == 2 * k * (p * p),
    ;
    lemma_level_exact(middle, den, m);
}

/// A difference `d` of two channels as a share of `delta`, in sectors, and
/// what its rounding leaves.
pub proof fn lemma_offset(d: int, delta: int)
    requires
        0 < delta <= 255,
        -delta <= d <= delta,
    ensures
        0 <= SECTOR * d - delta * ((SECTOR * d) / delta) < delta,
        -SECTOR <= (SECTOR * d) / delta <= SECTOR,
        d >= 0 ==> (SECTOR * d) / delta >= 0,
        d < 0 ==> (SECTOR * d) / delta <= -1,
        d < delta ==> (SECTOR * d) / delta <= SECTOR - 1,
        d > -delta ==> (SECTOR * d) / delta >= -SECTOR + 1,
{
    let k: int = SECTOR as int;
    let o: int = (k * d) / delta;
    lemma_div_floor_bounds(k * d, delta);
    assert(o * delta == delta * o) by (nonlinear_arith);
    assert((o + 1) * delta == delta * o + delta) by (nonlinear_arith);
    assert(k * (-delta) <= k * d <= k * delta) by (nonlinear_arith)
        requires
            -delta <= d <= delta,
            k > 0,
    ;
    lemma_div_floor_monotone(k * (-delta), k * d, delta);
    lemma_div_floor_monotone(k * d, k * delta, delta);
    lemma_div_floor_unique(k * delta, delta, k);
    lemma_div_floor_unique(k * (-delta), delta, -k);
    if d >= 0 {
        lemma_div_floor_monotone(0, k * d, delta);
    }
    if d < 0 {
        lemma_div_floor_monotone(k * d, -1, delta);
        lemma_div_floor_unique(-1, delta, -1);
    }
    if d < delta {
        assert(k * d <= (k - 1) * delta) by (nonlinear_arith)
            requires
                d <= delta - 1,
                k >= delta,
                delta > 0,
        ;
        lemma_div_floor_monotone(k * d, (k - 1) * delta, delta);
        assert(k * delta == (k - 1) * delta + delta) by (nonlinear_arith);
        lemma_div_floor_unique((k - 1) * delta, delta, k - 1);
    }
    if d > -delta {
        assert(k * d >= (-k + 1) * delta) by (nonlinear_arith)
            requires
                d >= -delta + 1,
                k >= delta,
                delta > 0,
        ;
        lemma_div_floor_monotone((-k + 1) * delta, k * d, delta);
        assert((-k + 2) * delta == (-k + 1) * delta + delta) by (nonlinear_arith);
        lemma_div_floor_unique((-k + 1) * delta, delta, -k + 1);
    }
}

/// A color that is taken apart into hue, saturation and lightness, and
/// rebuilt from them, is the same color, but for its alpha, which HSL does
/// not carry.
pub proof fn lemma_hsl_round_trip(c: Color)
    ensures
        from_hsl_spec(hue_spec(c), saturation_spec(c), lightness_spec(c)) == (Color {
            r: c.r,
            g: c.g,
            b: c.b,
            a: 255,
        }),
{
    let p: int = PERCENT as int;
    let k: int = SECTOR as int;
    let h = hue_spec(c);
    let s = saturation_spec(c);
    let l = lightness_spec(c);
    let hi = max3(levels(c));
    let lo = min3(levels(c));
    let delta = hi - lo;
    let den = hsl_denominator(p);
    lemma_hsl_ranges(c);
    lemma_top_bottom_exact(c);
    assert(6 * SECTOR == 23592960);
    assert(h % 23592960 == h);
    let top = fraction_level(top_numerator(s, l, p), den);
    let middle = fraction_level(middle_numerator(h, s, l, p), den);
    let bottom = fraction_level(bottom_numerator(s, l, p), den);
    if hi == lo {
        assert(chroma_weight(s, l, p) == 0) by (nonlinear_arith)
            requires
                s == 0,
                chroma_weight(s, l, p) == (p - abs(2 * l - p)) * s,
        ;
        assert(chroma_weight(s, l, p) * ramp(h) == 0) by (nonlinear_arith)
            requires
                chroma_weight(s, l, p) == 0,
        ;
        assert(middle_numerator(h, s, l, p) == bottom_numerator(s, l, p));
    } else if c.r == hi {
        let d: int = c.g - c.b;
        let o: int = (k * d) / delta;
        let hr: int = k * d - delta * o;
        lemma_offset(d, delta);
        if d >= 0 {
            assert(o % 23592960 == o);
            assert(h == o);
            if o < k {
                assert(ramp(h) == o);
                assert(o * delta == delta * o) by (nonlinear_arith);
                lemma_middle_exact(c, c.g as int, -hr);
            } else {
                assert(d == delta);
                assert(ramp(h) == k);
                lemma_middle_exact(c, c.r as int, 0);
            }
        } else {
            assert(o % 23592960 == o + 23592960);
            assert(h == o + 6 * k);
            assert(ramp(h) == -o);
            assert((-o) * delta == -(delta * o)) by (nonlinear_arith);
            lemma_middle_exact(c, c.b as int, hr);
        }
    } else if c.g == hi {
        let d: int = c.b - c.r;
        let o: int = (k * d) / delta;
        let hr: int = k * d - delta * o;
        lemma_offset(d, delta);
        assert(h == 2 * k + o);
        if d >= 0 {
            if o < k {
                assert(ramp(h) == o);
                assert(o * delta == delta * o) by (nonlinear_arith);
                lemma_middle_exact(c, c.b as int, -hr);
            } else {
                assert(d == delta);
                assert(ramp(h) == k);
                lemma_middle_exact(c, c.g as int, 0);
            }
        } else {
            assert(ramp(h) == -o);
            assert((-o) * delta == -(delta * o)) by (nonlinear_arith);
            lemma_middle_exact(c, c.r as int, hr);
        }
    } else {
        let d: int = c.r - c.g;
        let o: int = (k * d) / delta;
        let hr: int = k * d - delta * o;
        lemma_offset(d, delta);
        assert(h == 4 * k + o);
        if d >= 0 {
            assert(ramp(h) == o);
            assert(o * delta == delta * o) by (nonlinear_arith);
            lemma_middle_exact(c, c.r as int, -hr);
        } else {
            assert(ramp(h) == -o);
            assert((-o) * delta == -(delta * o)) by (nonlinear_arith);
            lemma_middle_exact(c, c.g as int, hr);
        }
    }
}

/// A color that is taken apart into hue, saturation, lightness and alpha,
/// and rebuilt from them, is the same color.
pub proof fn lemma_hsla_round_trip(c: Color)
    ensures
        from_hsla_spec(
            hue_spec(c),
            saturation_spec(c),
            lightness_spec(c),
            alpha_to_linear(c.a),
        ) == c,
{
    lemma_hsl_ranges(c);
    lemma_hsl_round_trip(c);
    lemma_alpha_round_trip(c.a);
}

/// Lightening by nothing changes nothing but the alpha, which becomes
/// opaque.
pub proof fn lemma_lighten_by_nothing(c: Color)
    ensures
        lighten_hsl_spec(c, 0) == (Color { r: c.r, g: c.g, b: c.b, a: 255 }),
{
    lemma_hsl_ranges(c);
    lemma_hsl_round_trip(c);
}

} // verus!
