//! OKLCH, the polar form of OKLab: lightness, chroma and hue.
//!
//! A hue enters and leaves the conversions as its cosine and its sine, so
//! that they stay within exact arithmetic; the angle itself is
//! `atan2(sine, cosine)`. Interpolation works on the angle, in degrees.

use crate::arith::clamp;
use crate::arith::isqrt;
use crate::arith::lemma_div_floor_monotone;
use crate::arith::lemma_div_floor_unique;
use crate::arith::lemma_mul_bound;
use crate::arith::lemma_scaled_between;
use crate::arith::lemma_sqrt_floor;
use crate::arith::sqrt_floor;
use crate::color::interp::lerp_level;
use crate::color::interp::mix;
use crate::color::linear::raw4;
use crate::color::model::Color;
use crate::color::oklab::from_oklab_spec;
use crate::color::oklab::in_gamut;
use crate::color::oklab::into_oklab_spec;
use crate::color::oklab::is_in_gamut;
use crate::color::oklab::oklab_linear;
use crate::color::oklab::oklab_to_linear;
use crate::fixed::quotient;
use crate::fixed::raw3;
use crate::fixed::Fixed;
use crate::fixed::ONE;
use vstd::prelude::*;

verus! {

/// The number of halvings in the search for the chroma that fits.
pub const GAMUT_STEPS: u32 = 24;

/// A full turn in raw degrees.
pub const TURN: i64 = 23592960;

/// The chroma of the opponent axes `a` and `b`: `sqrt(a a + b b)`, rounded
/// down.
pub open spec fn chroma_spec(a: int, b: int) -> int {
    sqrt_floor(a * a + b * b)
}

/// One axis as a share of the chroma: the cosine of the hue for `a`, the
/// sine for `b`.
pub open spec fn axis_share(v: int, chroma: int) -> int {
    (v * ONE) / chroma
}

/// Lightness, chroma, and the cosine and the sine of the hue, of OKLab
/// coordinates. Where the chroma is zero the hue is zero degrees.
pub open spec fn oklab_to_polar(lab: (int, int, int)) -> (int, int, int, int) {
    let c = chroma_spec(lab.1, lab.2);
    if c == 0 {
        (lab.0, 0, ONE as int, 0)
    } else {
        (lab.0, c, axis_share(lab.1, c), axis_share(lab.2, c))
    }
}

/// The OKLab coordinates of a lightness, a chroma, and the cosine and the
/// sine of a hue: `a = c cos h`, `b = c sin h`.
pub open spec fn polar_to_oklab(l: int, c: int, cos: int, sin: int) -> (int, int, int) {
    (l, (c * cos) / (ONE as int), (c * sin) / (ONE as int))
}

/// Whether the color of this lightness, chroma and hue lies in the sRGB
/// gamut.
pub open spec fn chroma_fits(l: int, c: int, cos: int, sin: int) -> bool {
    in_gamut(oklab_to_linear(polar_to_oklab(l, c, cos, sin)))
}

/// The lower end of the chroma interval after `steps` halvings. Each step
/// tests the midpoint: where it fits it becomes the lower end, else the
/// upper end.
pub open spec fn bisect_chroma(l: int, cos: int, sin: int, lo: int, hi: int, steps: nat) -> int
    decreases steps,
{
    if steps == 0 {
        lo
    } else {
        let mid = (lo + hi) / 2;
        if chroma_fits(l, mid, cos, sin) {
            bisect_chroma(l, cos, sin, mid, hi, (steps - 1) as nat)
        } else {
            bisect_chroma(l, cos, sin, lo, mid, (steps - 1) as nat)
        }
    }
}

/// The chroma that the gamut mapping leaves: the chroma asked for where it
/// fits, else what a search by halving between zero and it finds.
pub open spec fn mapped_chroma(l: int, c: int, cos: int, sin: int) -> int {
    if chroma_fits(l, c, cos, sin) {
        c
    } else {
        bisect_chroma(l, cos, sin, 0, c, GAMUT_STEPS as nat)
    }
}

/// The opaque color of a lightness, a chroma, and the cosine and the sine
/// of a hue, with the chroma reduced until the color lies in the sRGB gamut.
pub open spec fn from_oklch_spec(lch: (int, int, int, int)) -> Color {
    from_oklab_spec(
        polar_to_oklab(lch.0, mapped_chroma(lch.0, lch.1, lch.2, lch.3), lch.2, lch.3),
    )
}

/// The difference of two hues in degrees, taken the short way round: above
/// -180 and at most 180.
pub open spec fn hue_delta(h1: int, h2: int) -> int {
    let d = h2 - h1;
    let e = if d > TURN / 2 {
        d - TURN
    } else {
        d
    };
    if e <= -(TURN / 2) {
        e + TURN
    } else {
        e
    }
}

/// A hue in degrees brought into the range from 0 up to 360, from at most
/// one turn outside it.
pub open spec fn wrap_hue(h: int) -> int {
    let g = if h < 0 {
        h + TURN
    } else {
        h
    };
    if g >= TURN {
        g - TURN
    } else {
        g
    }
}

/// The hue a fraction `t` of the way from `h1` to `h2`, the short way round.
pub open spec fn mix_hue(h1: int, h2: int, t: int) -> int {
    wrap_hue(h1 + (hue_delta(h1, h2) * t) / (ONE as int))
}

/// Lightness, chroma and hue in degrees a fraction `t` of the way from one
/// to the other. `t` is limited to the range from zero to one.
///
/// Where one of the two has no chroma it has no hue either, and takes the
/// hue of the other. The chroma is not below zero.
pub open spec fn mix_oklch_spec(p: (int, int, int), q: (int, int, int), t: int) -> (int, int, int) {
    let t = clamp(t, 0, ONE as int);
    let h1 = if p.1 <= 0 {
        q.2
    } else {
        p.2
    };
    let h2 = if p.1 <= 0 {
        q.2
    } else if q.1 <= 0 {
        p.2
    } else {
        q.2
    };
    let c = mix(p.1, q.1, t);
    (mix(p.0, q.0, t), if c < 0 {
        0
    } else {
        c
    }, mix_hue(h1, h2, t))
}

/// A gray has no chroma, and so the hue zero.
pub proof fn lemma_gray_has_no_chroma(c: Color)
    requires
        c.r == c.g,
        c.g == c.b,
    ensures
        oklab_to_polar(into_oklab_spec(c)) == (into_oklab_spec(c).0, 0int, ONE as int, 0int),
{
    crate::color::oklab::lemma_gray_axes(c);
    assert(0int * 0int + 0int * 0int == 0) by (nonlinear_arith);
    lemma_sqrt_floor(0);
}

/// Where one of the two has no chroma, the hue of the mix is the hue of the
/// other all the way: it does not turn.
pub proof fn lemma_mix_keeps_hue_beside_gray(p: (int, int, int), q: (int, int, int), t: int)
    requires
        0 <= p.2 < TURN,
        0 <= q.2 < TURN,
    ensures
        p.1 <= 0 ==> mix_oklch_spec(p, q, t).2 == q.2,
        p.1 > 0 && q.1 <= 0 ==> mix_oklch_spec(p, q, t).2 == p.2,
{
    let u = clamp(t, 0, ONE as int);
    assert(0 * u == 0) by (nonlinear_arith);
}

/// The mix is the first of the two at zero and the second at one, where
/// both have chroma.
pub proof fn lemma_mix_oklch_ends(p: (int, int, int), q: (int, int, int))
    requires
        0 <= p.2 < TURN,
        0 <= q.2 < TURN,
        p.1 > 0,
        q.1 > 0,
    ensures
        mix_oklch_spec(p, q, 0) == p,
        mix_oklch_spec(p, q, ONE as int) == q,
{
    crate::color::interp::lemma_mix_ends(p.0, q.0);
    crate::color::interp::lemma_mix_ends(p.1, q.1);
    let d = hue_delta(p.2, q.2);
    assert(d * 0 == 0) by (nonlinear_arith);
    assert((d * ONE) / (ONE as int) == d) by {
        assert(d * ONE == ONE * d) by (nonlinear_arith);
        lemma_div_floor_unique(d * ONE, ONE as int, d);
    }
}

/// The search by halving stays within the interval that it starts from.
pub proof fn lemma_bisect_between(l: int, cos: int, sin: int, lo: int, hi: int, steps: nat)
    requires
        lo <= hi,
    ensures
        lo <= bisect_chroma(l, cos, sin, lo, hi, steps) <= hi,
    decreases steps,
{
    if steps > 0 {
        let mid = (lo + hi) / 2;
        if chroma_fits(l, mid, cos, sin) {
            lemma_bisect_between(l, cos, sin, mid, hi, (steps - 1) as nat);
        } else {
            lemma_bisect_between(l, cos, sin, lo, mid, (steps - 1) as nat);
        }
    }
}

/// Where the lower end of the interval fits, so does what the search finds.
pub proof fn lemma_bisect_fits(l: int, cos: int, sin: int, lo: int, hi: int, steps: nat)
    requires
        chroma_fits(l, lo, cos, sin),
    ensures
        chroma_fits(l, bisect_chroma(l, cos, sin, lo, hi, steps), cos, sin),
    decreases steps,
{
    if steps > 0 {
        let mid = (lo + hi) / 2;
        if chroma_fits(l, mid, cos, sin) {
            lemma_bisect_fits(l, cos, sin, mid, hi, (steps - 1) as nat);
        } else {
            lemma_bisect_fits(l, cos, sin, lo, mid, (steps - 1) as nat);
        }
    }
}

/// Where the gray of a lightness lies in the gamut, the gamut mapping gives
/// a color in the gamut, whatever the chroma asked for.
pub proof fn lemma_mapped_chroma_fits(l: int, c: int, cos: int, sin: int)
    requires
        chroma_fits(l, 0, cos, sin),
    ensures
        chroma_fits(l, mapped_chroma(l, c, cos, sin), cos, sin),
{
    lemma_bisect_fits(l, cos, sin, 0, c, GAMUT_STEPS as nat);
}

/// The gamut mapping never raises the chroma, and never turns it negative.
pub proof fn lemma_mapped_chroma_between(l: int, c: int, cos: int, sin: int)
    requires
        c >= 0,
    ensures
        0 <= mapped_chroma(l, c, cos, sin) <= c,
{
    lemma_bisect_between(l, cos, sin, 0, c, GAMUT_STEPS as nat);
}

/// A color that lies in the gamut is left as OKLab has it.
pub proof fn lemma_in_gamut_unmapped(lch: (int, int, int, int))
    requires
        chroma_fits(lch.0, lch.1, lch.2, lch.3),
    ensures
        from_oklch_spec(lch) == from_oklab_spec(polar_to_oklab(lch.0, lch.1, lch.2, lch.3)),
{
}

/// The short way round is at most half a turn.
pub proof fn lemma_hue_delta_range(h1: int, h2: int)
    requires
        0 <= h1 < TURN,
        0 <= h2 < TURN,
    ensures
        -(TURN / 2) < hue_delta(h1, h2) <= TURN / 2,
{
}

/// A mixed hue lies in the range from 0 up to 360 degrees.
pub proof fn lemma_mix_hue_range(h1: int, h2: int, t: int)
    requires
        0 <= h1 < TURN,
        0 <= h2 < TURN,
        0 <= t <= ONE,
    ensures
        0 <= mix_hue(h1, h2, t) < TURN,
{
    lemma_hue_delta_range(h1, h2);
    lemma_scaled_between(hue_delta(h1, h2), t, ONE as int);
}

/// The OKLab coordinates of a lightness, a chroma and a hue.
fn polar_oklab(l: Fixed, c: i64, cos: Fixed, sin: Fixed) -> (lab: [Fixed; 3])
    requires
        -0x7fff_ffff <= c <= 0x7fff_ffff,
        -ONE <= cos.raw <= ONE,
        -ONE <= sin.raw <= ONE,
    ensures
        raw3(lab) == polar_to_oklab(l.raw as int, c as int, cos.raw as int, sin.raw as int),
{
    proof {
        lemma_mul_bound(c as int, cos.raw as int, 0x7fff_ffff, ONE as int);
        lemma_mul_bound(c as int, sin.raw as int, 0x7fff_ffff, ONE as int);
    }
    let a = quotient((c as i128) * (cos.raw as i128), ONE as i128);
    let b = quotient((c as i128) * (sin.raw as i128), ONE as i128);
    [l, a, b]
}

/// Whether the color of this lightness, chroma and hue lies in the gamut.
fn fits(l: Fixed, c: i64, cos: Fixed, sin: Fixed) -> (yes: bool)
    requires
        -0x7fff_ffff <= c <= 0x7fff_ffff,
        -ONE <= cos.raw <= ONE,
        -ONE <= sin.raw <= ONE,
    ensures
        yes == chroma_fits(l.raw as int, c as int, cos.raw as int, sin.raw as int),
{
    is_in_gamut(oklab_linear(polar_oklab(l, c, cos, sin)))
}

/// `a / 2` rounded down.
fn halve(a: i64) -> (h: i64)
    requires
        -0x1_0000_0000 <= a <= 0x1_0000_0000,
    ensures
        h == a / 2,
{
    crate::arith::div_floor(a as i128, 2) as i64
}

impl Color {
    /// Lightness, chroma, and the cosine and the sine of the hue, in this
    /// order. A color without chroma has the hue zero; every gray is such a
    /// color.
    pub fn into_oklch(self) -> (lch: [Fixed; 4])
        ensures
            raw4(lch) == oklab_to_polar(into_oklab_spec(self)),
            lch[1].raw >= 0,
            -ONE <= lch[2].raw <= ONE,
            -ONE <= lch[3].raw <= ONE,
            self.r == self.g && self.g == self.b ==> lch[1].raw == 0,
    {
        proof {
            if self.r == self.g && self.g == self.b {
                lemma_gray_has_no_chroma(self);
            }
        }
        let lab = self.into_oklab();
        let a: i128 = lab[1].raw as i128;
        let b: i128 = lab[2].raw as i128;
        proof {
            lemma_mul_bound(a as int, a as int, 0x40_0000, 0x40_0000);
            lemma_mul_bound(b as int, b as int, 0x40_0000, 0x40_0000);
            assert(a * a >= 0 && b * b >= 0) by (nonlinear_arith);
            lemma_sqrt_floor(a * a + b * b);
            crate::arith::lemma_sqrt_floor_below(a * a + b * b, 0x80_0000);
        }
        let norm: i128 = a * a + b * b;
        let c: i128 = isqrt(norm as u64) as i128;
        if c == 0 {
            return [lab[0], Fixed { raw: 0 }, Fixed { raw: ONE }, Fixed { raw: 0 }];
        }
        proof {
            assert(-c <= a <= c && -c <= b <= c) by (nonlinear_arith)
                requires
                    c >= 0,
                    a * a + b * b < (c + 1) * (c + 1),
            ;
            lemma_div_floor_monotone(-(c * ONE), a * ONE, c as int);
            lemma_div_floor_monotone(a * ONE, c * ONE, c as int);
            lemma_div_floor_monotone(-(c * ONE), b * ONE, c as int);
            lemma_div_floor_monotone(b * ONE, c * ONE, c as int);
            lemma_div_floor_unique(-(c * ONE), c as int, -ONE);
            lemma_div_floor_unique(c * ONE, c as int, ONE as int);
            assert(-ONE * c == -(c * ONE)) by (nonlinear_arith);
            assert(ONE * c == c * ONE) by (nonlinear_arith);
        }
        let cos = quotient(a * (ONE as i128), c);
        let sin = quotient(b * (ONE as i128), c);
        [lab[0], Fixed { raw: c as i32 }, cos, sin]
    }

    /// The opaque color of a lightness, a chroma, and the cosine and the
    /// sine of a hue, in this order.
    ///
    /// Where the color lies in the sRGB gamut it is converted as it is.
    /// Elsewhere the chroma is reduced at the same lightness and hue, by a
    /// search of 24 halvings between zero and the chroma asked for. The
    /// chroma is any number but the least one; the cosine and the sine lie
    /// between minus one and one.
    pub fn from_oklch(lch: [Fixed; 4]) -> (c: Color)
        requires
            lch[1].raw > -0x8000_0000,
            -ONE <= lch[2].raw <= ONE,
            -ONE <= lch[3].raw <= ONE,
        ensures
            c == from_oklch_spec(raw4(lch)),
    {
        let l = lch[0];
        let cos = lch[2];
        let sin = lch[3];
        let asked: i64 = lch[1].raw as i64;
        if fits(l, asked, cos, sin) {
            return Self::from_oklab(polar_oklab(l, asked, cos, sin));
        }
        let mut lo: i64 = 0;
        let mut hi: i64 = asked;
        let mut step: u32 = 0;
        while step < GAMUT_STEPS
            invariant
                step <= GAMUT_STEPS,
                -0x7fff_ffff <= lo <= 0x7fff_ffff,
                -0x7fff_ffff <= hi <= 0x7fff_ffff,
                -ONE <= cos.raw <= ONE,
                -ONE <= sin.raw <= ONE,
                bisect_chroma(
                    l.raw as int,
                    cos.raw as int,
                    sin.raw as int,
                    0,
                    asked as int,
                    GAMUT_STEPS as nat,
                ) == bisect_chroma(
                    l.raw as int,
                    cos.raw as int,
                    sin.raw as int,
                    lo as int,
                    hi as int,
                    (GAMUT_STEPS - step) as nat,
                ),
            decreases GAMUT_STEPS - step,
        {
            let mid = halve(lo + hi);
            if fits(l, mid, cos, sin) {
                lo = mid;
            } else {
                hi = mid;
            }
            step = step + 1;
        }
        Self::from_oklab(polar_oklab(l, lo, cos, sin))
    }

    /// Lightness, chroma and hue in degrees a fraction `t` of the way from
    /// `from` to `to`, the hue the short way round. `t` is limited to the
    /// range from zero to one. Both hues lie in the range from 0 up to 360
    /// degrees.
    pub fn mix_oklch(from: [Fixed; 3], to: [Fixed; 3], t: Fixed) -> (lch: [Fixed; 3])
        requires
            0 <= from[2].raw < TURN,
            0 <= to[2].raw < TURN,
        ensures
            raw3(lch) == mix_oklch_spec(raw3(from), raw3(to), t.raw as int),
            0 <= lch[2].raw < TURN,
            lch[1].raw >= 0,
    {
        let t: i64 = if t.raw < 0 {
            0
        } else if t.raw > ONE {
            ONE as i64
        } else {
            t.raw as i64
        };
        let (h1, h2): (i64, i64) = if from[1].raw <= 0 {
            (to[2].raw as i64, to[2].raw as i64)
        } else if to[1].raw <= 0 {
            (from[2].raw as i64, from[2].raw as i64)
        } else {
            (from[2].raw as i64, to[2].raw as i64)
        };
        let mut dh: i64 = h2 - h1;
        if dh > TURN / 2 {
            dh = dh - TURN;
        }
        if dh <= -(TURN / 2) {
            dh = dh + TURN;
        }
        proof {
            lemma_hue_delta_range(h1 as int, h2 as int);
            lemma_scaled_between(dh as int, t as int, ONE as int);
            lemma_mul_bound(dh as int, t as int, TURN as int, ONE as int);
        }
        let turned = quotient((dh as i128) * (t as i128), ONE as i128).raw as i64;
        let mut h: i64 = h1 + turned;
        if h < 0 {
            h = h + TURN;
        }
        if h >= TURN {
            h = h - TURN;
        }
        let l = Self::mix_wide(from[0], to[0], t);
        let c = Self::mix_wide(from[1], to[1], t);
        [l, if c.raw < 0 {
            Fixed { raw: 0 }
        } else {
            c
        }, Fixed { raw: h as i32 }]
    }

    /// The value a fraction `t` of the way from `x` to `y`, rounded down.
    fn mix_wide(x: Fixed, y: Fixed, t: i64) -> (out: Fixed)
        requires
            0 <= t <= ONE,
        ensures
            out.raw == mix(x.raw as int, y.raw as int, t as int),
    {
        let d: i128 = y.raw as i128 - x.raw as i128;
        proof {
            lemma_mul_bound(d as int, t as int, 0x1_0000_0000, ONE as int);
            lemma_mul_bound(x.raw as int, ONE as int, 0x8000_0000, ONE as int);
            assert(d >= 0 ==> 0 <= d * t <= d * ONE) by (nonlinear_arith)
                requires
                    0 <= t <= ONE,
            ;
            assert(d <= 0 ==> d * ONE <= d * t <= 0) by (nonlinear_arith)
                requires
                    0 <= t <= ONE,
            ;
        }
        let num: i128 = (x.raw as i128) * (ONE as i128) + d * (t as i128);
        quotient(num, ONE as i128)
    }

    /// The alpha level a fraction `t` of the way from the alpha of this
    /// color to that of `other`, rounded to nearest. `t` is limited to the
    /// range from zero to one.
    pub fn mix_alpha(self, other: Color, t: Fixed) -> (a: u8)
        ensures
            a == lerp_level(self.a, other.a, clamp(t.raw as int, 0, ONE as int)),
    {
        self.lerp(other, t).a
    }
}

} // verus!
