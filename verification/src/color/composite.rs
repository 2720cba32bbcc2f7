//! Porter-Duff compositing: source over backdrop, plain and with a blend
//! mode.
//!
//! Alpha is the exact fraction `a / 255`. A composite is computed exactly in
//! linear light, rounded down once to the lattice of 1/65536, and encoded.

use crate::arith::half_up;
use crate::arith::lemma_div_floor_monotone;
use crate::arith::lemma_div_floor_unique;
use crate::color::blend::blend_spec;
use crate::color::blend::BLEND_BOUND;
use crate::color::model::BlendMode;
use crate::color::model::Color;
use crate::color::transfer::encode_level;
use crate::color::transfer::lemma_encode_decode;
use crate::color::transfer::lemma_table_decodes;
use crate::color::transfer::linear_to_srgb;
use crate::color::transfer::srgb_to_linear;
use crate::fixed::Fixed;
use crate::fixed::ONE;
use vstd::prelude::*;

verus! {

/// The alpha of source over backdrop, `sa + da (1 - sa)`, times `255 * 255`.
pub open spec fn over_weight(sa: u8, da: u8) -> int {
    255 * sa + da * (255 - sa)
}

/// The alpha level of source over backdrop, rounded to nearest.
pub open spec fn over_alpha(sa: u8, da: u8) -> u8 {
    half_up(over_weight(sa, da), 255) as u8
}

/// One channel of source over backdrop in linear light:
/// `(s sa + d da (1 - sa)) / (sa + da (1 - sa))`, rounded down; zero where
/// both are fully transparent.
pub open spec fn over_linear(s: int, sa: u8, d: int, da: u8) -> int {
    if over_weight(sa, da) == 0 {
        0
    } else {
        (s * sa * 255 + d * da * (255 - sa)) / over_weight(sa, da)
    }
}

/// Source over backdrop, composed in linear light.
pub open spec fn over_spec(src: Color, bg: Color) -> Color {
    Color {
        r: linear_to_srgb(over_linear(srgb_to_linear(src.r), src.a, srgb_to_linear(bg.r), bg.a)),
        g: linear_to_srgb(over_linear(srgb_to_linear(src.g), src.a, srgb_to_linear(bg.g), bg.a)),
        b: linear_to_srgb(over_linear(srgb_to_linear(src.b), src.a, srgb_to_linear(bg.b), bg.a)),
        a: over_alpha(src.a, bg.a),
    }
}

/// One channel of source over destination on encoded levels, rounded to
/// nearest.
pub open spec fn over_level(s: u8, sa: u8, d: u8, da: u8) -> u8 {
    half_up(s * sa * 255 + d * da * (255 - sa), over_weight(sa, da)) as u8
}

/// Source over destination, composed on the encoded levels. A fully
/// transparent destination gives the source, and else a fully transparent
/// source the destination.
pub open spec fn over_srgb_fast_spec(src: Color, dst: Color) -> Color {
    if dst.a == 0 {
        src
    } else if src.a == 0 {
        dst
    } else {
        Color {
            r: over_level(src.r, src.a, dst.r, dst.a),
            g: over_level(src.g, src.a, dst.g, dst.a),
            b: over_level(src.b, src.a, dst.b, dst.a),
            a: over_alpha(src.a, dst.a),
        }
    }
}

/// One channel of a blend in linear light, in the general Porter-Duff form:
/// `d da (1 - sa) + s sa (1 - da) + sa da blended`, divided by the alpha of
/// the result, rounded down.
pub open spec fn blend_linear(s: int, sa: u8, d: int, da: u8, blended: int) -> int {
    (d * da * (255 - sa) + s * sa * (255 - da) + sa * da * blended) / over_weight(sa, da)
}

/// The linear-light red, green and blue of a color.
pub open spec fn linear3(c: Color) -> (int, int, int) {
    (srgb_to_linear(c.r), srgb_to_linear(c.g), srgb_to_linear(c.b))
}

/// Source blended over backdrop. A fully transparent source gives the
/// backdrop. The mode Normal, and a fully transparent backdrop, give plain
/// source over backdrop.
pub open spec fn blend_over_spec(src: Color, bg: Color, mode: BlendMode) -> Color {
    if src.a == 0 {
        bg
    } else if mode == BlendMode::Normal || bg.a == 0 {
        over_spec(src, bg)
    } else {
        let blended = blend_spec(mode, linear3(bg), linear3(src));
        Color {
            r: linear_to_srgb(
                blend_linear(srgb_to_linear(src.r), src.a, srgb_to_linear(bg.r), bg.a, blended.0),
            ),
            g: linear_to_srgb(
                blend_linear(srgb_to_linear(src.g), src.a, srgb_to_linear(bg.g), bg.a, blended.1),
            ),
            b: linear_to_srgb(
                blend_linear(srgb_to_linear(src.b), src.a, srgb_to_linear(bg.b), bg.a, blended.2),
            ),
            a: over_alpha(src.a, bg.a),
        }
    }
}

/// Whether a color is fully transparent and not black.
pub open spec fn is_hidden_tint(c: Color) -> bool {
    c.a == 0 && (c.r != 0 || c.g != 0 || c.b != 0)
}

/// A fully transparent source over a backdrop that is not fully transparent
/// gives the backdrop.
pub proof fn lemma_over_transparent_source(src: Color, bg: Color)
    requires
        src.a == 0,
        bg.a > 0,
    ensures
        over_spec(src, bg) == bg,
{
    lemma_over_backdrop_channel(srgb_to_linear(src.r), srgb_to_linear(bg.r), bg.a);
    lemma_over_backdrop_channel(srgb_to_linear(src.g), srgb_to_linear(bg.g), bg.a);
    lemma_over_backdrop_channel(srgb_to_linear(src.b), srgb_to_linear(bg.b), bg.a);
    lemma_encode_decode(bg.r);
    lemma_encode_decode(bg.g);
    lemma_encode_decode(bg.b);
}

/// An opaque source over any backdrop gives the source.
pub proof fn lemma_over_opaque_source(src: Color, bg: Color)
    requires
        src.a == 255,
    ensures
        over_spec(src, bg) == src,
        over_srgb_fast_spec(src, bg) == src,
{
    lemma_over_source_channel(srgb_to_linear(src.r), srgb_to_linear(bg.r), bg.a);
    lemma_over_source_channel(srgb_to_linear(src.g), srgb_to_linear(bg.g), bg.a);
    lemma_over_source_channel(srgb_to_linear(src.b), srgb_to_linear(bg.b), bg.a);
    lemma_over_source_channel(src.r as int, bg.r as int, bg.a);
    lemma_over_source_channel(src.g as int, bg.g as int, bg.a);
    lemma_over_source_channel(src.b as int, bg.b as int, bg.a);
    lemma_encode_decode(src.r);
    lemma_encode_decode(src.g);
    lemma_encode_decode(src.b);
}

proof fn lemma_over_source_channel(s: int, d: int, da: u8)
    ensures
        over_linear(s, 255, d, da) == s,
        half_up(s * 255 * 255 + d * da * (255 - 255), over_weight(255, da)) == s,
{
    let w = over_weight(255, da);
    assert(w == 255 * 255 && s * 255 * 255 + d * da * (255 - 255) == s * w) by (nonlinear_arith)
        requires
            w == 255 * 255 + da * (255 - 255),
    ;
    assert((s + 1) * w == s * w + w) by (nonlinear_arith);
    lemma_div_floor_unique(s * w, w, s);
}

proof fn lemma_over_backdrop_channel(s: int, d: int, da: u8)
    requires
        da > 0,
    ensures
        over_linear(s, 0, d, da) == d,
{
    let w = over_weight(0, da);
    assert(s * 0 * 255 + d * da * (255 - 0) == d * w && (d + 1) * w == d * w + w)
        by (nonlinear_arith)
        requires
            w == 255 * 0 + da * (255 - 0),
    ;
    lemma_div_floor_unique(d * w, w, d);
}

/// In the mode Normal, blending is plain source over backdrop.
///
/// The one exception is left out: a fully transparent source over a fully
/// transparent backdrop that is not black. There blending gives the backdrop
/// as it is, and source over backdrop gives transparent black.
pub proof fn lemma_blend_normal_is_over(src: Color, bg: Color)
    requires
        !(src.a == 0 && is_hidden_tint(bg)),
    ensures
        blend_over_spec(src, bg, BlendMode::Normal) == over_spec(src, bg),
{
    if src.a == 0 {
        if bg.a > 0 {
            lemma_over_transparent_source(src, bg);
        } else {
            lemma_encode_decode(0);
        }
    }
}

/// An opaque source blended over an opaque backdrop is the blend of the two,
/// encoded.
pub proof fn lemma_blend_opaque(src: Color, bg: Color, mode: BlendMode)
    requires
        src.a == 255,
        bg.a == 255,
        mode != BlendMode::Normal,
    ensures
        blend_over_spec(src, bg, mode) == (Color {
            r: linear_to_srgb(blend_spec(mode, linear3(bg), linear3(src)).0),
            g: linear_to_srgb(blend_spec(mode, linear3(bg), linear3(src)).1),
            b: linear_to_srgb(blend_spec(mode, linear3(bg), linear3(src)).2),
            a: 255,
        }),
{
    let blended = blend_spec(mode, linear3(bg), linear3(src));
    lemma_blend_opaque_channel(srgb_to_linear(src.r), srgb_to_linear(bg.r), blended.0);
    lemma_blend_opaque_channel(srgb_to_linear(src.g), srgb_to_linear(bg.g), blended.1);
    lemma_blend_opaque_channel(srgb_to_linear(src.b), srgb_to_linear(bg.b), blended.2);
}

proof fn lemma_blend_opaque_channel(s: int, d: int, blended: int)
    ensures
        blend_linear(s, 255, d, 255, blended) == blended,
{
    let w = over_weight(255, 255);
    assert(d * 255 * (255 - 255) + s * 255 * (255 - 255) + 255 * 255 * blended == blended * w && (
    blended + 1) * w == blended * w + w) by (nonlinear_arith)
        requires
            w == 255 * 255,
    ;
    lemma_div_floor_unique(blended * w, w, blended);
}

/// Over an opaque backdrop, Multiply with opaque white leaves the backdrop
/// as it is; so do Screen, Difference and Exclusion with opaque black.
pub proof fn lemma_blend_identity(bg: Color)
    requires
        bg.a == 255,
    ensures
        blend_over_spec(Color { r: 255, g: 255, b: 255, a: 255 }, bg, BlendMode::Multiply) == bg,
        blend_over_spec(Color { r: 0, g: 0, b: 0, a: 255 }, bg, BlendMode::Screen) == bg,
        blend_over_spec(Color { r: 0, g: 0, b: 0, a: 255 }, bg, BlendMode::Difference) == bg,
        blend_over_spec(Color { r: 0, g: 0, b: 0, a: 255 }, bg, BlendMode::Exclusion) == bg,
{
    let white = Color { r: 255, g: 255, b: 255, a: 255 };
    let black = Color { r: 0, g: 0, b: 0, a: 255 };
    lemma_table_decodes(bg.r);
    lemma_table_decodes(bg.g);
    lemma_table_decodes(bg.b);
    lemma_encode_decode(bg.r);
    lemma_encode_decode(bg.g);
    lemma_encode_decode(bg.b);
    assert(linear3(white) == (ONE as int, ONE as int, ONE as int));
    assert(linear3(black) == (0int, 0int, 0int));
    crate::color::blend::lemma_identity_blends(linear3(bg));
    lemma_blend_opaque(white, bg, BlendMode::Multiply);
    lemma_blend_opaque(black, bg, BlendMode::Screen);
    lemma_blend_opaque(black, bg, BlendMode::Difference);
    lemma_blend_opaque(black, bg, BlendMode::Exclusion);
}

/// The weight of the result's alpha, and its level.
fn over_alpha_of(sa: u8, da: u8) -> (out: (u32, u8))
    ensures
        out.0 == over_weight(sa, da),
        out.1 == over_alpha(sa, da),
        out.0 <= 255 * 255,
        out.0 == 0 <==> sa == 0 && da == 0,
{
    assert(0 <= da * (255 - sa) <= 255 * (255 - sa) && (sa == 0 ==> da * (255 - sa) == 255 * da))
        by (nonlinear_arith)
        requires
            0 <= da <= 255,
            0 <= sa <= 255,
    ;
    let w: u32 = 255 * (sa as u32) + (da as u32) * (255 - sa as u32);
    (w, ((2 * w + 255) / 510) as u8)
}

/// One channel of source over backdrop, encoded.
fn over_channel(s: u8, sa: u8, d: u8, da: u8, w: u32) -> (level: u8)
    requires
        w == over_weight(sa, da),
    ensures
        level == linear_to_srgb(over_linear(srgb_to_linear(s), sa, srgb_to_linear(d), da)),
{
    if w == 0 {
        return encode_level(0);
    }
    let ls: u64 = Color::decode_srgb(s).raw as u64;
    let ld: u64 = Color::decode_srgb(d).raw as u64;
    assert(0 <= ls * sa <= ONE * 255 && 0 <= ld * da <= ONE * 255) by (nonlinear_arith)
        requires
            0 <= ls <= ONE,
            0 <= ld <= ONE,
            0 <= sa <= 255,
            0 <= da <= 255,
    ;
    let x: u64 = ld * (da as u64);
    assert(0 <= x * (255 - sa) <= ONE * 255 * 255) by (nonlinear_arith)
        requires
            0 <= x <= ONE * 255,
            0 <= sa <= 255,
    ;
    let num: u64 = ls * (sa as u64) * 255 + x * (255 - sa as u64);
    encode_level((num / (w as u64)) as i64)
}

/// One channel of source over destination on encoded levels.
fn over_level_of(s: u8, sa: u8, d: u8, da: u8, w: u32) -> (level: u8)
    requires
        w == over_weight(sa, da),
        sa > 0,
    ensures
        level == over_level(s, sa, d, da),
{
    assert(0 <= s * sa <= 255 * sa && 0 <= d * da <= 255 * da) by (nonlinear_arith)
        requires
            0 <= s <= 255,
            0 <= d <= 255,
            0 <= sa <= 255,
            0 <= da <= 255,
    ;
    let x: u64 = (d as u64) * (da as u64);
    assert(0 <= x * (255 - sa) <= 255 * (da * (255 - sa))) by (nonlinear_arith)
        requires
            0 <= x <= 255 * da,
            0 <= sa <= 255,
    ;
    let num: u64 = (s as u64) * (sa as u64) * 255 + x * (255 - sa as u64);
    assert(num <= 255 * w);
    let q: u64 = (2 * num + w as u64) / (2 * (w as u64));
    proof {
        lemma_div_floor_monotone(2 * num + w, 2 * (255 * w) + w, 2 * w);
        assert((2 * (255 * w) + w) / (2 * w) == 255) by {
            lemma_div_floor_unique(2 * (255 * w) + w, 2 * w, 255);
        }
    }
    q as u8
}

/// One channel of a blend, encoded.
fn blend_over_channel(s: u8, sa: u8, d: u8, da: u8, blended: Fixed, w: u32) -> (level: u8)
    requires
        w == over_weight(sa, da),
        sa > 0,
        -BLEND_BOUND <= blended.raw <= BLEND_BOUND,
    ensures
        level == linear_to_srgb(
            blend_linear(srgb_to_linear(s), sa, srgb_to_linear(d), da, blended.raw as int),
        ),
{
    assert(da * (255 - sa) >= 0) by (nonlinear_arith)
        requires
            0 <= da <= 255,
            0 <= sa <= 255,
    ;
    let ls: i128 = Color::decode_srgb(s).raw as i128;
    let ld: i128 = Color::decode_srgb(d).raw as i128;
    let sa: i128 = sa as i128;
    let da: i128 = da as i128;
    let bl: i128 = blended.raw as i128;
    assert(0 <= ld * da <= ONE * 255 && 0 <= ls * sa <= ONE * 255 && 0 <= sa * da <= 255 * 255)
        by (nonlinear_arith)
        requires
            0 <= ls <= ONE,
            0 <= ld <= ONE,
            0 <= sa <= 255,
            0 <= da <= 255,
    ;
    let x: i128 = ld * da;
    let y: i128 = ls * sa;
    let z: i128 = sa * da;
    assert(0 <= x * (255 - sa) <= ONE * 255 * 255 && 0 <= y * (255 - da) <= ONE * 255 * 255
        && -(255 * 255 * BLEND_BOUND) <= z * bl <= 255 * 255 * BLEND_BOUND) by (nonlinear_arith)
        requires
            0 <= x <= ONE * 255,
            0 <= y <= ONE * 255,
            0 <= z <= 255 * 255,
            0 <= sa <= 255,
            0 <= da <= 255,
            -BLEND_BOUND <= bl <= BLEND_BOUND,
    ;
    let num: i128 = x * (255 - sa) + y * (255 - da) + z * bl;
    let q = crate::fixed::quotient(num, w as i128);
    encode_level(q.raw as i64)
}

impl Color {
    /// Porter-Duff source over backdrop, composed in linear light.
    pub fn over(self, bg: Color) -> (c: Color)
        ensures
            c == over_spec(self, bg),
    {
        let (w, a) = over_alpha_of(self.a, bg.a);
        Color {
            r: over_channel(self.r, self.a, bg.r, bg.a, w),
            g: over_channel(self.g, self.a, bg.g, bg.a, w),
            b: over_channel(self.b, self.a, bg.b, bg.a, w),
            a,
        }
    }

    /// The source blended over the backdrop in the given mode, composed in
    /// linear light.
    pub fn blend_over(self, bg: Color, mode: BlendMode) -> (c: Color)
        ensures
            c == blend_over_spec(self, bg, mode),
    {
        if self.a == 0 {
            return bg;
        }
        if matches!(mode, BlendMode::Normal) || bg.a == 0 {
            return self.over(bg);
        }
        let s = self.into_linear();
        let d = bg.into_linear();
        let blended = Self::blend_channel(mode, [d[0], d[1], d[2]], [s[0], s[1], s[2]]);
        let (w, a) = over_alpha_of(self.a, bg.a);
        Color {
            r: blend_over_channel(self.r, self.a, bg.r, bg.a, blended[0], w),
            g: blend_over_channel(self.g, self.a, bg.g, bg.a, blended[1], w),
            b: blend_over_channel(self.b, self.a, bg.b, bg.a, blended[2], w),
            a,
        }
    }

    /// A faster and less accurate source over destination, composed on the
    /// encoded levels.
    pub fn over_srgb_fast(self, dst: Color) -> (c: Color)
        ensures
            c == over_srgb_fast_spec(self, dst),
    {
        if dst.a == 0 {
            return self;
        }
        if self.a == 0 {
            return dst;
        }
        let (w, a) = over_alpha_of(self.a, dst.a);
        Color {
            r: over_level_of(self.r, self.a, dst.r, dst.a, w),
            g: over_level_of(self.g, self.a, dst.g, dst.a, w),
            b: over_level_of(self.b, self.a, dst.b, dst.a, w),
            a,
        }
    }
}

} // verus!
