//! Conversion between encoded sRGB and OKLab.
//!
//! The two matrices of OKLab are applied exactly, with their published
//! decimal coefficients. A cube root, and a cube, is kept to twenty-four
//! fractional bits and rounded down. The OKLab coordinates are rounded to
//! the nearest point of the lattice of 1/65536, so that a gray has no
//! chroma; the linear-light channels on the way back are rounded down.

use crate::arith::cbrt_floor;
use crate::arith::cube;
use crate::arith::div_floor;
use crate::arith::half_up;
use crate::arith::icbrt;
use crate::arith::lemma_cbrt_floor_below;
use crate::arith::lemma_div_floor_monotone;
use crate::arith::lemma_div_floor_unique;
use crate::arith::lemma_mul_bound;
use crate::color::model::Color;
use crate::color::transfer::encode_level;
use crate::color::transfer::lemma_encode_monotone;
use crate::color::transfer::linear_to_srgb;
use crate::color::transfer::srgb_to_linear;
use crate::fixed::quotient;
use crate::fixed::raw3;
use crate::fixed::Fixed;
use crate::fixed::ONE;
use vstd::prelude::*;

verus! {

/// The scale of the matrix coefficients: ten decimal digits.
pub const COEFF: i128 = 10_000_000_000;

/// One in the finer lattice of the roots and cubes: `2^24`.
pub const FINE: i128 = 0x100_0000;

/// The weighted sum `k0 x + k1 y + k2 z` of three values.
pub open spec fn weighted(k: (int, int, int), v: (int, int, int)) -> int {
    k.0 * v.0 + k.1 * v.1 + k.2 * v.2
}

/// The cube root of the cone response `weighted(k, lin) / COEFF` of a
/// linear-light color, in units of `1 / FINE`, rounded down.
pub open spec fn cone_root(k: (int, int, int), lin: (int, int, int)) -> int {
    cbrt_floor((weighted(k, lin) * (FINE * FINE * FINE)) / (COEFF * ONE))
}

/// The three cone roots of a linear-light color.
pub open spec fn cone_roots(lin: (int, int, int)) -> (int, int, int) {
    (
        cone_root((4122214700, 5363325400, 514459930), lin),
        cone_root((2119035000, 6806996000, 1073969600), lin),
        cone_root((883024600, 2817188400, 6299787000), lin),
    )
}

/// A weighted sum of values in units of `1 / FINE`, rounded down to the
/// lattice of 1/65536.
pub open spec fn to_lattice(k: (int, int, int), v: (int, int, int)) -> int {
    weighted(k, v) / (COEFF * 256)
}

/// A weighted sum of values in units of `1 / FINE`, rounded to the nearest
/// point of the lattice of 1/65536.
pub open spec fn to_nearest(k: (int, int, int), v: (int, int, int)) -> int {
    half_up(weighted(k, v), COEFF * 256)
}

/// The OKLab coordinates of a linear-light color: lightness and the two
/// opponent axes, each rounded to nearest.
pub open spec fn linear_to_oklab(lin: (int, int, int)) -> (int, int, int) {
    let roots = cone_roots(lin);
    (
        to_nearest((2104542600, 7936178000, -40720470), roots),
        to_nearest((19779985000, -24285922000, 4505937000), roots),
        to_nearest((259040370, 7827717700, -8086757700), roots),
    )
}

/// The OKLab coordinates of a color.
pub open spec fn into_oklab_spec(c: Color) -> (int, int, int) {
    linear_to_oklab((srgb_to_linear(c.r), srgb_to_linear(c.g), srgb_to_linear(c.b)))
}

/// The cone response whose cube root is `lab.0 + (k.0 a + k.1 b) / COEFF`,
/// in units of `1 / FINE`: the root rounded down, then its cube rounded
/// down.
pub open spec fn cone_cubed(k: (int, int), lab: (int, int, int)) -> int {
    let root = ((COEFF * lab.0 + k.0 * lab.1 + k.1 * lab.2) * 256) / (COEFF as int);
    cube(root) / (FINE * FINE)
}

/// The three cone responses of an OKLab color.
pub open spec fn cones_cubed(lab: (int, int, int)) -> (int, int, int) {
    (
        cone_cubed((3963377800, 2158037600), lab),
        cone_cubed((-1055613460, -638541700), lab),
        cone_cubed((-894841800, -12914856000), lab),
    )
}

/// The linear-light red, green and blue of an OKLab color. They are not
/// limited to the range from zero to one: a color outside the sRGB gamut
/// has a channel outside it.
pub open spec fn oklab_to_linear(lab: (int, int, int)) -> (int, int, int) {
    let cones = cones_cubed(lab);
    (
        to_lattice((40767417000, -33077116000, 2309699300), cones),
        to_lattice((-12684380000, 26097574000, -3413194000), cones),
        to_lattice((-41960863, -7034186000, 17076147000), cones),
    )
}

/// The opaque color of OKLab coordinates. Channels outside the range from
/// zero to one are limited to it.
pub open spec fn from_oklab_spec(lab: (int, int, int)) -> Color {
    let lin = oklab_to_linear(lab);
    Color {
        r: linear_to_srgb(lin.0),
        g: linear_to_srgb(lin.1),
        b: linear_to_srgb(lin.2),
        a: 255,
    }
}

/// How far outside the range from zero to one a linear-light channel may
/// lie and still count as in the gamut, as a raw value.
///
/// The coordinates of OKLab are kept to 1/65536, so a color on the edge of
/// the gamut comes back from them a few raw units outside it. Every sRGB
/// color is meant to count as in the gamut.
pub const GAMUT_SLACK: i32 = 16;

/// Whether a linear-light channel lies in the gamut: between zero and one,
/// give or take `GAMUT_SLACK`.
pub open spec fn channel_in_gamut(x: int) -> bool {
    -GAMUT_SLACK <= x <= ONE + GAMUT_SLACK
}

/// Whether linear-light red, green and blue all lie in the gamut.
pub open spec fn in_gamut(lin: (int, int, int)) -> bool {
    channel_in_gamut(lin.0) && channel_in_gamut(lin.1) && channel_in_gamut(lin.2)
}

/// The cone roots of a gray lie within one unit of each other, the third
/// being the least and the second the greatest. `x` is the gray's
/// linear-light value.
pub proof fn lemma_gray_roots(x: int)
    requires
        0 <= x <= ONE,
    ensures
        0 <= cone_roots((x, x, x)).2 <= cone_roots((x, x, x)).0 <= cone_roots((x, x, x)).1
            <= cone_roots((x, x, x)).2 + 1,
        cone_roots((x, x, x)).2 <= 0x100_0000,
{
    let k: int = COEFF as int;
    let f3: int = FINE * FINE * FINE;
    let den: int = COEFF * ONE;
    assert(f3 == 0x1_0000_0000_0000_0000_00) by (nonlinear_arith)
        requires
            f3 == FINE * FINE * FINE,
            FINE == 0x100_0000,
    ;
    assert(den == 655360000000000);
    let wl: int = weighted((4122214700, 5363325400, 514459930), (x, x, x));
    let wm: int = weighted((2119035000, 6806996000, 1073969600), (x, x, x));
    let ws: int = weighted((883024600, 2817188400, 6299787000), (x, x, x));
    assert(wl == 10000000030 * x && wm == 10000000600 * x && ws == 10000000000 * x);
    let nl: int = (wl * f3) / den;
    let nm: int = (wm * f3) / den;
    let ns: int = (ws * f3) / den;
    let base: int = x * 0x100_0000_0000_0000;
    lemma_div_floor_unique(ws * f3, den, base);
    assert(ns == base);
    lemma_div_floor_monotone(ws * f3, wl * f3, den);
    lemma_div_floor_monotone(wl * f3, wm * f3, den);
    crate::arith::lemma_div_floor_bounds(wm * f3, den);
    assert(nm * den == den * nm) by (nonlinear_arith);
    assert(k * (nm - ns) <= 600 * ns);
    let rl: int = cbrt_floor(nl);
    let rm: int = cbrt_floor(nm);
    let rs: int = cbrt_floor(ns);
    crate::arith::lemma_cbrt_floor_monotone(ns, nl);
    crate::arith::lemma_cbrt_floor_monotone(nl, nm);
    crate::arith::lemma_cbrt_floor(ns);
    crate::arith::lemma_cbrt_floor(nm);
    assert(cube(0x100_0001) > 0x1_0000_0000_0000_0000_00) by (nonlinear_arith);
    lemma_cbrt_floor_below(ns, 0x100_0001);
    if rm >= rs + 2 {
        let u: int = rs + 1;
        crate::arith::lemma_cube_monotone(u + 1, rm);
        let q: int = u * u;
        assert(cube(u + 1) == cube(u) + 3 * q + 3 * u + 1) by (nonlinear_arith)
            requires
                q == u * u,
        ;
        assert(cube(u) == u * q) by (nonlinear_arith)
            requires
                q == u * u,
        ;
        let d: int = nm - ns;
        assert(d > 3 * q);
        assert(k * d > k * (3 * q)) by (nonlinear_arith)
            requires
                d > 3 * q,
                k > 0,
        ;
        assert(600 * (u * q) <= 10066330200 * q) by (nonlinear_arith)
            requires
                1 <= u <= 16777217,
                q >= 0,
        ;
        assert(q >= 0) by (nonlinear_arith)
            requires
                q == u * u,
        ;
        assert(k * (3 * q) == 30000000000 * q) by (nonlinear_arith)
            requires
                k == 10000000000,
        ;
        assert(false);
    }
}

/// A gray has no color: both opponent axes of its OKLab coordinates are
/// zero.
pub proof fn lemma_gray_axes(c: Color)
    requires
        c.r == c.g,
        c.g == c.b,
    ensures
        into_oklab_spec(c).1 == 0,
        into_oklab_spec(c).2 == 0,
{
    let x = srgb_to_linear(c.r);
    crate::color::transfer::lemma_table_decodes(c.r);
    lemma_gray_roots(x);
    let r = cone_roots((x, x, x));
    assert(COEFF * 256 == 2560000000000);
    let wa: int = weighted((19779985000, -24285922000, 4505937000), r);
    let wb: int = weighted((259040370, 7827717700, -8086757700), r);
    let dl: int = r.0 - r.2;
    let dm: int = r.1 - r.2;
    assert(wa == 19779985000 * r.0 + (-24285922000) * r.1 + 4505937000 * r.2);
    assert(wb == 259040370 * r.0 + 7827717700 * r.1 + (-8086757700) * r.2);
    assert(wa == 19779985000 * dl - 24285922000 * dm);
    assert(wb == 370 * r.2 + 259040370 * dl + 7827717700 * dm);
    assert(-24285922000 <= wa <= 0);
    assert(0 <= wb <= 370 * 0x100_0000 + 8086758070);
    lemma_div_floor_unique(2 * wa + 2560000000000, 5120000000000int, 0);
    lemma_div_floor_unique(2 * wb + 2560000000000, 5120000000000int, 0);
    assert(into_oklab_spec(c).1 == half_up(wa, COEFF * 256));
    assert(into_oklab_spec(c).2 == half_up(wb, COEFF * 256));
}

/// Encoding limits a value to the range from zero to one.
pub proof fn lemma_encode_limits(x: int)
    ensures
        x <= 0 ==> linear_to_srgb(x) == 0,
        x >= ONE ==> linear_to_srgb(x) == 255,
{
    crate::color::transfer::lemma_encode_decode(0);
    crate::color::transfer::lemma_encode_decode(255);
    if x <= 0 {
        lemma_encode_monotone(x, 0);
    }
    if x >= ONE {
        lemma_encode_monotone(ONE as int, x);
    }
}

fn weighted_sum(k0: i128, k1: i128, k2: i128, v: (i128, i128, i128), bound: i128) -> (out: i128)
    requires
        -0x10_0000_0000 <= k0 <= 0x10_0000_0000,
        -0x10_0000_0000 <= k1 <= 0x10_0000_0000,
        -0x10_0000_0000 <= k2 <= 0x10_0000_0000,
        0 <= bound <= 0x1000_0000_0000_0000_0000,
        -bound <= v.0 <= bound,
        -bound <= v.1 <= bound,
        -bound <= v.2 <= bound,
    ensures
        out == weighted((k0 as int, k1 as int, k2 as int), (v.0 as int, v.1 as int, v.2 as int)),
        -3 * (0x10_0000_0000 * bound) <= out <= 3 * (0x10_0000_0000 * bound),
{
    proof {
        lemma_mul_bound(k0 as int, v.0 as int, 0x10_0000_0000, bound as int);
        lemma_mul_bound(k1 as int, v.1 as int, 0x10_0000_0000, bound as int);
        lemma_mul_bound(k2 as int, v.2 as int, 0x10_0000_0000, bound as int);
        lemma_mul_bound(0x10_0000_0000, bound as int, 0x10_0000_0000, 0x1000_0000_0000_0000_0000);
    }
    k0 * v.0 + k1 * v.1 + k2 * v.2
}

fn cone_root_of(k0: i128, k1: i128, k2: i128, lin: (i128, i128, i128)) -> (root: i128)
    requires
        0 <= k0 && 0 <= k1 && 0 <= k2,
        k0 + k1 + k2 <= 10_000_001_000,
        0 <= lin.0 <= ONE && 0 <= lin.1 <= ONE && 0 <= lin.2 <= ONE,
    ensures
        root == cone_root(
            (k0 as int, k1 as int, k2 as int),
            (lin.0 as int, lin.1 as int, lin.2 as int),
        ),
        0 <= root <= 0x200_0000,
{
    assert(0 <= k0 * lin.0 <= k0 * ONE && 0 <= k1 * lin.1 <= k1 * ONE && 0 <= k2 * lin.2 <= k2
        * ONE) by (nonlinear_arith)
        requires
            0 <= k0 && 0 <= k1 && 0 <= k2,
            0 <= lin.0 <= ONE && 0 <= lin.1 <= ONE && 0 <= lin.2 <= ONE,
    ;
    let sum: i128 = k0 * lin.0 + k1 * lin.1 + k2 * lin.2;
    let fine3: i128 = FINE * FINE * FINE;
    assert(0 <= sum * fine3 <= 2 * (COEFF * ONE) * fine3) by (nonlinear_arith)
        requires
            0 <= sum <= 10_000_001_000 * ONE,
            fine3 == 0x1_0000_0000_0000_0000_00,
    ;
    let n: i128 = (sum * fine3) / (COEFF * (ONE as i128));
    proof {
        let den: int = COEFF * ONE;
        lemma_div_floor_monotone(0, sum * fine3, den);
        lemma_div_floor_monotone(sum * fine3, 2 * den * fine3, den);
        lemma_div_floor_unique(2 * den * fine3, den, 2 * fine3);
        assert(cube(0x200_0000) == 0x800_0000_0000_0000_0000) by (nonlinear_arith);
        lemma_cbrt_floor_below(n as int, 0x200_0000);
    }
    icbrt(n as u128) as i128
}

fn to_nearest_of(k0: i128, k1: i128, k2: i128, v: (i128, i128, i128)) -> (out: Fixed)
    requires
        -0x10_0000_0000 <= k0 <= 0x10_0000_0000,
        -0x10_0000_0000 <= k1 <= 0x10_0000_0000,
        -0x10_0000_0000 <= k2 <= 0x10_0000_0000,
        -0x200_0000 <= v.0 <= 0x200_0000,
        -0x200_0000 <= v.1 <= 0x200_0000,
        -0x200_0000 <= v.2 <= 0x200_0000,
    ensures
        out.raw == to_nearest(
            (k0 as int, k1 as int, k2 as int),
            (v.0 as int, v.1 as int, v.2 as int),
        ),
        -0x40_0000 <= out.raw <= 0x40_0000,
{
    let sum = weighted_sum(k0, k1, k2, v, 0x200_0000);
    let den: i128 = 2 * (COEFF * 256);
    proof {
        lemma_div_floor_monotone(-0x40_0000 * den, 2 * sum + COEFF * 256, den as int);
        lemma_div_floor_monotone(2 * sum + COEFF * 256, 0x40_0000 * den, den as int);
        lemma_div_floor_unique(-0x40_0000 * den, den as int, -0x40_0000);
        lemma_div_floor_unique(0x40_0000 * den, den as int, 0x40_0000);
    }
    quotient(2 * sum + COEFF * 256, den)
}

/// The cone response of an OKLab color, in units of `1 / FINE`.
fn cone_cubed_of(k0: i128, k1: i128, lab: (i128, i128, i128)) -> (out: i128)
    requires
        -13_000_000_000 <= k0 <= 13_000_000_000,
        -13_000_000_000 <= k1 <= 13_000_000_000,
        -0x8000_0000 <= lab.0 <= 0x8000_0000,
        -0x8000_0000 <= lab.1 <= 0x8000_0000,
        -0x8000_0000 <= lab.2 <= 0x8000_0000,
    ensures
        out == cone_cubed((k0 as int, k1 as int), (lab.0 as int, lab.1 as int, lab.2 as int)),
        -0x1000_0000_0000_0000_0000 <= out <= 0x1000_0000_0000_0000_0000,
{
    proof {
        lemma_mul_bound(COEFF as int, lab.0 as int, COEFF as int, 0x8000_0000);
        lemma_mul_bound(k0 as int, lab.1 as int, 13_000_000_000, 0x8000_0000);
        lemma_mul_bound(k1 as int, lab.2 as int, 13_000_000_000, 0x8000_0000);
    }
    let num: i128 = (COEFF * lab.0 + k0 * lab.1 + k1 * lab.2) * 256;
    let bound: i128 = 0x200_0000_0000;
    proof {
        lemma_div_floor_monotone(-(bound * COEFF), num as int, COEFF as int);
        lemma_div_floor_monotone(num as int, bound * COEFF, COEFF as int);
        lemma_div_floor_unique(-(bound * COEFF), COEFF as int, -bound);
        lemma_div_floor_unique(bound * COEFF, COEFF as int, bound as int);
    }
    let root: i128 = div_floor(num, COEFF);
    proof {
        lemma_mul_bound(root as int, root as int, bound as int, bound as int);
        lemma_mul_bound(root * root, root as int, bound * bound, bound as int);
    }
    let cubed: i128 = root * root * root;
    let fine2: i128 = FINE * FINE;
    proof {
        let top: int = bound * bound * bound;
        lemma_div_floor_monotone(-top, cubed as int, fine2 as int);
        lemma_div_floor_monotone(cubed as int, top, fine2 as int);
        lemma_div_floor_unique(-top, fine2 as int, -0x800_0000_0000_0000_0000);
        lemma_div_floor_unique(top, fine2 as int, 0x800_0000_0000_0000_0000);
    }
    div_floor(cubed, fine2)
}

/// A weighted sum of cone responses, rounded down to the lattice.
fn linear_of(k0: i128, k1: i128, k2: i128, cones: (i128, i128, i128)) -> (out: i128)
    requires
        -0x10_0000_0000 <= k0 <= 0x10_0000_0000,
        -0x10_0000_0000 <= k1 <= 0x10_0000_0000,
        -0x10_0000_0000 <= k2 <= 0x10_0000_0000,
        -0x1000_0000_0000_0000_0000 <= cones.0 <= 0x1000_0000_0000_0000_0000,
        -0x1000_0000_0000_0000_0000 <= cones.1 <= 0x1000_0000_0000_0000_0000,
        -0x1000_0000_0000_0000_0000 <= cones.2 <= 0x1000_0000_0000_0000_0000,
    ensures
        out == to_lattice(
            (k0 as int, k1 as int, k2 as int),
            (cones.0 as int, cones.1 as int, cones.2 as int),
        ),
{
    let sum = weighted_sum(k0, k1, k2, cones, 0x1000_0000_0000_0000_0000);
    div_floor(sum, COEFF * 256)
}

/// The linear-light red, green and blue of an OKLab color, not limited to
/// the range from zero to one.
pub fn oklab_linear(lab: [Fixed; 3]) -> (lin: (i128, i128, i128))
    ensures
        (lin.0 as int, lin.1 as int, lin.2 as int) == oklab_to_linear(raw3(lab)),
{
    let v: (i128, i128, i128) = (lab[0].raw as i128, lab[1].raw as i128, lab[2].raw as i128);
    let cones = (
        cone_cubed_of(3963377800, 2158037600, v),
        cone_cubed_of(-1055613460, -638541700, v),
        cone_cubed_of(-894841800, -12914856000, v),
    );
    (
        linear_of(40767417000, -33077116000, 2309699300, cones),
        linear_of(-12684380000, 26097574000, -3413194000, cones),
        linear_of(-41960863, -7034186000, 17076147000, cones),
    )
}

/// The encoded level of a linear-light value of any size.
fn encode_wide(x: i128) -> (level: u8)
    ensures
        level == linear_to_srgb(x as int),
{
    proof {
        lemma_encode_limits(x as int);
    }
    if x < 0 {
        0
    } else if x > ONE as i128 {
        255
    } else {
        encode_level(x as i64)
    }
}

/// Whether linear-light red, green and blue all lie in the gamut.
pub fn is_in_gamut(lin: (i128, i128, i128)) -> (yes: bool)
    ensures
        yes == in_gamut((lin.0 as int, lin.1 as int, lin.2 as int)),
{
    let lo: i128 = -(GAMUT_SLACK as i128);
    let hi: i128 = (ONE + GAMUT_SLACK) as i128;
    lo <= lin.0 && lin.0 <= hi && lo <= lin.1 && lin.1 <= hi && lo <= lin.2 && lin.2 <= hi
}

impl Color {
    /// The OKLab coordinates of the color: lightness and the two opponent
    /// axes. Alpha is not looked at.
    pub fn into_oklab(self) -> (lab: [Fixed; 3])
        ensures
            raw3(lab) == into_oklab_spec(self),
            crate::fixed::within(raw3(lab), -0x40_0000, 0x40_0000),
    {
        let lin = (
            Self::decode_srgb(self.r).raw as i128,
            Self::decode_srgb(self.g).raw as i128,
            Self::decode_srgb(self.b).raw as i128,
        );
        let roots = (
            cone_root_of(4122214700, 5363325400, 514459930, lin),
            cone_root_of(2119035000, 6806996000, 1073969600, lin),
            cone_root_of(883024600, 2817188400, 6299787000, lin),
        );
        [
            to_nearest_of(2104542600, 7936178000, -40720470, roots),
            to_nearest_of(19779985000, -24285922000, 4505937000, roots),
            to_nearest_of(259040370, 7827717700, -8086757700, roots),
        ]
    }

    /// The opaque color of OKLab coordinates. Channels outside the sRGB
    /// gamut are limited to it one by one.
    pub fn from_oklab(lab: [Fixed; 3]) -> (c: Color)
        ensures
            c == from_oklab_spec(raw3(lab)),
    {
        let lin = oklab_linear(lab);
        Color { r: encode_wide(lin.0), g: encode_wide(lin.1), b: encode_wide(lin.2), a: 255 }
    }
}

} // verus!
