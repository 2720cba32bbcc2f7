//! Signed fixed-point numbers with sixteen fractional bits.

use vstd::prelude::*;

verus! {

/// The raw value of the fixed-point number one.
pub const ONE: i32 = 65536;

/// A signed fixed-point number: `raw / 65536`.
///
/// The range is from -32768 up to, but not including, 32768, in steps of
/// 1/65536. Linear-light channel values, interpolation factors, hue angles in
/// degrees and percentages are all carried in this one type.
#[derive(Clone, Copy, Debug, PartialEq, Eq, Hash)]
pub struct Fixed {
    pub raw: i32,
}

impl Fixed {
    /// Whether the number lies between zero and one, both included.
    pub open spec fn is_unit(self) -> bool {
        0 <= self.raw <= ONE
    }

    /// The number with the given raw value.
    pub fn from_raw(raw: i32) -> (x: Fixed)
        ensures
            x.raw == raw,
    {
        Fixed { raw }
    }

    /// The whole number `n`.
    pub fn from_int(n: i16) -> (x: Fixed)
        ensures
            x.raw == n * ONE,
    {
        Fixed { raw: (n as i32) * ONE }
    }
}

/// What three fixed-point numbers stand for in contracts: their raw values.
pub open spec fn raw3(a: [Fixed; 3]) -> (int, int, int) {
    (a[0].raw as int, a[1].raw as int, a[2].raw as int)
}

/// Whether each of three raw values lies between `lo` and `hi`.
pub open spec fn within(c: (int, int, int), lo: int, hi: int) -> bool {
    lo <= c.0 <= hi && lo <= c.1 <= hi && lo <= c.2 <= hi
}

/// `num / den` rounded down, as a fixed-point number.
pub fn quotient(num: i128, den: i128) -> (x: Fixed)
    requires
        0 < den <= 0x1_0000_0000_0000_0000_0000,
        -0x8000_0000 * den <= num < 0x8000_0000 * den,
    ensures
        x.raw == num / den,
{
    let q = crate::arith::div_floor(num, den);
    proof {
        crate::arith::lemma_div_floor_monotone(-0x8000_0000 * den, num as int, den as int);
        crate::arith::lemma_div_floor_monotone(num as int, 0x8000_0000 * den - 1, den as int);
        crate::arith::lemma_div_floor_unique(-0x8000_0000 * den, den as int, -0x8000_0000);
        crate::arith::lemma_div_floor_unique(0x8000_0000 * den - 1, den as int, 0x7fff_ffff);
    }
    Fixed { raw: q as i32 }
}

} // verus!
