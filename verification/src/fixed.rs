//! Decimal fixed-point numbers: whole counts of ten-thousandths.
//!
//! Sums, differences, products and quotients are exact where the result is
//! a whole count of ten-thousandths that fits; a product or quotient that
//! is not whole is cut off towards zero, a square root downwards, and a
//! result too large or too small to hold is the largest or the smallest
//! number. A quotient by zero is the largest number, the smallest or zero,
//! as the dividend is above zero, below it or zero.

use vstd::prelude::*;
use crate::number::{Level, Number};

verus! {

/// The units that make one whole.
pub const SCALE: i64 = 10_000;

/// A number of `units` ten-thousandths.
#[derive(Clone, Copy, Debug, PartialEq, Eq, Structural)]
pub struct Fixed {
    pub units: i64,
}

/// The count of units nearest to `v` that a number can hold.
pub open spec fn saturated(v: int) -> i64 {
    if v > i64::MAX {
        i64::MAX
    } else if v < i64::MIN {
        i64::MIN
    } else {
        v as i64
    }
}

/// `v` without its sign.
pub open spec fn magnitude(v: int) -> int {
    if v < 0 {
        -v
    } else {
        v
    }
}

/// `n / d`, cut off towards zero; for `d` zero, the whole range's end on the
/// side of `n`.
pub open spec fn truncated(n: int, d: int) -> int {
    if d == 0 {
        if n > 0 {
            i64::MAX as int
        } else if n < 0 {
            i64::MIN as int
        } else {
            0
        }
    } else if (n < 0) == (d < 0) {
        magnitude(n) / magnitude(d)
    } else {
        -(magnitude(n) / magnitude(d))
    }
}

/// `r` is the square root of `x`, cut off downwards.
pub open spec fn is_root(r: int, x: int) -> bool {
    r >= 0 && r * r <= x < (r + 1) * (r + 1)
}

/// The square root of `x`, cut off downwards.
pub open spec fn floor_root(x: int) -> int {
    choose|r: int| is_root(r, x)
}

/// A number has one square root cut off downwards, and no other.
pub proof fn lemma_root_is_unique(r: int, x: int)
    requires
        is_root(r, x),
    ensures
        floor_root(x) == r,
{
    let c = floor_root(x);
    assert(is_root(c, x));
    assert(c == r) by (nonlinear_arith)
        requires
            c >= 0,
            r >= 0,
            c * c <= x < (c + 1) * (c + 1),
            r * r <= x < (r + 1) * (r + 1),
    ;
}

/// The number nearest to `v` units.
fn saturate(v: i128) -> (r: Fixed)
    ensures
        r.units == saturated(v as int),
{
    if v > i64::MAX as i128 {
        Fixed { units: i64::MAX }
    } else if v < i64::MIN as i128 {
        Fixed { units: i64::MIN }
    } else {
        Fixed { units: v as i64 }
    }
}

/// `n / d`, cut off towards zero.
fn divide(n: i128, d: i128) -> (q: i128)
    requires
        -0x4000_0000_0000_0000_0000_0000_0000_0000 <= n <= 0x4000_0000_0000_0000_0000_0000_0000_0000,
        -0x4000_0000_0000_0000_0000_0000_0000_0000 <= d <= 0x4000_0000_0000_0000_0000_0000_0000_0000,
    ensures
        q == truncated(n as int, d as int),
{
    if d == 0 {
        return if n > 0 {
            i64::MAX as i128
        } else if n < 0 {
            i64::MIN as i128
        } else {
            0
        };
    }
    let a: u128 = if n < 0 {
        (-n) as u128
    } else {
        n as u128
    };
    let b: u128 = if d < 0 {
        (-d) as u128
    } else {
        d as u128
    };
    let q: u128 = a / b;
    assert(q <= a) by (nonlinear_arith)
        requires
            q == a / b,
            b >= 1,
    ;
    if (n < 0) == (d < 0) {
        q as i128
    } else {
        -(q as i128)
    }
}

/// The square root of `x`, cut off downwards.
fn root_of(x: u128) -> (r: u128)
    requires
        x < 0x4000_0000_0000_0000_0000,
    ensures
        r == floor_root(x as int),
        r < 0x80_0000_0000,
{
    let mut low: u128 = 0;
    let mut high: u128 = 0x80_0000_0000;
    assert(0x80_0000_0000 * 0x80_0000_0000 == 0x4000_0000_0000_0000_0000) by (nonlinear_arith);
    while high - low > 1
        invariant
            low < high <= 0x80_0000_0000,
            low * low <= x < high * high,
        decreases high - low,
    {
        let mid: u128 = low + (high - low) / 2;
        assert(mid * mid <= 0x80_0000_0000 * 0x80_0000_0000) by (nonlinear_arith)
            requires
                mid <= 0x80_0000_0000,
        ;
        if mid * mid <= x {
            low = mid;
        } else {
            high = mid;
        }
    }
    proof {
        assert(high == low + 1);
        lemma_root_is_unique(low as int, x as int);
    }
    low
}

impl Level for Fixed {
    open spec fn under(self, other: Fixed) -> bool {
        self.units < other.units
    }

    fn below(self, other: Fixed) -> (r: bool) {
        self.units < other.units
    }
}

impl Number for Fixed {
    open spec fn of_count(n: usize) -> Fixed {
        Fixed { units: saturated(n * SCALE) }
    }

    open spec fn sum(self, other: Fixed) -> Fixed {
        Fixed { units: saturated(self.units + other.units) }
    }

    open spec fn difference(self, other: Fixed) -> Fixed {
        Fixed { units: saturated(self.units - other.units) }
    }

    open spec fn product(self, other: Fixed) -> Fixed {
        Fixed { units: saturated(truncated(self.units * other.units, SCALE as int)) }
    }

    open spec fn quotient(self, other: Fixed) -> Fixed {
        Fixed { units: saturated(truncated(self.units * SCALE, other.units as int)) }
    }

    open spec fn square_root(self) -> Fixed {
        if self.units <= 0 {
            Fixed { units: 0 }
        } else {
            Fixed { units: floor_root(self.units * SCALE) as i64 }
        }
    }

    fn count(n: usize) -> (r: Fixed) {
        assert(n * 10_000 <= 0xffff_ffff_ffff_ffff * 10_000) by (nonlinear_arith)
            requires
                n <= 0xffff_ffff_ffff_ffff,
        ;
        saturate(n as i128 * SCALE as i128)
    }

    fn plus(self, other: Fixed) -> (r: Fixed) {
        saturate(self.units as i128 + other.units as i128)
    }

    fn minus(self, other: Fixed) -> (r: Fixed) {
        saturate(self.units as i128 - other.units as i128)
    }

    fn times(self, other: Fixed) -> (r: Fixed) {
        let a = self.units as i128;
        let b = other.units as i128;
        assert(-0x4000_0000_0000_0000_0000_0000_0000_0000 <= a * b
            <= 0x4000_0000_0000_0000_0000_0000_0000_0000) by (nonlinear_arith)
            requires
                -0x8000_0000_0000_0000 <= a <= 0x8000_0000_0000_0000,
                -0x8000_0000_0000_0000 <= b <= 0x8000_0000_0000_0000,
        ;
        saturate(divide(a * b, SCALE as i128))
    }

    fn over(self, other: Fixed) -> (r: Fixed) {
        let a = self.units as i128;
        assert(-0x4000_0000_0000_0000_0000_0000_0000_0000 <= a * 10_000
            <= 0x4000_0000_0000_0000_0000_0000_0000_0000) by (nonlinear_arith)
            requires
                -0x8000_0000_0000_0000 <= a <= 0x8000_0000_0000_0000,
        ;
        saturate(divide(a * SCALE as i128, other.units as i128))
    }

    fn root(self) -> (r: Fixed) {
        if self.units <= 0 {
            Fixed { units: 0 }
        } else {
            let x: u128 = self.units as u128 * SCALE as u128;
            Fixed { units: root_of(x) as i64 }
        }
    }
}

impl Fixed {
    /// The number of `units` ten-thousandths.
    pub fn from_units(units: i64) -> (r: Fixed)
        ensures
            r.units == units,
    {
        Fixed { units }
    }

    /// The ten-thousandths of the number.
    pub fn to_units(self) -> (units: i64)
        ensures
            units == self.units,
    {
        self.units
    }
}

} // verus!
