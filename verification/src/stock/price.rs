//! Prices as the library holds them.
//!
//! A price is a single-precision number of the IEEE 754 standard. The
//! library never computes with it: it carries the 32 bits of its encoding
//! from the caller to the caller, and reads from them only how two prices
//! compare. A price is therefore a `Level` and no `Number`.

use vstd::prelude::*;
use crate::number::Level;

verus! {

/// A single-precision price, held as the bits of its encoding: the sign in
/// the highest bit, below it the magnitude (exponent, then fraction).
#[derive(Clone, Copy, Debug, PartialEq, Eq, Structural)]
pub struct Price {
    pub bits: u32,
}

/// The bits below the sign: the encoded magnitude.
pub open spec fn magnitude(bits: u32) -> int {
    if bits >= 0x8000_0000 {
        bits - 0x8000_0000
    } else {
        bits as int
    }
}

/// The encoding is no number: its exponent is all ones and its fraction is
/// not zero. It compares with nothing, itself included.
pub open spec fn is_nan(bits: u32) -> bool {
    magnitude(bits) > 0x7f80_0000
}

/// Where a number stands among the numbers: encodings of numbers are
/// ordered as their magnitudes are, upwards above zero and downwards below
/// it, and both zeros stand at 0.
pub open spec fn rank(bits: u32) -> int {
    if bits >= 0x8000_0000 {
        -magnitude(bits)
    } else {
        magnitude(bits)
    }
}

impl Level for Price {
    /// `self` is less than `other`, as numbers: both are numbers, and
    /// `self` stands lower.
    open spec fn under(self, other: Price) -> bool {
        !is_nan(self.bits) && !is_nan(other.bits) && rank(self.bits) < rank(other.bits)
    }

    fn below(self, other: Price) -> (r: bool) {
        !self.is_nan() && !other.is_nan() && self.rank() < other.rank()
    }
}

/// Prices that are numbers are totally ordered, the two zeros standing
/// together; what is no number compares with nothing.
pub proof fn lemma_prices_are_ordered(a: Price, b: Price, c: Price)
    ensures
        !a.under(a),
        a.under(b) && b.under(c) ==> a.under(c),
        !is_nan(a.bits) && !is_nan(b.bits) ==> a.under(b) || b.under(a) || rank(a.bits) == rank(
            b.bits,
        ),
        is_nan(a.bits) ==> !a.under(b) && !b.under(a),
{
}

impl Price {
    /// The price with the given encoding.
    pub fn from_bits(bits: u32) -> (p: Price)
        ensures
            p.bits == bits,
    {
        Price { bits }
    }

    /// The encoding of the price.
    pub fn to_bits(self) -> (bits: u32)
        ensures
            bits == self.bits,
    {
        self.bits
    }

    /// Whether the price is no number.
    pub fn is_nan(self) -> (r: bool)
        ensures
            r == is_nan(self.bits),
    {
        let m: u32 = if self.bits >= 0x8000_0000 {
            self.bits - 0x8000_0000
        } else {
            self.bits
        };
        m > 0x7f80_0000
    }

    /// Where the price stands among the numbers.
    fn rank(self) -> (r: i64)
        ensures
            r == rank(self.bits),
    {
        if self.bits >= 0x8000_0000 {
            -((self.bits - 0x8000_0000) as i64)
        } else {
            self.bits as i64
        }
    }

    /// Whether `self` is less than `other`.
    pub fn lt(self, other: Price) -> (r: bool)
        ensures
            r == self.under(other),
    {
        self.below(other)
    }

    /// Whether `self` is greater than `other`.
    pub fn gt(self, other: Price) -> (r: bool)
        ensures
            r == other.under(self),
    {
        other.below(self)
    }
}

} // verus!
