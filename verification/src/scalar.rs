//! Single-precision numbers as bit patterns.
//!
//! The order of two IEEE 754 numbers can be read off their bits: the sign is the
//! top bit, and below it the exponent and the fraction together grow with the
//! magnitude. That is all the library needs of them: it compares them, tests
//! them for being finite and copies them. Arithmetic on them is done elsewhere.

use vstd::prelude::*;

verus! {

/// The bit that holds the sign.
pub const SIGN_BIT: u32 = 0x8000_0000;

/// The bits of positive infinity.
pub const INFINITY_BITS: u32 = 0x7f80_0000;

/// The bits of one.
pub const ONE_BITS: u32 = 0x3f80_0000;

/// The bits of sixteen.
pub const SIXTEEN_BITS: u32 = 0x4180_0000;

/// A single-precision number, held as its bit pattern.
#[derive(Debug, Clone, Copy, PartialEq, Eq, Structural)]
pub struct Scalar {
    pub bits: u32,
}

impl Scalar {
    /// Exponent and fraction: the bits below the sign.
    pub open spec fn magnitude(self) -> int {
        if self.bits < SIGN_BIT {
            self.bits as int
        } else {
            self.bits - SIGN_BIT
        }
    }

    /// A number that is neither infinite nor NaN.
    pub open spec fn finite(self) -> bool {
        self.magnitude() < INFINITY_BITS
    }

    /// Not a number.
    pub open spec fn nan(self) -> bool {
        self.magnitude() > INFINITY_BITS
    }

    /// An integer that orders the numbers as their values do; both zeros have rank zero.
    pub open spec fn rank(self) -> int {
        if self.bits < SIGN_BIT {
            self.bits as int
        } else {
            SIGN_BIT - self.bits
        }
    }

    /// An integer that orders all bit patterns: negative NaN, negative numbers, minus
    /// zero, zero, positive numbers, NaN.
    pub open spec fn total_rank(self) -> int {
        if self.bits < SIGN_BIT {
            self.bits as int
        } else {
            SIGN_BIT - self.bits - 1
        }
    }

    /// `self < other` on the values; false where one is NaN.
    pub open spec fn below(self, other: Scalar) -> bool {
        !self.nan() && !other.nan() && self.rank() < other.rank()
    }

    /// `self <= other` on the values; false where one is NaN.
    pub open spec fn at_most(self, other: Scalar) -> bool {
        !self.nan() && !other.nan() && self.rank() <= other.rank()
    }

    /// The exponent of a finite number that is not negative: its value is the significand
    /// times two to the power of the exponent less 150.
    pub open spec fn exponent(self) -> int {
        let field = self.bits as int / 0x80_0000;
        if field == 0 {
            1
        } else {
            field
        }
    }

    /// The significand of a finite number that is not negative.
    pub open spec fn significand(self) -> int {
        let fraction = self.bits as int % 0x80_0000;
        if self.bits as int / 0x80_0000 == 0 {
            fraction
        } else {
            fraction + 0x80_0000
        }
    }

    /// The exponent of a number that is not negative.
    pub fn exponent_field(self) -> (r: u64)
        ensures
            r == self.exponent(),
            self.bits < ONE_BITS ==> 1 <= r <= 126,
    {
        let field: u32 = self.bits / 0x80_0000;
        if field == 0 {
            1
        } else {
            field as u64
        }
    }

    /// The significand of a number that is not negative.
    pub fn significand_value(self) -> (r: u64)
        ensures
            r == self.significand(),
            r < 0x100_0000,
            0 < self.bits < SIGN_BIT ==> 0 < r,
    {
        let fraction: u32 = self.bits % 0x80_0000;
        if self.bits / 0x80_0000 == 0 {
            fraction as u64
        } else {
            fraction as u64 + 0x80_0000
        }
    }

    /// Zero.
    pub fn zero() -> (r: Scalar)
        ensures
            r.bits == 0,
    {
        Scalar { bits: 0 }
    }

    /// One.
    pub fn one() -> (r: Scalar)
        ensures
            r.bits == ONE_BITS,
    {
        Scalar { bits: 0x3f80_0000 }
    }

    fn magnitude_bits(self) -> (r: u32)
        ensures
            r == self.magnitude(),
    {
        if self.bits < SIGN_BIT {
            self.bits
        } else {
            self.bits - SIGN_BIT
        }
    }

    /// Whether the number is neither infinite nor NaN.
    pub fn is_finite(self) -> (r: bool)
        ensures
            r == self.finite(),
    {
        self.magnitude_bits() < INFINITY_BITS
    }

    /// Whether this is NaN.
    pub fn is_nan(self) -> (r: bool)
        ensures
            r == self.nan(),
    {
        self.magnitude_bits() > INFINITY_BITS
    }

    fn rank_value(self) -> (r: i64)
        ensures
            r == self.rank(),
    {
        if self.bits < SIGN_BIT {
            self.bits as i64
        } else {
            0x8000_0000i64 - self.bits as i64
        }
    }

    /// `self < other` on the values.
    pub fn lt(self, other: Scalar) -> (r: bool)
        ensures
            r == self.below(other),
    {
        !self.is_nan() && !other.is_nan() && self.rank_value() < other.rank_value()
    }

    /// `self <= other` on the values.
    pub fn le(self, other: Scalar) -> (r: bool)
        ensures
            r == self.at_most(other),
    {
        !self.is_nan() && !other.is_nan() && self.rank_value() <= other.rank_value()
    }

    /// The rank in the order of all bit patterns.
    pub fn total_order(self) -> (r: i64)
        ensures
            r == self.total_rank(),
    {
        if self.bits < SIGN_BIT {
            self.bits as i64
        } else {
            0x7fff_ffffi64 - self.bits as i64
        }
    }

    /// `self` confined to `lo..=hi`.
    pub open spec fn confined(self, lo: Scalar, hi: Scalar) -> Scalar {
        if self.below(lo) {
            lo
        } else if hi.below(self) {
            hi
        } else {
            self
        }
    }

    /// `self` confined to `lo..=hi`.
    pub fn clamp_to(self, lo: Scalar, hi: Scalar) -> (r: Scalar)
        ensures
            r == self.confined(lo, hi),
    {
        if self.lt(lo) {
            lo
        } else if hi.lt(self) {
            hi
        } else {
            self
        }
    }
}

/// A confined number lies between the bounds.
pub proof fn law_confined_between(x: Scalar, lo: Scalar, hi: Scalar)
    requires
        !x.nan(),
        lo.at_most(hi),
    ensures
        lo.at_most(x.confined(lo, hi)),
        x.confined(lo, hi).at_most(hi),
{
}

/// Confining a number twice is confining it once.
pub proof fn law_confined_idempotent(x: Scalar, lo: Scalar, hi: Scalar)
    requires
        lo.at_most(hi),
    ensures
        x.confined(lo, hi).confined(lo, hi) == x.confined(lo, hi),
{
}

/// The order of all bit patterns refines the order of the values, and tells every two
/// patterns apart.
pub proof fn law_total_order_refines_value_order(a: Scalar, b: Scalar)
    ensures
        a.below(b) ==> a.total_rank() < b.total_rank(),
        a.total_rank() == b.total_rank() <==> a == b,
{
}

} // verus!
