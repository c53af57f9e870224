//! Double-precision numbers as bit patterns, with an exact account of how they compare.

use vstd::prelude::*;

verus! {

/// Bits of the sign alone; a pattern at or above it is negative.
pub const SIGN_BITS: u64 = 0x8000_0000_0000_0000;

/// Bits of positive infinity; a larger magnitude is a NaN.
pub const INFINITY_BITS: u64 = 0x7ff0_0000_0000_0000;

/// An IEEE-754 binary64 number, held as its bit pattern.
#[derive(Clone, Copy, Debug, PartialEq, Eq, Structural)]
pub struct Scalar {
    /// The bit pattern: sign, eleven exponent bits, fifty-two fraction bits.
    pub bits: u64,
}

impl Scalar {
    /// The number with the sign bit cleared, as an integer.
    pub open spec fn magnitude(self) -> int {
        if self.bits >= SIGN_BITS {
            self.bits - SIGN_BITS
        } else {
            self.bits as int
        }
    }

    /// An integer that orders numbers as their values do; both zeros map to 0.
    pub open spec fn rank(self) -> int {
        if self.bits >= SIGN_BITS {
            -self.magnitude()
        } else {
            self.magnitude()
        }
    }

    /// Neither a number nor an infinity.
    pub open spec fn nan(self) -> bool {
        self.magnitude() > INFINITY_BITS
    }

    /// Neither infinite nor NaN.
    pub open spec fn finite(self) -> bool {
        self.magnitude() < INFINITY_BITS
    }

    /// `a < b`; false whenever a NaN takes part.
    pub open spec fn below(self, other: Scalar) -> bool {
        !self.nan() && !other.nan() && self.rank() < other.rank()
    }

    /// `a <= b`; false whenever a NaN takes part.
    pub open spec fn at_most(self, other: Scalar) -> bool {
        !self.nan() && !other.nan() && self.rank() <= other.rank()
    }

    /// `a == b` as numbers: the two zeros are equal, a NaN equals nothing.
    pub open spec fn same_value(self, other: Scalar) -> bool {
        !self.nan() && !other.nan() && self.rank() == other.rank()
    }

    /// `|a|`.
    pub open spec fn magnitude_of(self) -> Scalar {
        if self.bits >= SIGN_BITS {
            Scalar { bits: (self.bits - SIGN_BITS) as u64 }
        } else {
            self
        }
    }

    /// `-a`.
    pub open spec fn negated(self) -> Scalar {
        if self.bits >= SIGN_BITS {
            Scalar { bits: (self.bits - SIGN_BITS) as u64 }
        } else {
            Scalar { bits: (self.bits + SIGN_BITS) as u64 }
        }
    }

    /// The larger of the two; where one is NaN, the other.
    pub open spec fn larger(self, other: Scalar) -> Scalar {
        if self.nan() {
            other
        } else if other.nan() {
            self
        } else if self.rank() < other.rank() {
            other
        } else {
            self
        }
    }

    /// The number moved into `[lo, hi]`; a NaN stays as it is.
    pub open spec fn clamped(self, lo: Scalar, hi: Scalar) -> Scalar {
        if self.below(lo) {
            lo
        } else if hi.below(self) {
            hi
        } else {
            self
        }
    }

    /// Within `[lo, hi]`, both ends included.
    pub open spec fn within(self, lo: Scalar, hi: Scalar) -> bool {
        lo.at_most(self) && self.at_most(hi)
    }

    /// The number with the given bit pattern.
    pub fn from_bits(bits: u64) -> (r: Scalar)
        ensures
            r == (Scalar { bits }),
    {
        Scalar { bits }
    }

    /// The bit pattern.
    pub fn to_bits(self) -> (r: u64)
        ensures
            r == self.bits,
    {
        self.bits
    }

    fn unsigned(self) -> (r: u64)
        ensures
            r == self.magnitude(),
    {
        if self.bits >= SIGN_BITS {
            self.bits - SIGN_BITS
        } else {
            self.bits
        }
    }

    /// Whether this is a NaN.
    pub fn is_nan(self) -> (r: bool)
        ensures
            r == self.nan(),
    {
        self.unsigned() > INFINITY_BITS
    }

    /// Whether this is neither infinite nor NaN.
    pub fn is_finite(self) -> (r: bool)
        ensures
            r == self.finite(),
    {
        self.unsigned() < INFINITY_BITS
    }

    /// `self < other`.
    pub fn lt(self, other: Scalar) -> (r: bool)
        ensures
            r == self.below(other),
    {
        if self.is_nan() || other.is_nan() {
            return false;
        }
        let a: u64 = self.unsigned();
        let b: u64 = other.unsigned();
        if self.bits >= SIGN_BITS {
            if other.bits >= SIGN_BITS {
                b < a
            } else {
                a != 0 || b != 0
            }
        } else if other.bits >= SIGN_BITS {
            false
        } else {
            a < b
        }
    }

    /// `self <= other`.
    pub fn le(self, other: Scalar) -> (r: bool)
        ensures
            r == self.at_most(other),
    {
        if self.is_nan() || other.is_nan() {
            return false;
        }
        !other.lt(self)
    }

    /// `self == other` as numbers.
    pub fn num_eq(self, other: Scalar) -> (r: bool)
        ensures
            r == self.same_value(other),
    {
        self.le(other) && other.le(self)
    }

    /// `|self|`.
    pub fn abs(self) -> (r: Scalar)
        ensures
            r == self.magnitude_of(),
    {
        Scalar { bits: self.unsigned() }
    }

    /// `-self`.
    pub fn neg(self) -> (r: Scalar)
        ensures
            r == self.negated(),
    {
        if self.bits >= SIGN_BITS {
            Scalar { bits: self.bits - SIGN_BITS }
        } else {
            Scalar { bits: self.bits + SIGN_BITS }
        }
    }

    /// The larger of the two; where one is NaN, the other.
    pub fn max(self, other: Scalar) -> (r: Scalar)
        ensures
            r == self.larger(other),
    {
        if self.is_nan() {
            other
        } else if other.is_nan() {
            self
        } else if self.lt(other) {
            other
        } else {
            self
        }
    }

    /// The number moved into `[lo, hi]`; a NaN stays as it is.
    pub fn clamp(self, lo: Scalar, hi: Scalar) -> (r: Scalar)
        ensures
            r == self.clamped(lo, hi),
    {
        if self.lt(lo) {
            lo
        } else if hi.lt(self) {
            hi
        } else {
            self
        }
    }

    /// Whether `lo <= self <= hi`.
    pub fn in_range(self, lo: Scalar, hi: Scalar) -> (r: bool)
        ensures
            r == self.within(lo, hi),
    {
        lo.le(self) && self.le(hi)
    }

    /// Zero.
    #[verifier::allow_in_spec]
    pub fn zero() -> Scalar
        returns
            (Scalar { bits: 0 }),
    {
        Scalar { bits: 0 }
    }

    /// One.
    #[verifier::allow_in_spec]
    pub fn one() -> Scalar
        returns
            (Scalar { bits: 0x3ff0_0000_0000_0000 }),
    {
        Scalar { bits: 0x3ff0_0000_0000_0000 }
    }
}

/// Clamping a number that is not NaN between ordered bounds lands between them.
pub proof fn clamped_is_within(x: Scalar, lo: Scalar, hi: Scalar)
    requires
        !x.nan(),
        lo.at_most(hi),
    ensures
        x.clamped(lo, hi).within(lo, hi),
{
}

/// Of any two numbers that are not NaN, one is below the other or they are equal.
pub proof fn order_is_total(a: Scalar, b: Scalar)
    requires
        !a.nan(),
        !b.nan(),
    ensures
        a.below(b) || a.same_value(b) || b.below(a),
        a.at_most(b) == !b.below(a),
{
}

} // verus!
