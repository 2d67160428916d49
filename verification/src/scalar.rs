//! Single-precision values carried by their bit patterns.
//!
//! The library ranks and filters scores; it never does arithmetic on them. A
//! [`Scalar`] therefore holds the 32 bits of an IEEE 754 binary32 value, and
//! this module states, over integers, how such values are classified and
//! ordered: the numeric comparison, in which a NaN compares with nothing and
//! the two zeros are equal, and the total order, in which every bit pattern
//! has its place.

use vstd::prelude::*;

verus! {

/// Bit of the sign.
pub const SIGN_BIT: u32 = 0x8000_0000;

/// Bits of positive infinity: all exponent bits set, no fraction bit.
pub const INFINITY_BITS: u32 = 0x7f80_0000;

/// Bits of negative infinity.
pub const NEG_INFINITY_BITS: u32 = 0xff80_0000;

/// A binary32 value, carried by its bit pattern.
///
/// `==` compares bit patterns: a NaN equals itself, and the two zeros
/// differ. For the numeric comparison use [`Scalar::less_eq`] and its kin.
#[derive(Clone, Copy, Debug, PartialEq, Eq)]
pub struct Scalar {
    pub bits: u32,
}

impl Scalar {
    /// The bits without the sign: exponent and fraction, read as one number.
    pub open spec fn magnitude(self) -> int {
        if self.bits >= SIGN_BIT {
            self.bits - SIGN_BIT
        } else {
            self.bits as int
        }
    }

    /// Whether the sign bit is set.
    pub open spec fn is_negative(self) -> bool {
        self.bits >= SIGN_BIT
    }

    /// Whether the value is a NaN.
    pub open spec fn is_nan(self) -> bool {
        self.magnitude() > INFINITY_BITS
    }

    /// Whether the value is neither an infinity nor a NaN.
    pub open spec fn is_finite(self) -> bool {
        self.magnitude() < INFINITY_BITS
    }

    /// Whether the value is the negative infinity.
    pub open spec fn is_neg_infinity(self) -> bool {
        self.bits == NEG_INFINITY_BITS
    }

    /// Position in the numeric order, for values other than NaN. Both zeros
    /// share position 0.
    pub open spec fn numeric_key(self) -> int {
        if self.is_negative() {
            -self.magnitude()
        } else {
            self.magnitude()
        }
    }

    /// Position in the total order: negative NaNs, negative infinity, the
    /// negative numbers, negative zero, positive zero, the positive numbers,
    /// positive infinity, positive NaNs.
    pub open spec fn total_key(self) -> int {
        if self.is_negative() {
            -self.magnitude() - 1
        } else {
            self.magnitude()
        }
    }

    /// Numeric `<`: false whenever a NaN takes part.
    pub open spec fn lt(self, other: Scalar) -> bool {
        !self.is_nan() && !other.is_nan() && self.numeric_key() < other.numeric_key()
    }

    /// Numeric `<=`: false whenever a NaN takes part.
    pub open spec fn le(self, other: Scalar) -> bool {
        !self.is_nan() && !other.is_nan() && self.numeric_key() <= other.numeric_key()
    }

    /// Numeric `>`: false whenever a NaN takes part.
    pub open spec fn gt(self, other: Scalar) -> bool {
        other.lt(self)
    }

    /// Numeric `>=`: false whenever a NaN takes part.
    pub open spec fn ge(self, other: Scalar) -> bool {
        other.le(self)
    }

    /// The value with the given bit pattern.
    pub fn from_bits(bits: u32) -> (s: Scalar)
        ensures
            s.bits == bits,
    {
        Scalar { bits }
    }

    /// The bit pattern of the value.
    pub fn to_bits(self) -> (bits: u32)
        ensures
            bits == self.bits,
    {
        self.bits
    }

    /// Positive zero.
    pub fn zero() -> (s: Scalar)
        ensures
            s.bits == 0,
    {
        Scalar { bits: 0 }
    }

    /// Negative infinity.
    pub fn neg_infinity() -> (s: Scalar)
        ensures
            s.bits == NEG_INFINITY_BITS,
            s.is_neg_infinity(),
    {
        Scalar { bits: NEG_INFINITY_BITS }
    }

    fn magnitude_bits(self) -> (m: u32)
        ensures
            m == self.magnitude(),
            m < SIGN_BIT,
    {
        if self.bits >= SIGN_BIT {
            self.bits - SIGN_BIT
        } else {
            self.bits
        }
    }

    /// Position in the numeric order, as a machine integer.
    fn numeric_rank(self) -> (k: i64)
        ensures
            k == self.numeric_key(),
    {
        let m: i64 = self.magnitude_bits() as i64;
        if self.bits >= SIGN_BIT {
            -m
        } else {
            m
        }
    }

    /// Position in the total order, as a machine integer.
    pub fn total_rank(self) -> (k: i64)
        ensures
            k == self.total_key(),
    {
        let m: i64 = self.magnitude_bits() as i64;
        if self.bits >= SIGN_BIT {
            -m - 1
        } else {
            m
        }
    }

    /// Whether the value is a NaN.
    pub fn check_nan(self) -> (b: bool)
        ensures
            b == self.is_nan(),
    {
        self.magnitude_bits() > INFINITY_BITS
    }

    /// Whether the value is neither an infinity nor a NaN.
    pub fn check_finite(self) -> (b: bool)
        ensures
            b == self.is_finite(),
    {
        self.magnitude_bits() < INFINITY_BITS
    }

    /// Whether the value is the negative infinity.
    pub fn check_neg_infinity(self) -> (b: bool)
        ensures
            b == self.is_neg_infinity(),
    {
        self.bits == NEG_INFINITY_BITS
    }

    /// The value itself where it is finite, negative infinity where it is not.
    pub open spec fn finite_or_lowest(self) -> Scalar {
        if self.is_finite() {
            self
        } else {
            Scalar { bits: NEG_INFINITY_BITS }
        }
    }

    /// Replaces a value that is not finite by negative infinity.
    pub fn sanitized(self) -> (s: Scalar)
        ensures
            s == self.finite_or_lowest(),
    {
        if self.check_finite() {
            self
        } else {
            Scalar { bits: NEG_INFINITY_BITS }
        }
    }

    /// The value without its sign.
    pub open spec fn abs(self) -> Scalar {
        Scalar { bits: self.magnitude() as u32 }
    }

    /// The value without its sign.
    pub fn absolute(self) -> (s: Scalar)
        ensures
            s == self.abs(),
    {
        Scalar { bits: self.magnitude_bits() }
    }

    /// Numeric `<`.
    pub fn less(self, other: Scalar) -> (b: bool)
        ensures
            b == self.lt(other),
    {
        !self.check_nan() && !other.check_nan() && self.numeric_rank() < other.numeric_rank()
    }

    /// Numeric `<=`.
    pub fn less_eq(self, other: Scalar) -> (b: bool)
        ensures
            b == self.le(other),
    {
        !self.check_nan() && !other.check_nan() && self.numeric_rank() <= other.numeric_rank()
    }

    /// Numeric `>`.
    pub fn greater(self, other: Scalar) -> (b: bool)
        ensures
            b == self.gt(other),
    {
        other.less(self)
    }

    /// Numeric `>=`.
    pub fn greater_eq(self, other: Scalar) -> (b: bool)
        ensures
            b == self.ge(other),
    {
        other.less_eq(self)
    }
}

/// Two values with the same place in the total order have the same bits.
pub proof fn lemma_total_key_injective(a: Scalar, b: Scalar)
    requires
        a.total_key() == b.total_key(),
    ensures
        a == b,
{
}

/// On values that are not NaN the total order refines the numeric order: it
/// differs only in putting negative zero before positive zero.
pub proof fn lemma_total_refines_numeric(a: Scalar, b: Scalar)
    requires
        !a.is_nan(),
        !b.is_nan(),
    ensures
        a.lt(b) ==> a.total_key() < b.total_key(),
        a.total_key() <= b.total_key() ==> a.le(b),
{
}

} // verus!
