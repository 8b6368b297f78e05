//! Floating-point numbers by their place in the IEEE 754 total order.
//!
//! The sums and products of binary64 numbers are made outside of this library.
//! What is decided by them here needs only their order, which the integers of
//! this module carry.

use vstd::prelude::*;

verus! {

/// The place of positive infinity.
pub const INFINITY: i64 = 0x7FF0_0000_0000_0000;

/// The place of negative infinity.
pub const NEG_INFINITY: i64 = -0x7FF0_0000_0000_0001;

/// The place of the smallest positive number that is not subnormal.
pub const MIN_POSITIVE: i64 = 0x0010_0000_0000_0000;

/// The place of one.
pub const ONE: i64 = 0x3FF0_0000_0000_0000;

/// A binary64 number, held by its place in the total order: the bits of the
/// number, read as a signed integer, with all bits but the sign turned over
/// where the sign is set. Positive zero has the place 0 and negative zero -1.
#[derive(Debug, Clone, Copy, PartialEq, Eq, Structural)]
pub struct FloatKey {
    pub key: i64,
}

impl FloatKey {
    pub open spec fn nan(self) -> bool {
        self.key > INFINITY || self.key < NEG_INFINITY
    }

    pub open spec fn finite(self) -> bool {
        NEG_INFINITY < self.key < INFINITY
    }

    /// The place of the number in the order of numbers, in which the two zeros
    /// are one.
    pub open spec fn rank(self) -> int {
        if self.key < 0 {
            self.key + 1
        } else {
            self.key as int
        }
    }

    /// Whether `self < other` holds of the numbers: never where one is not a
    /// number.
    pub open spec fn lt(self, other: FloatKey) -> bool {
        !self.nan() && !other.nan() && self.rank() < other.rank()
    }

    /// Whether `self <= other` holds of the numbers: never where one is not a
    /// number.
    pub open spec fn le(self, other: FloatKey) -> bool {
        !self.nan() && !other.nan() && self.rank() <= other.rank()
    }

    /// The larger of two numbers; the other one where one is not a number.
    pub open spec fn larger(self, other: FloatKey) -> FloatKey {
        if self.nan() || self.lt(other) {
            other
        } else {
            self
        }
    }

    /// The smaller of two numbers; the other one where one is not a number.
    pub open spec fn smaller(self, other: FloatKey) -> FloatKey {
        if self.nan() || other.lt(self) {
            other
        } else {
            self
        }
    }

    /// Positive zero.
    pub fn zero() -> (r: FloatKey)
        ensures
            r.key == 0,
    {
        FloatKey { key: 0 }
    }

    /// One.
    pub fn one() -> (r: FloatKey)
        ensures
            r.key == ONE,
    {
        FloatKey { key: ONE }
    }

    /// The smallest positive number that is not subnormal.
    pub fn min_positive() -> (r: FloatKey)
        ensures
            r.key == MIN_POSITIVE,
    {
        FloatKey { key: MIN_POSITIVE }
    }

    /// Positive infinity.
    pub fn infinity() -> (r: FloatKey)
        ensures
            r.key == INFINITY,
    {
        FloatKey { key: INFINITY }
    }

    /// Negative infinity.
    pub fn neg_infinity() -> (r: FloatKey)
        ensures
            r.key == NEG_INFINITY,
    {
        FloatKey { key: NEG_INFINITY }
    }

    pub fn is_nan(self) -> (r: bool)
        ensures
            r == self.nan(),
    {
        self.key > INFINITY || self.key < NEG_INFINITY
    }

    pub fn is_finite(self) -> (r: bool)
        ensures
            r == self.finite(),
    {
        NEG_INFINITY < self.key && self.key < INFINITY
    }

    /// Whether `self < other` holds of the numbers.
    pub fn below(self, other: FloatKey) -> (r: bool)
        ensures
            r == self.lt(other),
    {
        if self.is_nan() || other.is_nan() {
            return false;
        }
        let a: i64 = if self.key < 0 {
            self.key + 1
        } else {
            self.key
        };
        let b: i64 = if other.key < 0 {
            other.key + 1
        } else {
            other.key
        };
        a < b
    }

    /// Whether `self <= other` holds of the numbers.
    pub fn at_most(self, other: FloatKey) -> (r: bool)
        ensures
            r == self.le(other),
    {
        !self.is_nan() && !other.is_nan() && !other.below(self)
    }

    /// The larger of two numbers; the other one where one is not a number.
    pub fn max(self, other: FloatKey) -> (r: FloatKey)
        ensures
            r == self.larger(other),
    {
        if self.is_nan() || self.below(other) {
            other
        } else {
            self
        }
    }

    /// The smaller of two numbers; the other one where one is not a number.
    pub fn min(self, other: FloatKey) -> (r: FloatKey)
        ensures
            r == self.smaller(other),
    {
        if self.is_nan() || other.below(self) {
            other
        } else {
            self
        }
    }
}

/// The order of numbers is that of their places, but that the two zeros are
/// one number and that nothing beyond the infinities is compared.
pub proof fn law_order_of_numbers(a: FloatKey, b: FloatKey)
    ensures
        a.nan() <==> a.key > 0x7FF0_0000_0000_0000 || a.key < -0x7FF0_0000_0000_0001,
        a.finite() <==> -0x7FF0_0000_0000_0001 < a.key && a.key < 0x7FF0_0000_0000_0000,
        a.lt(b) <==> -0x7FF0_0000_0000_0001 <= a.key && a.key < b.key && b.key
            <= 0x7FF0_0000_0000_0000 && !(a.key == -1 && b.key == 0),
        a.le(b) <==> a.lt(b) || (!a.nan() && a.key == b.key) || (a.key == 0 && b.key == -1) || (
        a.key == -1 && b.key == 0),
        !(a.lt(b) && b.lt(a)),
        !a.nan() && !b.nan() ==> a.lt(b) || b.le(a),
{
}

/// The larger and the smaller of two numbers are one of them each; neither is
/// above the larger or below the smaller. What is not a number gives way to the
/// other.
pub proof fn law_larger_and_smaller(a: FloatKey, b: FloatKey)
    ensures
        a.larger(b) == a || a.larger(b) == b,
        a.smaller(b) == a || a.smaller(b) == b,
        !a.larger(b).lt(a) && !a.larger(b).lt(b),
        !a.lt(a.smaller(b)) && !b.lt(a.smaller(b)),
        a.nan() ==> a.larger(b) == b && a.smaller(b) == b,
        !a.nan() && b.nan() ==> a.larger(b) == a && a.smaller(b) == a,
{
}

} // verus!
