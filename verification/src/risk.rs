//! Risk scores: IEEE 754 double-precision numbers, held as their bits.

use vstd::prelude::*;

verus! {

/// The bit that holds the sign; the bits below it are the magnitude.
pub const SIGN_BIT: u64 = 0x8000_0000_0000_0000;

/// The magnitude of infinity. Every larger magnitude is not a number.
pub const INFINITY_BITS: u64 = 0x7ff0_0000_0000_0000;

/// The bits of the number two.
pub const TWO_BITS: u64 = 0x4000_0000_0000_0000;

/// A double-precision number, held as its bits.
#[derive(Debug, Clone, Copy, PartialEq, Eq, Structural)]
pub struct RiskScore {
    pub bits: u64,
}

impl RiskScore {
    /// Whether the sign bit is set.
    pub open spec fn negative(self) -> bool {
        self.bits >= SIGN_BIT
    }

    /// The bits below the sign bit. Of two numbers of one sign, the one that is farther from
    /// zero has the larger magnitude.
    pub open spec fn magnitude(self) -> int {
        if self.negative() {
            self.bits - SIGN_BIT
        } else {
            self.bits as int
        }
    }

    /// Whether this is not a number.
    pub open spec fn is_nan(self) -> bool {
        self.magnitude() > INFINITY_BITS
    }

    /// Where a number stands among the numbers. Both zeros stand at zero.
    pub open spec fn number_rank(self) -> int {
        if self.negative() {
            -self.magnitude()
        } else {
            self.magnitude()
        }
    }

    /// Whether `self <= other` as numbers; nothing compares to what is not a number.
    pub open spec fn at_most(self, other: RiskScore) -> bool {
        !self.is_nan() && !other.is_nan() && self.number_rank() <= other.number_rank()
    }

    /// Where any value stands in IEEE 754's total order, in which negative zero comes before
    /// positive zero and what is not a number comes at either end.
    pub open spec fn total_rank(self) -> int {
        if self.negative() {
            -self.magnitude() - 1
        } else {
            self.magnitude()
        }
    }

    fn magnitude_bits(self) -> (r: u64)
        ensures
            r == self.magnitude(),
            r < SIGN_BIT,
    {
        if self.bits >= SIGN_BIT {
            self.bits - SIGN_BIT
        } else {
            self.bits
        }
    }

    /// Whether `self <= other` as numbers.
    pub fn le(self, other: RiskScore) -> (r: bool)
        ensures
            r == self.at_most(other),
    {
        let a: u64 = self.magnitude_bits();
        let b: u64 = other.magnitude_bits();
        if a > INFINITY_BITS || b > INFINITY_BITS {
            return false;
        }
        if self.bits >= SIGN_BIT {
            if other.bits >= SIGN_BIT {
                a >= b
            } else {
                true
            }
        } else if other.bits >= SIGN_BIT {
            a == 0 && b == 0
        } else {
            a <= b
        }
    }

    /// Compares in IEEE 754's total order: negative, zero or positive as `self` comes before, is
    /// equal to or comes after `other`.
    pub fn total_compare(self, other: RiskScore) -> (r: i8)
        ensures
            -1 <= r <= 1,
            r < 0 <==> self.total_rank() < other.total_rank(),
            r == 0 <==> self == other,
            r > 0 <==> self.total_rank() > other.total_rank(),
    {
        let a: u64 = self.magnitude_bits();
        let b: u64 = other.magnitude_bits();
        let left_first: bool = if self.bits >= SIGN_BIT {
            other.bits < SIGN_BIT || a > b
        } else {
            other.bits < SIGN_BIT && a < b
        };
        if self.bits == other.bits {
            0
        } else if left_first {
            -1
        } else {
            1
        }
    }
}

/// Numbers are ordered by `<=`: each is at most itself, one of any two is at most the other, and
/// the order carries over.
pub proof fn law_numbers_are_ordered(a: RiskScore, b: RiskScore, c: RiskScore)
    requires
        !a.is_nan(),
        !b.is_nan(),
        !c.is_nan(),
    ensures
        a.at_most(a),
        a.at_most(b) || b.at_most(a),
        a.at_most(b) && b.at_most(c) ==> a.at_most(c),
        a.at_most(b) && b.at_most(a) ==> a == b || (a.magnitude() == 0 && b.magnitude() == 0),
{
}

/// What is not a number is at most nothing, and nothing is at most it.
pub proof fn law_nan_compares_to_nothing(a: RiskScore, b: RiskScore)
    requires
        a.is_nan(),
    ensures
        !a.at_most(b),
        !b.at_most(a),
{
}

/// The total order tells any two values apart, and orders numbers as `<=` does.
pub proof fn law_total_order_extends_numbers(a: RiskScore, b: RiskScore)
    ensures
        a.total_rank() == b.total_rank() <==> a == b,
        !a.is_nan() && !b.is_nan() && a.total_rank() <= b.total_rank() ==> a.at_most(b),
{
}

} // verus!
