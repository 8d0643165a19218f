//! Floating-point numbers as bit patterns.
//!
//! A number is carried as the bits of its IEEE 754 encoding. Comparing two of
//! them is a comparison of integers; arithmetic is not done here.

use vstd::prelude::*;

verus! {

/// A single-precision number, by its bits.
#[derive(Clone, Copy, PartialEq, Eq, Structural, Debug)]
pub struct F32 {
    pub bits: u32,
}

/// A double-precision number, by its bits.
#[derive(Clone, Copy, PartialEq, Eq, Structural, Debug)]
pub struct F64 {
    pub bits: u64,
}

/// The bits of one in double precision.
pub const ONE_64: u64 = 0x3ff0_0000_0000_0000;

/// The bits of positive infinity; a greater magnitude is no number.
pub const INFINITE: u32 = 0x7f80_0000;

/// The weight of the sign bit.
pub const SIGN: u32 = 0x8000_0000;

impl F32 {
    /// The bits without the sign.
    pub open spec fn magnitude(self) -> int {
        if self.bits < SIGN {
            self.bits as int
        } else {
            self.bits - SIGN
        }
    }

    /// Whether the bits encode no number.
    pub open spec fn nan(self) -> bool {
        self.magnitude() > INFINITE
    }

    /// An integer that orders the numbers as their values do. The two zeros
    /// share one.
    pub open spec fn rank(self) -> int {
        if self.bits < SIGN {
            self.bits as int
        } else {
            SIGN - self.bits
        }
    }

    /// `self < other` on the values: false where one of the two is no number.
    pub open spec fn below(self, other: F32) -> bool {
        !self.nan() && !other.nan() && self.rank() < other.rank()
    }

    /// `self <= other` on the values: false where one of the two is no number.
    pub open spec fn at_most(self, other: F32) -> bool {
        !self.nan() && !other.nan() && self.rank() <= other.rank()
    }

    /// `self == other` on the values: false where one of the two is no number.
    pub open spec fn same(self, other: F32) -> bool {
        !self.nan() && !other.nan() && self.rank() == other.rank()
    }

    /// The greater of two numbers; a number beats what is none.
    pub open spec fn greater(self, other: F32) -> F32 {
        if self.nan() {
            other
        } else if other.nan() {
            self
        } else if self.rank() < other.rank() {
            other
        } else {
            self
        }
    }

    /// The lesser of two numbers; a number beats what is none.
    pub open spec fn lesser(self, other: F32) -> F32 {
        if self.nan() {
            other
        } else if other.nan() {
            self
        } else if other.rank() < self.rank() {
            other
        } else {
            self
        }
    }

    /// An integer by which IEEE 754 orders all bit patterns totally: negative
    /// zero stands before positive zero, and what is no number stands outside
    /// the infinities.
    pub open spec fn total_rank(self) -> int {
        if self.bits < SIGN {
            self.bits as int
        } else {
            SIGN - self.bits - 1
        }
    }

    /// Whether the number is greater than zero.
    pub open spec fn positive(self) -> bool {
        !self.nan() && self.rank() > 0
    }

    fn rank_of(self) -> (r: i64)
        ensures
            r == self.rank(),
    {
        if self.bits < SIGN {
            self.bits as i64
        } else {
            SIGN as i64 - self.bits as i64
        }
    }

    /// Whether the bits encode no number.
    pub fn is_nan(self) -> (yes: bool)
        ensures
            yes == self.nan(),
    {
        if self.bits < SIGN {
            self.bits > INFINITE
        } else {
            self.bits - SIGN > INFINITE
        }
    }

    /// `self < other` on the values.
    pub fn lt(self, other: F32) -> (yes: bool)
        ensures
            yes == self.below(other),
    {
        !self.is_nan() && !other.is_nan() && self.rank_of() < other.rank_of()
    }

    /// `self <= other` on the values.
    pub fn le(self, other: F32) -> (yes: bool)
        ensures
            yes == self.at_most(other),
    {
        !self.is_nan() && !other.is_nan() && self.rank_of() <= other.rank_of()
    }

    /// `self == other` on the values.
    pub fn equals(self, other: F32) -> (yes: bool)
        ensures
            yes == self.same(other),
    {
        !self.is_nan() && !other.is_nan() && self.rank_of() == other.rank_of()
    }

    /// The greater of two numbers; a number beats what is none. Of the two
    /// zeros the first given is taken.
    pub fn max(self, other: F32) -> (m: F32)
        ensures
            m == self.greater(other),
    {
        if self.is_nan() {
            other
        } else if other.is_nan() {
            self
        } else if self.rank_of() < other.rank_of() {
            other
        } else {
            self
        }
    }

    /// The lesser of two numbers; a number beats what is none. Of the two
    /// zeros the first given is taken.
    pub fn min(self, other: F32) -> (m: F32)
        ensures
            m == self.lesser(other),
    {
        if self.is_nan() {
            other
        } else if other.is_nan() {
            self
        } else if other.rank_of() < self.rank_of() {
            other
        } else {
            self
        }
    }

    /// The position of the number in the total order of bit patterns.
    pub fn total_order(self) -> (r: i64)
        ensures
            r == self.total_rank(),
    {
        if self.bits < SIGN {
            self.bits as i64
        } else {
            SIGN as i64 - self.bits as i64 - 1
        }
    }

    /// Whether the number is greater than zero.
    pub fn is_positive(self) -> (yes: bool)
        ensures
            yes == self.positive(),
    {
        !self.is_nan() && self.rank_of() > 0
    }
}

/// On numbers, the total order agrees with the order of the values.
pub proof fn law_total_order_refines_values(a: F32, b: F32)
    requires
        a.below(b),
    ensures
        a.total_rank() < b.total_rank(),
{
}

/// Two bit patterns of one total rank are the same.
pub proof fn law_total_order_is_total(a: F32, b: F32)
    requires
        a.total_rank() == b.total_rank(),
    ensures
        a == b,
{
}

/// Which bit patterns are numbers, and how they are ordered: upward by their bits
/// where the sign is positive, downward where it is negative, with the negative
/// ones below and the two zeros alike. What is no number is not compared.
pub proof fn law_numbers_are_ordered_by_their_bits(a: F32, b: F32)
    ensures
        a.nan() <==> (0x7f80_0000 < a.bits < 0x8000_0000 || a.bits > 0xff80_0000),
        a.bits < b.bits <= 0x7f80_0000 ==> a.below(b) && !b.below(a),
        0x8000_0000 <= a.bits < b.bits <= 0xff80_0000 ==> b.below(a) && !a.below(b),
        0x8000_0000 < a.bits <= 0xff80_0000 && b.bits <= 0x7f80_0000 ==> a.below(b) && !b.below(a),
        a.bits == 0x8000_0000 && b.bits == 0 ==> !a.below(b) && !b.below(a) && a.same(b),
        a.nan() || b.nan() ==> !a.below(b) && !a.at_most(b) && !a.same(b),
        !a.below(a),
        !a.nan() ==> a.same(a),
{
}

/// Of two numbers either one lies below the other or they are the same; at most
/// means below or the same.
pub proof fn law_comparisons_agree(a: F32, b: F32)
    requires
        !a.nan(),
        !b.nan(),
    ensures
        a.at_most(b) <==> !b.below(a),
        a.at_most(b) <==> a.below(b) || a.same(b),
        a.same(b) <==> !a.below(b) && !b.below(a),
        a.same(b) <==> a == b || (a.bits == 0 || a.bits == 0x8000_0000) && (b.bits == 0 || b.bits
            == 0x8000_0000),
{
}

/// The greater and the lesser of two are one of the two, bound both where they are
/// numbers, and pass over what is no number. Of two that are the same the first is
/// taken.
pub proof fn law_greater_and_lesser_bound_both(a: F32, b: F32)
    ensures
        a.greater(b) == a || a.greater(b) == b,
        a.lesser(b) == a || a.lesser(b) == b,
        !a.nan() && !b.nan() ==> a.at_most(a.greater(b)) && b.at_most(a.greater(b)) && a.lesser(
            b,
        ).at_most(a) && a.lesser(b).at_most(b),
        a.nan() ==> a.greater(b) == b && a.lesser(b) == b,
        !a.nan() && b.nan() ==> a.greater(b) == a && a.lesser(b) == a,
        a.same(b) ==> a.greater(b) == a && a.lesser(b) == a,
{
}

/// The numbers above zero are those with a positive sign but for zero itself.
pub proof fn law_positive_numbers(a: F32)
    ensures
        a.positive() <==> 0 < a.bits <= 0x7f80_0000,
        a.positive() <==> (F32 { bits: 0 }).below(a),
{
}

/// The total order stands with the sign: patterns with a negative sign come first,
/// those of greatest magnitude first, then the others by magnitude.
pub proof fn law_total_order_of_patterns(a: F32, b: F32)
    ensures
        a.bits < b.bits < 0x8000_0000 ==> a.total_rank() < b.total_rank(),
        0x8000_0000 <= a.bits < b.bits ==> b.total_rank() < a.total_rank(),
        a.bits < 0x8000_0000 <= b.bits ==> b.total_rank() < a.total_rank(),
{
}

}
