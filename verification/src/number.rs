//! Floating-point numbers held by their place in the IEEE 754 total order.
//!
//! The library never does arithmetic on coordinates. It orders them, tests them
//! for equality, flips their sign and hands them on. For that a binary64 number is
//! fully described by an integer: the place of its bit pattern in the total order
//! that runs from the negative NaNs over `-inf`, `-0`, `+0` and `+inf` to the
//! positive NaNs.

use vstd::prelude::*;
use vstd::std_specs::cmp::PartialOrdSpecImpl;

verus! {

/// The place of `+0`; every place from here on has a clear sign bit.
pub const POSITIVE_ZERO: u64 = 0x8000_0000_0000_0000;

/// The place of `-0`, directly below that of `+0`.
pub const NEGATIVE_ZERO: u64 = 0x7FFF_FFFF_FFFF_FFFF;

/// The place of `+inf`; the places above it are the positive NaNs.
pub const POSITIVE_INFINITY: u64 = 0xFFF0_0000_0000_0000;

/// The place of `-inf`; the places below it are the negative NaNs.
pub const NEGATIVE_INFINITY: u64 = 0x000F_FFFF_FFFF_FFFF;

/// The place of `1`.
pub const ONE: u64 = 0xBFF0_0000_0000_0000;

/// A binary64 number.
///
/// The derived `Ord` compares places, so it is the IEEE 754 total order.
#[derive(Debug, Clone, Copy, PartialEq, Eq, Structural, Ord)]
pub struct Real {
    /// Place in the total order.
    pub place: u64,
}

/// The place in the total order of the number with the bit pattern `bits`.
///
/// Patterns with a clear sign bit follow one another upwards from `+0`, those with
/// the sign bit set follow one another downwards from `-0`.
pub open spec fn place_of_bits(bits: u64) -> int {
    if bits < 0x8000_0000_0000_0000 {
        bits + POSITIVE_ZERO
    } else {
        NEGATIVE_ZERO - (bits - 0x8000_0000_0000_0000)
    }
}

impl Real {
    /// Whether this is not a number.
    pub open spec fn is_nan_spec(self) -> bool {
        self.place > POSITIVE_INFINITY || self.place < NEGATIVE_INFINITY
    }

    /// Orders the numbers among each other, with both zeros at 0.
    pub open spec fn magnitude(self) -> int {
        if self.place >= POSITIVE_ZERO {
            self.place - POSITIVE_ZERO
        } else {
            self.place - NEGATIVE_ZERO
        }
    }

    /// IEEE 754 equality: NaN equals nothing, the two zeros are equal.
    pub open spec fn equals(self, other: Real) -> bool {
        !self.is_nan_spec() && !other.is_nan_spec() && self.magnitude() == other.magnitude()
    }

    /// IEEE 754 less-than: false whenever a NaN takes part.
    pub open spec fn less(self, other: Real) -> bool {
        !self.is_nan_spec() && !other.is_nan_spec() && self.magnitude() < other.magnitude()
    }

    /// The number with the opposite sign.
    pub open spec fn negated(self) -> Real {
        Real { place: (u64::MAX - self.place) as u64 }
    }

    /// The number with the bit pattern `bits`.
    pub fn from_bits(bits: u64) -> (r: Real)
        ensures
            r.place == place_of_bits(bits),
    {
        if bits < 0x8000_0000_0000_0000 {
            Real { place: bits + POSITIVE_ZERO }
        } else {
            Real { place: NEGATIVE_ZERO - (bits - 0x8000_0000_0000_0000) }
        }
    }

    /// The bit pattern of this number.
    pub fn to_bits(self) -> (bits: u64)
        ensures
            place_of_bits(bits) == self.place,
    {
        if self.place >= POSITIVE_ZERO {
            self.place - POSITIVE_ZERO
        } else {
            NEGATIVE_ZERO - self.place + 0x8000_0000_0000_0000
        }
    }

    /// Whether this is not a number.
    pub fn is_nan(self) -> (r: bool)
        ensures
            r == self.is_nan_spec(),
    {
        self.place > POSITIVE_INFINITY || self.place < NEGATIVE_INFINITY
    }

    /// Whether this is one of the two zeros.
    pub fn is_zero(self) -> (r: bool)
        ensures
            r == self.equals(Real { place: POSITIVE_ZERO }),
    {
        self.place == POSITIVE_ZERO || self.place == NEGATIVE_ZERO
    }

    /// Whether this rounds to zero in binary32.
    ///
    /// The bound is half of the smallest positive binary32 number, which is itself
    /// rounded to the even neighbor, zero.
    pub open spec fn rounds_to_zero(self) -> bool {
        -0x3690_0000_0000_0000 <= self.magnitude() <= 0x3690_0000_0000_0000
    }

    /// Whether this rounds to zero in binary32.
    pub fn is_zero_in_single(self) -> (r: bool)
        ensures
            r == self.rounds_to_zero(),
    {
        NEGATIVE_ZERO - 0x3690_0000_0000_0000 <= self.place && self.place <= POSITIVE_ZERO
            + 0x3690_0000_0000_0000
    }

    /// Whether this is exactly one.
    pub fn is_one(self) -> (r: bool)
        ensures
            r == self.equals(Real { place: ONE }),
    {
        self.place == ONE
    }

    /// IEEE 754 equality.
    pub fn same_number(self, other: Real) -> (r: bool)
        ensures
            r == self.equals(other),
    {
        !self.is_nan() && !other.is_nan() && (self.place == other.place || (self.is_zero()
            && other.is_zero()))
    }

    /// IEEE 754 less-than.
    pub fn is_less(self, other: Real) -> (r: bool)
        ensures
            r == self.less(other),
    {
        !self.is_nan() && !other.is_nan() && self.place < other.place && !(self.is_zero()
            && other.is_zero())
    }

    /// The number with the opposite sign.
    pub fn neg(self) -> (r: Real)
        ensures
            r == self.negated(),
    {
        Real { place: u64::MAX - self.place }
    }

    /// This number, or the nearer bound where it lies outside `low..=high`.
    pub open spec fn clamped(self, low: Real, high: Real) -> Real {
        if self.less(low) {
            low
        } else if high.less(self) {
            high
        } else {
            self
        }
    }

    /// This number, or the nearer bound where it lies outside `low..=high`.
    ///
    /// A NaN stays a NaN.
    pub fn clamp_between(self, low: Real, high: Real) -> (r: Real)
        requires
            low.less(high) || low.equals(high),
        ensures
            self.less(low) ==> r == low,
            high.less(self) ==> r == high,
            !self.less(low) && !high.less(self) ==> r == self,
            r == self.clamped(low, high),
    {
        if self.is_less(low) {
            low
        } else if high.is_less(self) {
            high
        } else {
            self
        }
    }
}

impl PartialOrd for Real {
    fn partial_cmp(&self, other: &Real) -> (r: Option<core::cmp::Ordering>) {
        if self.place < other.place {
            Some(core::cmp::Ordering::Less)
        } else if self.place == other.place {
            Some(core::cmp::Ordering::Equal)
        } else {
            Some(core::cmp::Ordering::Greater)
        }
    }
}

impl PartialOrdSpecImpl for Real {
    open spec fn obeys_partial_cmp_spec() -> bool {
        true
    }

    open spec fn partial_cmp_spec(&self, other: &Real) -> Option<core::cmp::Ordering> {
        if self.place < other.place {
            Some(core::cmp::Ordering::Less)
        } else if self.place == other.place {
            Some(core::cmp::Ordering::Equal)
        } else {
            Some(core::cmp::Ordering::Greater)
        }
    }
}

/// Different bit patterns have different places.
pub proof fn law_place_is_injective(a: u64, b: u64)
    requires
        place_of_bits(a) == place_of_bits(b),
    ensures
        a == b,
{
}

/// Flipping the sign twice gives the number back.
pub proof fn law_negation_is_involutive(r: Real)
    ensures
        r.negated().negated() == r,
{
}

/// Flipping the sign flips the sign bit and keeps every other bit.
pub proof fn law_negation_flips_the_sign_bit(bits: u64, flipped: u64)
    requires
        flipped == bits ^ 0x8000_0000_0000_0000,
    ensures
        (Real { place: place_of_bits(bits) as u64 }).negated().place == place_of_bits(flipped),
{
    assert(bits < 0x8000_0000_0000_0000 ==> flipped == bits + 0x8000_0000_0000_0000)
        by (bit_vector)
        requires
            flipped == bits ^ 0x8000_0000_0000_0000,
    ;
    assert(bits >= 0x8000_0000_0000_0000 ==> flipped == bits - 0x8000_0000_0000_0000)
        by (bit_vector)
        requires
            flipped == bits ^ 0x8000_0000_0000_0000,
    ;
}

/// Flipping the sign reverses the IEEE 754 order.
pub proof fn law_negation_reverses_order(a: Real, b: Real)
    ensures
        a.less(b) == b.negated().less(a.negated()),
        a.equals(b) == a.negated().equals(b.negated()),
{
}

/// On numbers, the total order refines the IEEE 754 order: it only tells the two
/// zeros apart.
pub proof fn law_total_order_refines(a: Real, b: Real)
    requires
        !a.is_nan_spec(),
        !b.is_nan_spec(),
    ensures
        a.less(b) ==> a.place < b.place,
        a.place < b.place ==> a.less(b) || a.equals(b),
        a == b ==> a.equals(b),
{
}

} // verus!
