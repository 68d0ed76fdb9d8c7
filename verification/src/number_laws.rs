//! What numbers are by their bits: a sign, an exponent and a fraction.

use vstd::prelude::*;

#[allow(unused_imports)]
use crate::number::{place_of_bits, Real};

verus! {

/// The number with these bits.
pub open spec fn number_of(bits: u64) -> Real {
    Real { place: place_of_bits(bits) as u64 }
}

/// The bits but for the sign.
pub open spec fn without_sign(bits: u64) -> int {
    bits as int % 0x8000_0000_0000_0000
}

/// Whether the sign bit is set.
pub open spec fn has_sign(bits: u64) -> bool {
    bits >= 0x8000_0000_0000_0000
}

/// Every pattern of bits has a place, and places with a clear sign bit are above all others:
/// among them the greater pattern is above, among the others below.
pub proof fn law_places_order_signs_and_magnitudes(a: u64, b: u64)
    ensures
        0 <= place_of_bits(a) <= u64::MAX,
        has_sign(a) && !has_sign(b) ==> number_of(a).place < number_of(b).place,
        !has_sign(a) && !has_sign(b) ==> (number_of(a).place < number_of(b).place <==> a < b),
        has_sign(a) && has_sign(b) ==> (number_of(a).place < number_of(b).place <==> b < a),
        !has_sign(a) ==> number_of(a).place - a == 0x8000_0000_0000_0000,
        has_sign(a) ==> number_of(a).place + a == u64::MAX,
{
}

/// A number is a NaN exactly if its exponent has all bits set and its fraction is not zero.
pub proof fn law_nans_by_their_bits(bits: u64)
    ensures
        number_of(bits).is_nan_spec() <==> without_sign(bits) > 0x7FF0_0000_0000_0000,
{
}

/// Numbers are equal if their bits are, or if both are zeros; a NaN equals nothing.
pub proof fn law_equality_by_bits(a: u64, b: u64)
    ensures
        number_of(a).equals(number_of(b)) <==> without_sign(a) <= 0x7FF0_0000_0000_0000 && (a == b
            || (without_sign(a) == 0 && without_sign(b) == 0)),
{
}

/// Among numbers without a sign the one with the smaller bits is less; a number with a sign
/// is less than one without, unless both are zeros; among numbers with a sign it is the
/// other way around. Nothing is less than a NaN, and a NaN is less than nothing.
pub proof fn law_order_by_bits(a: u64, b: u64)
    ensures
        without_sign(a) > 0x7FF0_0000_0000_0000 || without_sign(b) > 0x7FF0_0000_0000_0000
            ==> !number_of(a).less(number_of(b)),
        without_sign(a) <= 0x7FF0_0000_0000_0000 && without_sign(b) <= 0x7FF0_0000_0000_0000 ==> {
            &&& !has_sign(a) && !has_sign(b) ==> (number_of(a).less(number_of(b)) <==> a < b)
            &&& has_sign(a) && has_sign(b) ==> (number_of(a).less(number_of(b)) <==> b < a)
            &&& has_sign(a) && !has_sign(b) ==> (number_of(a).less(number_of(b))
                <==> without_sign(a) > 0 || b > 0)
            &&& !has_sign(a) && has_sign(b) ==> !number_of(a).less(number_of(b))
        },
{
}

/// Of two numbers exactly one is less, or they are equal, unless one is a NaN.
pub proof fn law_order_is_total(a: Real, b: Real)
    requires
        !a.is_nan_spec(),
        !b.is_nan_spec(),
    ensures
        a.less(b) || b.less(a) || a.equals(b),
        !(a.less(b) && b.less(a)),
        !(a.less(b) && a.equals(b)),
        a.equals(a),
{
}

/// The opposite of a number has the same bits but for the sign.
pub proof fn law_opposites_by_bits(bits: u64, opposite: u64)
    requires
        without_sign(bits) == without_sign(opposite),
        has_sign(bits) != has_sign(opposite),
    ensures
        number_of(bits).negated() == number_of(opposite),
{
}

/// A number rounds to zero in single precision if its magnitude is no more than half of the
/// smallest number there, which is two to the power of -150.
pub proof fn law_small_numbers_round_to_zero(bits: u64)
    ensures
        number_of(bits).rounds_to_zero() <==> without_sign(bits) <= (0x3FFint - 150)
            * 0x10_0000_0000_0000,
{
}

/// A number that is clamped lies between the bounds, is the number itself if that does, and
/// else the bound that the number lies beyond. A NaN stays what it is.
pub proof fn law_clamped_numbers_lie_between(x: Real, low: Real, high: Real)
    requires
        low.less(high) || low.equals(high),
    ensures
        x.is_nan_spec() ==> x.clamped(low, high) == x,
        !x.is_nan_spec() ==> !x.clamped(low, high).less(low) && !high.less(x.clamped(low, high)),
        x.clamped(low, high) == x || x.clamped(low, high) == low || x.clamped(low, high) == high,
        !x.less(low) && !high.less(x) ==> x.clamped(low, high) == x,
        x.less(low) ==> x.clamped(low, high) == low,
        high.less(x) ==> x.clamped(low, high) == high,
{
}

} // verus!
