//! Numbers by place, held against the numbers themselves.

use tabulon::number::{
    Real, NEGATIVE_INFINITY, NEGATIVE_ZERO, ONE, POSITIVE_INFINITY, POSITIVE_ZERO,
};

fn num(x: f64) -> Real {
    Real::from_bits(x.to_bits())
}

fn samples() -> Vec<f64> {
    vec![
        f64::NEG_INFINITY,
        -1.5e300,
        -2.0,
        -1.0,
        -f64::MIN_POSITIVE,
        -0.0,
        0.0,
        f64::from_bits(1),
        1e-46,
        1.0,
        1.0 + f64::EPSILON,
        3.25,
        7e12,
        f64::MAX,
        f64::INFINITY,
        f64::NAN,
        -f64::NAN,
    ]
}

#[test]
fn places_of_landmarks() {
    assert_eq!(num(0.0).place, POSITIVE_ZERO);
    assert_eq!(num(-0.0).place, NEGATIVE_ZERO);
    assert_eq!(num(1.0).place, ONE);
    assert_eq!(num(f64::INFINITY).place, POSITIVE_INFINITY);
    assert_eq!(num(f64::NEG_INFINITY).place, NEGATIVE_INFINITY);
}

#[test]
fn bits_come_back() {
    for x in samples() {
        assert_eq!(num(x).to_bits(), x.to_bits());
    }
}

#[test]
fn order_is_the_total_order() {
    for a in samples() {
        for b in samples() {
            assert_eq!(num(a).cmp(&num(b)), a.total_cmp(&b));
            assert_eq!(num(a).partial_cmp(&num(b)), Some(a.total_cmp(&b)));
        }
    }
}

#[test]
fn comparisons_are_those_of_numbers() {
    for a in samples() {
        for b in samples() {
            assert_eq!(num(a).is_less(num(b)), a < b);
            assert_eq!(num(a).same_number(num(b)), a == b);
        }
    }
}

#[test]
fn tests_on_single_numbers() {
    for x in samples() {
        assert_eq!(num(x).is_nan(), x.is_nan());
        assert_eq!(num(x).is_zero(), x == 0.0);
        assert_eq!(num(x).is_one(), x == 1.0);
        assert_eq!(num(x).is_zero_in_single(), x as f32 == 0.0);
        assert_eq!(num(x).neg().to_bits(), (-x).to_bits());
    }
}

#[test]
fn rounding_to_zero_has_a_sharp_bound() {
    let half = 2.0_f64.powi(-150);
    let above = f64::from_bits(half.to_bits() + 1);
    assert_eq!(half as f32, 0.0);
    assert!(above as f32 != 0.0);
    assert!(num(half).is_zero_in_single());
    assert!(num(-half).is_zero_in_single());
    assert!(!num(above).is_zero_in_single());
    assert!(!num(-above).is_zero_in_single());
}

#[test]
fn negation_is_an_involution() {
    for x in samples() {
        assert_eq!(num(x).neg().neg(), num(x));
    }
    assert_eq!(num(2.5).neg(), num(-2.5));
    assert!(num(-2.5).is_less(num(2.5)));
}

#[test]
fn clamping_is_that_of_numbers() {
    for x in samples() {
        let got = num(x).clamp_between(num(-1.0), num(3.25));
        assert_eq!(got.to_bits(), x.clamp(-1.0, 3.25).to_bits());
    }
    assert_eq!(num(9.0).clamp_between(num(2.0), num(2.0)), num(2.0));
}
