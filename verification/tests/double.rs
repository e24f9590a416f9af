//! Doubles by their bit patterns, against the doubles of the machine.
use status_insights::double::{
    Double, EIGHTY_BITS, FOUR_THOUSAND_BITS, HUNDRED_BITS, INFINITY_BITS,
};
use std::cmp::Ordering;

fn samples() -> Vec<f64> {
    vec![
        0.0,
        -0.0,
        5e-324,
        -5e-324,
        f64::MIN_POSITIVE,
        1.0,
        -1.0,
        79.99999999999999,
        80.0,
        80.00000000000001,
        100.0,
        3_999.9999999999995,
        4_000.0,
        f64::MAX,
        f64::MIN,
        f64::INFINITY,
        f64::NEG_INFINITY,
        f64::NAN,
        -f64::NAN,
    ]
}

#[test]
fn named_patterns_are_their_numbers() {
    assert_eq!(EIGHTY_BITS, 80.0f64.to_bits());
    assert_eq!(HUNDRED_BITS, 100.0f64.to_bits());
    assert_eq!(FOUR_THOUSAND_BITS, 4_000.0f64.to_bits());
    assert_eq!(INFINITY_BITS, f64::INFINITY.to_bits());
}

#[test]
fn comparisons_agree_with_the_machine() {
    for a in samples() {
        let x = Double::from_bits(a.to_bits());
        assert_eq!(x.nan(), a.is_nan());
        for b in samples() {
            let y = Double::from_bits(b.to_bits());
            assert_eq!(x.at_least(y), a >= b);
            assert_eq!(x.ranks_below(y), a.total_cmp(&b) == Ordering::Less);
        }
    }
}

#[test]
fn higher_place_is_never_a_lower_value() {
    for a in samples() {
        for b in samples() {
            let x = Double::from_bits(a.to_bits());
            let y = Double::from_bits(b.to_bits());
            if !x.nan() && !y.nan() && x.ranks_below(y) {
                assert!(y.at_least(x));
            }
            if !x.ranks_below(y) && !y.ranks_below(x) {
                assert_eq!(x, y);
            }
        }
    }
}
