use treewalk::number::{
    number_is_nan, number_less, number_less_equal, number_negate, number_same, INFINITY, SIGN_BIT,
};

fn samples() -> Vec<f64> {
    vec![
        0.0,
        -0.0,
        1.0,
        -1.0,
        1.5,
        -1.5,
        14.2,
        2.0,
        1.0e-310,
        -1.0e-310,
        f64::MIN_POSITIVE,
        f64::MAX,
        f64::MIN,
        f64::EPSILON,
        f64::INFINITY,
        f64::NEG_INFINITY,
        f64::NAN,
        -f64::NAN,
        f64::from_bits(0x7ff0_0000_0000_0001),
        f64::from_bits(0xffff_ffff_ffff_ffff),
    ]
}

#[test]
fn less_agrees_with_the_hardware() {
    for a in samples() {
        for b in samples() {
            assert_eq!(number_less(a.to_bits(), b.to_bits()), a < b, "{a:?} < {b:?}");
        }
    }
}

#[test]
fn less_equal_agrees_with_the_hardware() {
    for a in samples() {
        for b in samples() {
            assert_eq!(number_less_equal(a.to_bits(), b.to_bits()), a <= b, "{a:?} <= {b:?}");
        }
    }
}

#[test]
fn same_agrees_with_the_hardware() {
    for a in samples() {
        for b in samples() {
            assert_eq!(number_same(a.to_bits(), b.to_bits()), a == b, "{a:?} == {b:?}");
        }
    }
}

#[test]
fn negate_agrees_with_the_hardware() {
    for a in samples() {
        assert_eq!(number_negate(a.to_bits()), (-a).to_bits(), "-({a:?})");
    }
}

#[test]
fn nan_is_told_by_its_pattern() {
    for a in samples() {
        assert_eq!(number_is_nan(a.to_bits()), a.is_nan(), "{a:?}");
    }
}

#[test]
fn the_two_zeros_are_equal_and_unordered() {
    let zero = 0.0f64.to_bits();
    let negative_zero = (-0.0f64).to_bits();
    assert_eq!(negative_zero, SIGN_BIT);
    assert!(number_same(zero, negative_zero));
    assert!(!number_less(negative_zero, zero));
    assert!(!number_less(zero, negative_zero));
    assert!(number_less_equal(negative_zero, zero));
}

#[test]
fn nan_equals_nothing() {
    let nan = f64::NAN.to_bits();
    assert!(!number_same(nan, nan));
    assert!(!number_less_equal(nan, nan));
    assert!(!number_less(nan, INFINITY));
    assert!(!number_less(INFINITY, nan));
}

#[test]
fn infinity_is_above_every_finite_number() {
    assert_eq!(INFINITY, f64::INFINITY.to_bits());
    assert!(number_less(f64::MAX.to_bits(), INFINITY));
    assert!(number_less(number_negate(INFINITY), f64::MIN.to_bits()));
    assert_eq!(number_negate(INFINITY), f64::NEG_INFINITY.to_bits());
}
