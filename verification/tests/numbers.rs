use minilisp_rust::number::{greater_than, is_zero, negate, INFINITY, ONE, SIGN, ZERO};

fn samples() -> Vec<f64> {
    vec![
        0.0,
        -0.0,
        1.0,
        -1.0,
        1.5,
        -1.5,
        2.0,
        1e-310,
        -1e-310,
        f64::from_bits(1),
        f64::from_bits(SIGN | 1),
        f64::MIN_POSITIVE,
        -f64::MIN_POSITIVE,
        f64::MAX,
        f64::MIN,
        f64::EPSILON,
        f64::INFINITY,
        f64::NEG_INFINITY,
        f64::NAN,
        -f64::NAN,
        f64::from_bits(0x7ff0_0000_0000_0001),
        f64::from_bits(0xfff0_0000_0000_0001),
        f64::from_bits(0x7fff_ffff_ffff_ffff),
        f64::from_bits(0xffff_ffff_ffff_ffff),
        123456789.125,
        -123456789.125,
    ]
}

#[test]
fn constants_are_the_numbers_they_name() {
    assert_eq!(ZERO, 0.0f64.to_bits());
    assert_eq!(ONE, 1.0f64.to_bits());
    assert_eq!(INFINITY, f64::INFINITY.to_bits());
    assert_eq!(SIGN, (-0.0f64).to_bits());
}

#[test]
fn greater_than_orders_as_floats_do() {
    for a in samples() {
        for b in samples() {
            assert_eq!(greater_than(a.to_bits(), b.to_bits()), a > b, "{:?} > {:?}", a, b);
        }
    }
}

#[test]
fn greater_than_on_given_values() {
    assert!(greater_than(5.0f64.to_bits(), 2.0f64.to_bits()));
    assert!(!greater_than(2.0f64.to_bits(), 5.0f64.to_bits()));
    assert!(!greater_than(2.0f64.to_bits(), 2.0f64.to_bits()));
    assert!(!greater_than(0.0f64.to_bits(), (-0.0f64).to_bits()));
    assert!(greater_than((-1.0f64).to_bits(), (-2.0f64).to_bits()));
    assert!(!greater_than(f64::NAN.to_bits(), 0.0f64.to_bits()));
    assert!(!greater_than(f64::INFINITY.to_bits(), f64::NAN.to_bits()));
    assert!(greater_than(f64::INFINITY.to_bits(), f64::MAX.to_bits()));
}

#[test]
fn negate_flips_the_sign() {
    for a in samples() {
        assert_eq!(negate(a.to_bits()), (-a).to_bits(), "-{:?}", a);
    }
    assert_eq!(negate(5.0f64.to_bits()), (-5.0f64).to_bits());
    assert_eq!(negate(ZERO), SIGN);
}

#[test]
fn is_zero_holds_of_both_zeros_only() {
    for a in samples() {
        assert_eq!(is_zero(a.to_bits()), a == 0.0, "{:?} == 0", a);
    }
    assert!(is_zero(ZERO));
    assert!(is_zero(SIGN));
    assert!(!is_zero(ONE));
    assert!(!is_zero(1));
}
