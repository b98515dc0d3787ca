use game_lang::bytecode::number::{equal, less, negate, INFINITY_BITS, SIGN_BIT};

fn samples() -> Vec<f64> {
    vec![
        0.0,
        -0.0,
        1.0,
        -1.0,
        1.5,
        -1.5,
        7.0,
        1e300,
        -1e300,
        5e-324,
        -5e-324,
        f64::MIN_POSITIVE,
        f64::MAX,
        f64::MIN,
        f64::INFINITY,
        f64::NEG_INFINITY,
        f64::NAN,
        -f64::NAN,
        f64::from_bits(0x7FF0_0000_0000_0001),
        f64::from_bits(0xFFFF_FFFF_FFFF_FFFF),
    ]
}

#[test]
fn negate_flips_the_sign_as_the_processor_does() {
    for x in samples() {
        assert_eq!(negate(x.to_bits()), (-x).to_bits(), "-({:?})", x);
    }
    assert_eq!(negate(0), SIGN_BIT);
    assert_eq!(negate(SIGN_BIT), 0);
    assert_eq!(negate(3.0f64.to_bits()), (-3.0f64).to_bits());
}

#[test]
fn equal_is_ieee_equality() {
    for a in samples() {
        for b in samples() {
            assert_eq!(equal(a.to_bits(), b.to_bits()), a == b, "{:?} == {:?}", a, b);
        }
    }
    assert!(equal(0, SIGN_BIT));
    assert!(!equal(f64::NAN.to_bits(), f64::NAN.to_bits()));
    assert!(equal(INFINITY_BITS, f64::INFINITY.to_bits()));
}

#[test]
fn less_is_ieee_order() {
    for a in samples() {
        for b in samples() {
            assert_eq!(less(a.to_bits(), b.to_bits()), a < b, "{:?} < {:?}", a, b);
        }
    }
    assert!(less(1.0f64.to_bits(), 2.0f64.to_bits()));
    assert!(!less(2.0f64.to_bits(), 1.0f64.to_bits()));
    assert!(less((-2.0f64).to_bits(), (-1.0f64).to_bits()));
    assert!(!less(SIGN_BIT, 0));
    assert!(!less(f64::NAN.to_bits(), 1.0f64.to_bits()));
    assert!(!less(1.0f64.to_bits(), f64::NAN.to_bits()));
}
