use lox_ast::number::Number;

fn num(x: f64) -> Number {
    Number::from_bits(x.to_bits())
}

fn samples() -> Vec<f64> {
    vec![
        0.0,
        -0.0,
        1.0,
        -1.0,
        0.5,
        -0.5,
        2.0,
        1e-320,
        -1e-320,
        f64::MIN_POSITIVE,
        f64::EPSILON,
        1.0 + f64::EPSILON,
        123456.789,
        -123456.789,
        9007199254740992.0,
        f64::MAX,
        f64::MIN,
        f64::INFINITY,
        f64::NEG_INFINITY,
        f64::NAN,
        -f64::NAN,
        f64::from_bits(0x7ff0_0000_0000_0001),
        f64::from_bits(0xfff8_0000_0000_1234),
    ]
}

#[test]
fn bits_round_trip() {
    for x in samples() {
        assert_eq!(num(x).to_bits(), x.to_bits());
        assert_eq!(num(x).bits, x.to_bits());
    }
    assert_eq!(num(1.0).to_bits(), 0x3ff0_0000_0000_0000);
    assert_eq!(num(-2.0).to_bits(), 0xc000_0000_0000_0000);
}

#[test]
fn nan_is_told_from_numbers() {
    for x in samples() {
        assert_eq!(num(x).nan(), x.is_nan(), "{:?}", x);
    }
}

#[test]
fn negate_flips_the_sign() {
    for x in samples() {
        assert_eq!(num(x).negate().to_bits(), (-x).to_bits(), "{:?}", x);
    }
    assert_eq!(num(3.5).negate().to_bits(), (-3.5f64).to_bits());
    assert_eq!(num(0.0).negate().to_bits(), 0x8000_0000_0000_0000);
}

#[test]
fn comparisons_are_those_of_the_hardware() {
    for a in samples() {
        for b in samples() {
            let (x, y) = (num(a), num(b));
            assert_eq!(x.less(y), a < b, "{:?} < {:?}", a, b);
            assert_eq!(x.less_equal(y), a <= b, "{:?} <= {:?}", a, b);
            assert_eq!(x.greater(y), a > b, "{:?} > {:?}", a, b);
            assert_eq!(x.greater_equal(y), a >= b, "{:?} >= {:?}", a, b);
            assert_eq!(x.equals(y), a == b, "{:?} == {:?}", a, b);
        }
    }
}

#[test]
fn zeros_are_equal_and_nan_equals_nothing() {
    assert!(num(0.0).equals(num(-0.0)));
    assert!(!num(0.0).less(num(-0.0)));
    assert!(num(0.0).less_equal(num(-0.0)));
    assert!(!num(f64::NAN).equals(num(f64::NAN)));
    assert!(!num(f64::NAN).less_equal(num(f64::NAN)));
    assert!(num(f64::NEG_INFINITY).less(num(f64::MIN)));
    assert!(num(f64::MAX).less(num(f64::INFINITY)));
}
