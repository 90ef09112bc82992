use lox::number::{
    is_number, number_equal, number_is_nan, number_is_zero, number_less, number_less_equal,
    number_negate, INFINITY, SIGN_BIT,
};

fn samples() -> Vec<f64> {
    vec![
        0.0,
        -0.0,
        1.0,
        -1.0,
        0.5,
        -0.5,
        2.5,
        -2.5,
        1e300,
        -1e300,
        1e-300,
        -1e-300,
        f64::MIN_POSITIVE,
        -f64::MIN_POSITIVE,
        5e-324,
        -5e-324,
        f64::MAX,
        f64::MIN,
        f64::INFINITY,
        f64::NEG_INFINITY,
        f64::NAN,
        -f64::NAN,
        f64::from_bits(0x7ff0_0000_0000_0001),
        f64::from_bits(0xffff_ffff_ffff_ffff),
    ]
}

#[test]
fn the_constants_are_the_bits_of_the_doubles() {
    assert_eq!(SIGN_BIT, (-0.0f64).to_bits());
    assert_eq!(INFINITY, f64::INFINITY.to_bits());
}

#[test]
fn zero_and_nan_agree_with_the_doubles() {
    for x in samples() {
        assert_eq!(number_is_zero(x.to_bits()), x == 0.0, "{:?}", x);
        assert_eq!(number_is_nan(x.to_bits()), x.is_nan(), "{:?}", x);
    }
}

#[test]
fn comparisons_agree_with_the_doubles() {
    for x in samples() {
        for y in samples() {
            let (a, b) = (x.to_bits(), y.to_bits());
            assert_eq!(number_equal(a, b), x == y, "{:?} == {:?}", x, y);
            assert_eq!(number_less(a, b), x < y, "{:?} < {:?}", x, y);
            assert_eq!(number_less_equal(a, b), x <= y, "{:?} <= {:?}", x, y);
            assert_eq!(number_less(b, a), x > y, "{:?} > {:?}", x, y);
            assert_eq!(number_less_equal(b, a), x >= y, "{:?} >= {:?}", x, y);
        }
    }
}

#[test]
fn negation_agrees_with_the_doubles() {
    for x in samples() {
        assert_eq!(number_negate(x.to_bits()), (-x).to_bits(), "{:?}", x);
    }
    assert_eq!(number_negate(2.5f64.to_bits()), (-2.5f64).to_bits());
}

#[test]
fn texts_that_stand_for_a_number() {
    for text in ["0", "7", "12345", "123.45", "0.0", "000.000", "1.0000000000000000000001"] {
        assert!(is_number(text), "{:?}", text);
        assert!(text.parse::<f64>().is_ok());
    }
    for text in [
        "", ".", "1.", ".5", "1..2", "1.2.3", "1e5", "-1", "+1", "1 ", " 1", "abc", "1a", "a1",
        "1.a", "٣", "inf", "NaN", "1_000",
    ] {
        assert!(!is_number(text), "{:?}", text);
    }
}
