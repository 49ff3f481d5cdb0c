use mosa::number::Number;

fn n(x: f64) -> Number {
    Number::from_bits(x.to_bits())
}

fn samples() -> Vec<f64> {
    vec![
        0.0,
        -0.0,
        1.0,
        -1.0,
        0.5,
        -0.5,
        3.7,
        -3.7,
        2.0,
        1e-310,
        -1e-310,
        5e-324,
        4294967295.0,
        4294967296.5,
        9007199254740992.0,
        -9007199254740992.0,
        9007199254740994.0,
        1.8446744073709552e19,
        1e300,
        -1e300,
        f64::MAX,
        f64::MIN,
        f64::INFINITY,
        f64::NEG_INFINITY,
        f64::NAN,
    ]
}

#[test]
fn order_is_that_of_the_numbers() {
    for a in samples() {
        for b in samples() {
            assert_eq!(n(a).lt(n(b)), a < b, "{a} < {b}");
            assert_eq!(n(a).eq_value(n(b)), a == b, "{a} == {b}");
        }
    }
}

#[test]
fn nan_is_recognised() {
    assert!(n(f64::NAN).is_nan_value());
    assert!(!n(f64::INFINITY).is_nan_value());
    assert!(!n(1.5).is_nan_value());
}

#[test]
fn abs_drops_the_sign() {
    for a in samples() {
        if !a.is_nan() {
            assert_eq!(n(a).abs().to_bits(), a.abs().to_bits());
        }
    }
}

#[test]
fn floor_clamped_is_the_saturating_floor() {
    for a in samples() {
        assert_eq!(n(a).floor_clamped(), a.floor() as u64, "{a}");
    }
    assert_eq!(n(3.7).floor_clamped(), 3);
    assert_eq!(n(0.999).floor_clamped(), 0);
    assert_eq!(n(-3.7).floor_clamped(), 0);
}

#[test]
fn floor_to_int_is_exact_within_the_integers_that_are_numbers() {
    assert_eq!(n(3.7).floor_to_int(), Some(3));
    assert_eq!(n(-3.7).floor_to_int(), Some(-4));
    assert_eq!(n(-0.5).floor_to_int(), Some(-1));
    assert_eq!(n(-0.0).floor_to_int(), Some(0));
    assert_eq!(n(5.0).floor_to_int(), Some(5));
    assert_eq!(n(-5.0).floor_to_int(), Some(-5));
    assert_eq!(n(9007199254740992.0).floor_to_int(), Some(9007199254740992));
    assert_eq!(n(-9007199254740992.0).floor_to_int(), Some(-9007199254740992));
    assert_eq!(n(9007199254740994.0).floor_to_int(), None);
    assert_eq!(n(1e300).floor_to_int(), None);
    assert_eq!(n(f64::INFINITY).floor_to_int(), None);
    assert_eq!(n(f64::NAN).floor_to_int(), None);
    for a in samples() {
        if a.is_finite() && a.floor().abs() <= 9007199254740992.0 {
            assert_eq!(n(a).floor_to_int(), Some(a.floor() as i64), "{a}");
        }
    }
}

#[test]
fn from_int_gives_the_number_that_the_integer_is() {
    for i in [
        0i64,
        1,
        -1,
        2,
        3,
        7,
        255,
        256,
        -1000,
        4294967295,
        4503599627370496,
        9007199254740991,
        9007199254740992,
        -9007199254740992,
    ] {
        let number = Number::from_int(i).expect("within the exact range");
        assert_eq!(number.to_bits(), (i as f64).to_bits(), "{i}");
        assert_eq!(number.floor_to_int(), Some(i));
    }
    assert!(Number::from_int(9007199254740993).is_none());
    assert!(Number::from_int(-9007199254740993).is_none());
    assert!(Number::from_int(i64::MAX).is_none());
    assert!(Number::from_int(i64::MIN).is_none());
}
