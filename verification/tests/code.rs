use raytracer::code::{decode, encode, negate, INFINITY, NEAR_ZERO, NEG_INFINITY, ONE, SIGN_BIT};

fn code(x: f64) -> i64 {
    encode(x.to_bits())
}

#[test]
fn named_codes_are_those_of_their_numbers() {
    assert_eq!(code(0.0), 0);
    assert_eq!(code(-0.0), 0);
    assert_eq!(code(1.0), ONE);
    assert_eq!(code(f64::INFINITY), INFINITY);
    assert_eq!(code(f64::NEG_INFINITY), NEG_INFINITY);
    assert_eq!(code(1e-8), NEAR_ZERO);
    assert_eq!(SIGN_BIT, (-0.0f64).to_bits());
}

#[test]
fn encode_by_sign_and_magnitude() {
    assert_eq!(encode(0), 0);
    assert_eq!(encode(1), 1);
    assert_eq!(encode(SIGN_BIT - 1), i64::MAX);
    assert_eq!(encode(SIGN_BIT), 0);
    assert_eq!(encode(SIGN_BIT + 1), -2);
    assert_eq!(encode(u64::MAX), i64::MIN);
}

#[test]
fn decode_by_sign_and_magnitude() {
    assert_eq!(decode(0), 0);
    assert_eq!(decode(i64::MAX), SIGN_BIT - 1);
    assert_eq!(decode(-1), SIGN_BIT);
    assert_eq!(decode(-2), SIGN_BIT + 1);
    assert_eq!(decode(i64::MIN), u64::MAX);
}

#[test]
fn numbers_come_back_from_their_codes() {
    for x in [
        0.0,
        1.0,
        -1.0,
        0.001,
        -0.001,
        1e300,
        -1e300,
        5e-324,
        -5e-324,
        f64::MAX,
        f64::MIN,
        f64::INFINITY,
        f64::NEG_INFINITY,
    ] {
        assert_eq!(f64::from_bits(decode(code(x))), x);
    }
    assert_eq!(decode(code(-0.0)), 0);
    assert!(f64::from_bits(decode(code(f64::NAN))).is_nan());
}

#[test]
fn codes_are_ordered_as_the_numbers_are() {
    let ascending = [
        f64::NEG_INFINITY,
        f64::MIN,
        -1e300,
        -2.5,
        -1.0,
        -0.999,
        -1e-8,
        -5e-324,
        0.0,
        5e-324,
        1e-8,
        0.001,
        0.999,
        1.0,
        2.5,
        1e300,
        f64::MAX,
        f64::INFINITY,
    ];
    for pair in ascending.windows(2) {
        assert!(code(pair[0]) < code(pair[1]));
    }
}

#[test]
fn negate_gives_the_code_of_the_negative() {
    for x in [0.0, 1.0, -1.0, 1e-8, -3.75, f64::MAX, f64::INFINITY, 5e-324] {
        assert_eq!(negate(code(x)), code(-x));
    }
    assert_eq!(negate(i64::MIN), i64::MAX);
    assert_eq!(negate(i64::MAX), i64::MIN);
}
