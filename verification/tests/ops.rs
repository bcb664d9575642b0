use float::{Binary32, Binary64, Classification, Float};

fn b64(x: f64) -> Binary64 {
    Binary64::from_bits(x.to_bits())
}

fn b32(x: f32) -> Binary32 {
    Binary32::from_bits(x.to_bits())
}

#[test]
fn sign_of_the_zeros_f64() {
    // The two zeros compare equal, so sign inspection must read the bit.
    assert!(-0.0f64 == 0.0f64);
    assert!(b64(-0.0).is_sign_negative());
    assert!(!b64(-0.0).is_sign_positive());
    assert!(b64(0.0).is_sign_positive());
    assert!(!b64(0.0).is_sign_negative());
    assert_eq!(b64(-0.0).classify(), Classification::Zero);
    assert_eq!(b64(0.0).classify(), Classification::Zero);
}

#[test]
fn sign_of_the_zeros_f32() {
    assert!(-0.0f32 == 0.0f32);
    assert!(b32(-0.0).is_sign_negative());
    assert!(b32(0.0).is_sign_positive());
    assert_eq!(b32(-0.0).classify(), Classification::Zero);
}

#[test]
fn sign_bit_of_ordinary_values() {
    assert!(b64(1.5).is_sign_positive());
    assert!(b64(-1.5).is_sign_negative());
    assert!(b64(f64::INFINITY).is_sign_positive());
    assert!(b64(f64::NEG_INFINITY).is_sign_negative());
    assert!(b32(2.5).is_sign_positive());
    assert!(b32(-2.5).is_sign_negative());
    // A NaN carries a sign bit of its own.
    assert!(b64(f64::NAN).is_sign_positive());
    assert!(b64(-f64::NAN).is_sign_negative());
}

#[test]
fn constants_match_the_host_f64() {
    assert_eq!(Binary64::infinity().to_bits(), f64::INFINITY.to_bits());
    assert_eq!(Binary64::neg_infinity().to_bits(), f64::NEG_INFINITY.to_bits());
    assert_eq!(Binary64::neg_zero().to_bits(), (-0.0f64).to_bits());
    assert_eq!(Binary64::epsilon().to_bits(), f64::EPSILON.to_bits());
    assert!(f64::from_bits(Binary64::nan().to_bits()).is_nan());
    assert!(Binary64::nan().is_nan());
    assert!(Binary64::nan().is_sign_positive());
}

#[test]
fn constants_match_the_host_f32() {
    assert_eq!(Binary32::infinity().to_bits(), f32::INFINITY.to_bits());
    assert_eq!(Binary32::neg_infinity().to_bits(), f32::NEG_INFINITY.to_bits());
    assert_eq!(Binary32::neg_zero().to_bits(), (-0.0f32).to_bits());
    assert_eq!(Binary32::epsilon().to_bits(), f32::EPSILON.to_bits());
    assert!(f32::from_bits(Binary32::nan().to_bits()).is_nan());
    assert!(Binary32::nan().is_nan());
    assert!(Binary32::nan().is_sign_positive());
}

#[test]
fn trunc_matches_the_host_f64() {
    let values = [
        0.0,
        -0.0,
        0.25,
        -0.25,
        0.999,
        -0.999,
        1.0,
        -1.0,
        1.5,
        -1.5,
        3.999,
        -3.999,
        12345.678,
        -12345.678,
        1e20,
        -1e20,
        f64::MAX,
        f64::MIN,
        f64::MIN_POSITIVE,
        5e-324,
        -5e-324,
        f64::INFINITY,
        f64::NEG_INFINITY,
    ];
    for &x in values.iter() {
        assert_eq!(b64(x).trunc().to_bits(), x.trunc().to_bits(), "trunc differs for {x}");
    }
    assert!(b64(f64::NAN).trunc().is_nan());
}

#[test]
fn trunc_matches_the_host_f32() {
    let values = [
        0.0f32,
        -0.0,
        0.25,
        -0.25,
        0.999,
        -0.999,
        1.0,
        -1.0,
        1.5,
        -1.5,
        3.999,
        -3.999,
        12345.678,
        -12345.678,
        1e20,
        -1e20,
        f32::MAX,
        f32::MIN,
        f32::MIN_POSITIVE,
        1e-45,
        -1e-45,
        f32::INFINITY,
        f32::NEG_INFINITY,
    ];
    for &x in values.iter() {
        assert_eq!(b32(x).trunc().to_bits(), x.trunc().to_bits(), "trunc differs for {x}");
    }
    assert!(b32(f32::NAN).trunc().is_nan());
}

#[test]
fn trunc_supports_the_fractional_part() {
    // fract(x) == x - trunc(x), with the sign of x when x is not an integer.
    let values = [0.5f64, -0.5, 1.25, -1.25, 3.999, -3.999, 1e20, -1e20];
    for &x in values.iter() {
        let t = f64::from_bits(b64(x).trunc().to_bits());
        let fract = x - t;
        assert_eq!(fract.to_bits(), x.fract().to_bits(), "fract differs for {x}");
        if fract != 0.0 {
            assert_eq!(fract.is_sign_negative(), x.is_sign_negative());
        }
    }
}
