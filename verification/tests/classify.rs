use float::{Binary32, Binary64, Classification, Float};

fn b64(x: f64) -> Binary64 {
    Binary64::from_bits(x.to_bits())
}

fn b32(x: f32) -> Binary32 {
    Binary32::from_bits(x.to_bits())
}

fn check_consistent64(x: f64) {
    let v = b64(x);
    let c = v.classify();
    assert_eq!(v.is_nan(), c == Classification::Nan);
    assert_eq!(v.is_infinite(), c == Classification::Infinite);
    assert_eq!(v.is_finite(), !(v.is_nan() || v.is_infinite()));
    assert_eq!(v.is_normal(), c == Classification::Normal);
    // Agreement with the host's own view of the same value.
    assert_eq!(v.is_nan(), x.is_nan());
    assert_eq!(v.is_infinite(), x.is_infinite());
    assert_eq!(v.is_finite(), x.is_finite());
    assert_eq!(v.is_normal(), x.is_normal());
}

fn check_consistent32(x: f32) {
    let v = b32(x);
    let c = v.classify();
    assert_eq!(v.is_nan(), c == Classification::Nan);
    assert_eq!(v.is_infinite(), c == Classification::Infinite);
    assert_eq!(v.is_finite(), !(v.is_nan() || v.is_infinite()));
    assert_eq!(v.is_normal(), c == Classification::Normal);
    assert_eq!(v.is_nan(), x.is_nan());
    assert_eq!(v.is_infinite(), x.is_infinite());
    assert_eq!(v.is_finite(), x.is_finite());
    assert_eq!(v.is_normal(), x.is_normal());
}

#[test]
fn classify_matches_predicates_f64() {
    let values = [
        0.0,
        -0.0,
        1.0,
        -1.0,
        0.5,
        f64::MAX,
        f64::MIN,
        f64::MIN_POSITIVE,
        5e-324,
        -5e-324,
        1e-310,
        f64::INFINITY,
        f64::NEG_INFINITY,
        f64::NAN,
        -f64::NAN,
    ];
    for &x in values.iter() {
        check_consistent64(x);
    }
}

#[test]
fn classify_matches_predicates_f32() {
    let values = [
        0.0f32,
        -0.0,
        1.0,
        -1.0,
        0.5,
        f32::MAX,
        f32::MIN,
        f32::MIN_POSITIVE,
        1e-45,
        -1e-45,
        1e-40,
        f32::INFINITY,
        f32::NEG_INFINITY,
        f32::NAN,
        -f32::NAN,
    ];
    for &x in values.iter() {
        check_consistent32(x);
    }
}

#[test]
fn classify_names_the_classes_f64() {
    assert_eq!(b64(0.0).classify(), Classification::Zero);
    assert_eq!(b64(-0.0).classify(), Classification::Zero);
    assert_eq!(b64(1e-310).classify(), Classification::Subnormal);
    assert_eq!(b64(5e-324).classify(), Classification::Subnormal);
    assert_eq!(b64(1.0).classify(), Classification::Normal);
    assert_eq!(b64(f64::MAX).classify(), Classification::Normal);
    assert_eq!(b64(f64::INFINITY).classify(), Classification::Infinite);
    assert_eq!(b64(f64::NEG_INFINITY).classify(), Classification::Infinite);
    assert_eq!(b64(f64::NAN).classify(), Classification::Nan);
    assert_eq!(b64(0.0 / 0.0).classify(), Classification::Nan);
}

#[test]
fn classify_names_the_classes_f32() {
    assert_eq!(b32(0.0).classify(), Classification::Zero);
    assert_eq!(b32(-0.0).classify(), Classification::Zero);
    assert_eq!(b32(1e-45).classify(), Classification::Subnormal);
    assert_eq!(b32(1.0).classify(), Classification::Normal);
    assert_eq!(b32(f32::INFINITY).classify(), Classification::Infinite);
    assert_eq!(b32(f32::NAN).classify(), Classification::Nan);
}

#[test]
fn nan_propagates_through_arithmetic() {
    // Domain violations produce NaN values, never faults, and the bit-level
    // classification sees them as such.
    let q = 0.0f64 / 0.0f64;
    assert_eq!(b64(q).classify(), Classification::Nan);
    let r = f64::INFINITY - f64::INFINITY;
    assert_eq!(b64(r).classify(), Classification::Nan);
    let s = (0.0f32 / 0.0f32) + 1.0f32;
    assert_eq!(b32(s).classify(), Classification::Nan);
}
