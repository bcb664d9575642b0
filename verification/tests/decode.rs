use float::{Binary32, Binary64, Float};

fn decode64(x: f64) -> (u64, i16, i8) {
    Binary64::from_bits(x.to_bits()).integer_decode()
}

fn decode32(x: f32) -> (u64, i16, i8) {
    Binary32::from_bits(x.to_bits()).integer_decode()
}

fn reconstruct64(m: u64, e: i16, s: i8) -> f64 {
    // Split the scaling so that even the smallest exponents stay
    // representable at every intermediate step.
    let half = e / 2;
    let rest = e - half;
    (s as f64) * (m as f64) * 2f64.powi(half as i32) * 2f64.powi(rest as i32)
}

fn reconstruct32(m: u64, e: i16, s: i8) -> f32 {
    let half = e / 2;
    let rest = e - half;
    (s as f32) * (m as f32) * 2f32.powi(half as i32) * 2f32.powi(rest as i32)
}

#[test]
fn integer_decode_known_triples_f64() {
    assert_eq!(decode64(1.0), (1u64 << 52, -52, 1));
    assert_eq!(decode64(-1.0), (1u64 << 52, -52, -1));
    assert_eq!(decode64(0.25), (1u64 << 52, -54, 1));
    assert_eq!(decode64(0.0), (0, -1075, 1));
    assert_eq!(decode64(-0.0), (0, -1075, -1));
    // The smallest positive subnormal: the raw mantissa 1, shifted once, no
    // implicit bit.
    assert_eq!(decode64(5e-324), (2, -1075, 1));
    // The smallest positive normal number carries the implicit bit.
    assert_eq!(decode64(f64::MIN_POSITIVE), (1u64 << 52, -1074, 1));
}

#[test]
fn integer_decode_known_triples_f32() {
    assert_eq!(decode32(1.0), (1u64 << 23, -23, 1));
    assert_eq!(decode32(-1.0), (1u64 << 23, -23, -1));
    assert_eq!(decode32(0.25), (1u64 << 23, -25, 1));
    assert_eq!(decode32(0.0), (0, -150, 1));
    assert_eq!(decode32(-0.0), (0, -150, -1));
    assert_eq!(decode32(1e-45), (2, -150, 1));
    assert_eq!(decode32(f32::MIN_POSITIVE), (1u64 << 23, -149, 1));
}

#[test]
fn integer_decode_round_trips_f64() {
    let values = [
        0.0,
        -0.0,
        1.0,
        -1.0,
        0.5,
        6.25,
        -6.25,
        3.141592653589793,
        1e10,
        -1e10,
        f64::MAX,
        f64::MIN,
        f64::MIN_POSITIVE,
        5e-324,
        -5e-324,
        1e-310,
    ];
    for &x in values.iter() {
        let (m, e, s) = decode64(x);
        let back = reconstruct64(m, e, s);
        assert_eq!(back.to_bits(), x.to_bits(), "round trip failed for {x}");
    }
}

#[test]
fn integer_decode_round_trips_f32() {
    let values = [
        0.0f32,
        -0.0,
        1.0,
        -1.0,
        0.5,
        6.25,
        -6.25,
        3.1415927,
        1e10,
        -1e10,
        f32::MAX,
        f32::MIN,
        f32::MIN_POSITIVE,
        1e-45,
        -1e-45,
        1e-40,
    ];
    for &x in values.iter() {
        let (m, e, s) = decode32(x);
        let back = reconstruct32(m, e, s);
        assert_eq!(back.to_bits(), x.to_bits(), "round trip failed for {x}");
    }
}

#[test]
fn integer_decode_nan_and_infinity_fields() {
    // Infinities decode with a zero raw mantissa plus the implicit bit, at
    // the top exponent.
    let (m, e, s) = decode64(f64::INFINITY);
    assert_eq!((m, e, s), (1u64 << 52, 2047 - 1075, 1));
    let (m, e, s) = decode64(f64::NEG_INFINITY);
    assert_eq!((m, e, s), (1u64 << 52, 2047 - 1075, -1));
    // A NaN keeps its payload in the decoded mantissa.
    let (m, e, _) = decode64(f64::NAN);
    assert_eq!(e, 2047 - 1075);
    assert!(m > (1u64 << 52));
}
