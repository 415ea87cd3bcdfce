//! Encoder, plaintext and fixed-point behaviour on chosen values.

use pyconcrete::encoder::Encoder;
use pyconcrete::error::CryptoError;
use pyconcrete::fix::Fix;
use pyconcrete::plaintext::Plaintext;

fn fix(x: f64) -> Fix {
    Fix::from_units((x * 18446744073709551616.0f64) as i128)
}

fn to_f64(v: Fix) -> f64 {
    v.units as f64 / 18446744073709551616.0f64
}

#[test]
fn new_encoder_fields() {
    let e = Encoder::new(fix(0.2), fix(0.8), 8, 4).unwrap();
    assert_eq!(e.o.units, fix(0.2).units);
    assert_eq!(e.delta.units, fix(0.8).units - fix(0.2).units);
    assert_eq!(e.nb_bit_precision, 8);
    assert_eq!(e.nb_bit_padding, 4);
    assert!(!e.round);
    assert!(e.is_valid());
}

#[test]
fn new_encoder_interval_error() {
    let r = Encoder::new(fix(0.8), fix(0.2), 8, 4);
    assert_eq!(r.unwrap_err(), CryptoError::InvalidIntervalError);
    let r = Encoder::new(fix(0.5), fix(0.5), 8, 4);
    assert_eq!(r.unwrap_err(), CryptoError::InvalidIntervalError);
}

#[test]
fn new_encoder_precision_error() {
    let r = Encoder::new(fix(0.2), fix(0.8), 0, 4);
    assert_eq!(r.unwrap_err(), CryptoError::InvalidPrecisionError);
}

#[test]
fn interval_bounds() {
    // get_min, get_max and get_size are exact over the encoder's own grid.
    let e = Encoder::new(fix(-1.5), fix(2.5), 6, 2).unwrap();
    let g = e.get_granularity();
    assert_eq!(e.get_min().units, e.o.units);
    assert_eq!(e.get_max().units, e.o.units + e.delta.units - g.units);
    assert_eq!(e.get_size().units, e.delta.units - g.units);
    let expected_g = to_f64(e.delta) / 64.0;
    assert!((to_f64(g) - expected_g).abs() < 1e-12);
}

#[test]
fn invalidity() {
    let z = Encoder::zero();
    assert!(!z.is_valid());
    let mut e = Encoder::new(fix(0.0), fix(1.0), 4, 0).unwrap();
    e.nb_bit_precision = 0;
    assert!(!e.is_valid());
    let mut e2 = Encoder::new(fix(0.0), fix(1.0), 4, 0).unwrap();
    e2.delta = Fix::from_units(0);
    assert!(!e2.is_valid());
}

#[test]
fn round_trip_plain_context() {
    // Encoder over [0.2, 0.8) with 8 bits: decode of encode lands within
    // one granularity of the message.
    let e = Encoder::new(fix(0.2), fix(0.8), 8, 4).unwrap();
    let m = fix(0.6);
    let t = e.encode_core(m).unwrap();
    let d = e.decode_core(t).unwrap();
    let tol = 0.6 / 256.0 + 1e-12;
    assert!((to_f64(d) - 0.6).abs() <= tol, "err {}", (to_f64(d) - 0.6).abs());
}

#[test]
fn round_trip_rounding_context() {
    let e = Encoder::new_rounding_context(fix(-5.0), fix(5.0), 8, 3).unwrap();
    assert!(e.round);
    let m = fix(-3.2);
    let t = e.encode_core(m).unwrap();
    let d = e.decode_core(t).unwrap();
    let tol = 10.0 / 256.0 + 1e-12;
    assert!((to_f64(d) + 3.2).abs() <= tol);
}

#[test]
fn encode_outside_interval_is_error() {
    let e = Encoder::new(fix(0.2), fix(0.8), 8, 4).unwrap();
    assert_eq!(
        e.encode_core(fix(0.9)).unwrap_err(),
        CryptoError::MessageOutsideIntervalError
    );
    assert_eq!(
        e.encode_core(fix(0.1)).unwrap_err(),
        CryptoError::MessageOutsideIntervalError
    );
    // The operator variant accepts anything, wrapping around the torus.
    assert!(e.encode_outside_interval_operators(fix(0.9)).is_ok());
}

#[test]
fn encode_invalid_encoder_is_error() {
    let z = Encoder::zero();
    assert_eq!(
        z.decode_core(12345).unwrap_err(),
        CryptoError::InvalidEncoderError
    );
}

#[test]
fn new_centered_matches_new() {
    let a = Encoder::new_centered(fix(0.0), fix(5.4), 8, 4).unwrap();
    let b = Encoder::new(fix(-5.4), fix(5.4), 8, 4).unwrap();
    assert_eq!(a, b);
    assert_eq!(
        Encoder::new_centered(fix(1.0), fix(0.0), 8, 4).unwrap_err(),
        CryptoError::InvalidIntervalError
    );
}

#[test]
fn opposite_inplace_moves_interval() {
    let mut e = Encoder::new(fix(0.2), fix(0.8), 8, 4).unwrap();
    let old_max = e.get_max();
    e.opposite_inplace().unwrap();
    assert_eq!(e.o.units, -old_max.units);
}

#[test]
fn square_divided_by_four_interval() {
    let e = Encoder::new(fix(0.2), fix(0.8), 8, 4).unwrap();
    let sq = e.new_square_divided_by_four(4).unwrap();
    // Positive-only interval: both endpoints are squared and quartered.
    assert!((to_f64(sq.o) - 0.2 * 0.2 / 4.0).abs() < 1e-6);
    assert_eq!(sq.nb_bit_precision, 8);
    assert_eq!(sq.nb_bit_padding, 4);
}

#[test]
fn plaintext_zero_and_encode() {
    let p = Plaintext::zero(3);
    assert_eq!(p.nb_plaintexts, 3);
    assert_eq!(p.plaintexts, vec![0u64, 0u64, 0u64]);
    assert!(!p.encoders[0].is_valid());

    let e = Encoder::new(fix(-5.0), fix(5.0), 8, 0).unwrap();
    let msgs = vec![fix(-3.2), fix(4.3), fix(0.12)];
    let p = Plaintext::encode(&msgs, &e).unwrap();
    assert_eq!(p.nb_plaintexts, 3);
    let decoded = p.decode().unwrap();
    for (d, m) in decoded.iter().zip([-3.2f64, 4.3, 0.12].iter()) {
        assert!((to_f64(*d) - m).abs() <= 10.0 / 256.0 + 1e-12);
    }
}

#[test]
fn plaintext_decode_nth_index_error() {
    let e = Encoder::new(fix(-5.0), fix(5.0), 8, 0).unwrap();
    let p = Plaintext::encode(&vec![fix(1.0)], &e).unwrap();
    assert_eq!(p.decode_nth(1).unwrap_err(), CryptoError::IndexError);
    let d = p.decode_nth(0).unwrap();
    assert!((to_f64(d) - 1.0).abs() <= 10.0 / 256.0 + 1e-12);
}

#[test]
fn plaintext_encode_inplace_wrong_size() {
    let e = Encoder::new(fix(-5.0), fix(5.0), 8, 0).unwrap();
    let mut p = Plaintext::zero(2);
    p.set_encoders_from_one(&e);
    let r = p.encode_inplace(&vec![fix(1.0)]);
    assert_eq!(r.unwrap_err(), CryptoError::WrongSizeError);
    p.encode_inplace(&vec![fix(1.0), fix(2.0)]).unwrap();
    let d = p.decode_nth(1).unwrap();
    assert!((to_f64(d) - 2.0).abs() <= 10.0 / 256.0 + 1e-12);
}

#[test]
fn update_precision_from_variance_is_advisory() {
    let e = Encoder::new(fix(0.2), fix(0.8), 8, 4).unwrap();
    // Tiny noise: no precision bits are lost.
    let small = pyconcrete::variance::Variance::from_log2_std_dev(-40);
    assert_eq!(e.update_precision_from_variance(small), 0);
    // Enormous noise drowns bits, but the encoder itself never changes.
    let big = pyconcrete::variance::Variance::from_log2_std_dev(-2);
    assert!(e.update_precision_from_variance(big) > 0);
    assert_eq!(e.nb_bit_precision, 8);
}

#[test]
fn encode_floors_to_the_grid() {
    // Four units of interval, one bit of precision, no padding: the grid
    // points are at 0 and 2 units. Message 3 floors to grid index 1.
    let e = Encoder::new(Fix::from_units(0), Fix::from_units(4), 1, 0).unwrap();
    let t = e.encode_core(Fix::from_units(3)).unwrap();
    assert_eq!(t, 1u64 << 63);
    let d = e.decode_core(t).unwrap();
    // The decode lands at the floor grid point, within one granularity
    // below the message.
    assert_eq!(d.units, 2);
    // Message 1 floors to grid index 0.
    let t0 = e.encode_core(Fix::from_units(1)).unwrap();
    assert_eq!(t0, 0);
}

#[test]
fn encode_rounds_to_nearest_in_rounding_context() {
    let e = Encoder::new_rounding_context(Fix::from_units(0), Fix::from_units(4), 1, 0)
        .unwrap();
    // Message 1 is halfway between grid points 0 and 2; ties round up.
    let t = e.encode_core(Fix::from_units(1)).unwrap();
    assert_eq!(t, 1u64 << 63);
    // Message 3 is in the topmost half step: nearest-grid rounding wraps to
    // the interval start.
    let t3 = e.encode_core(Fix::from_units(3)).unwrap();
    assert_eq!(t3, 0);
    assert_eq!(e.decode_core(t3).unwrap().units, 0);
}

#[test]
fn set_encoders_are_value_copies() {
    // Assigning a rounding-context encoder into slots copies the rounding
    // flag too: the slots equal the source exactly.
    let e = Encoder::new_rounding_context(fix(0.0), fix(1.0), 4, 2).unwrap();
    let mut p = Plaintext::zero(2);
    p.set_encoders_from_one(&e);
    assert_eq!(p.encoders[0], e);
    assert_eq!(p.encoders[1], e);
    let e2 = Encoder::new(fix(-1.0), fix(1.0), 3, 1).unwrap();
    p.set_nth_encoder(1, &e2);
    assert_eq!(p.encoders[0], e);
    assert_eq!(p.encoders[1], e2);
    let mut q = Plaintext::zero(2);
    q.set_encoders(&vec![e, e2]);
    assert_eq!(q.encoders, vec![e, e2]);
}
