//! Homomorphic algebra on LWE ciphertexts, with caller-supplied randomness
//! so every value is reproducible.

use pyconcrete::encoder::Encoder;
use pyconcrete::error::CryptoError;
use pyconcrete::fix::Fix;
use pyconcrete::lwe::LWE;
use pyconcrete::lwe_params::LWEParams;
use pyconcrete::lwe_secret_key::LWESecretKey;

fn fix(x: f64) -> Fix {
    Fix::from_units((x * 18446744073709551616.0f64) as i128)
}

fn to_f64(v: Fix) -> f64 {
    v.units as f64 / 18446744073709551616.0f64
}

fn test_key(dimension: usize) -> LWESecretKey {
    let bits: Vec<u64> = (0..dimension).map(|i| ((i * 7 + 3) % 2) as u64).collect();
    LWESecretKey::new(&LWEParams::new(dimension, -25), bits)
}

fn test_mask(dimension: usize, seed: u64) -> Vec<u64> {
    (0..dimension)
        .map(|i| (i as u64).wrapping_mul(0x9e37_79b9_7f4a_7c15).wrapping_add(seed))
        .collect()
}

fn encrypt(sk: &LWESecretKey, m: f64, e: &Encoder, seed: u64) -> LWE {
    LWE::encode_encrypt(sk, fix(m), e, test_mask(sk.dimension, seed), 0).unwrap()
}

#[test]
fn encrypt_decrypt_round_trip() {
    let e = Encoder::new(fix(-2.0), fix(6.0), 4, 4).unwrap();
    let sk = test_key(32);
    let c = encrypt(&sk, -1.0, &e, 11);
    let d = c.decrypt_decode(&sk).unwrap();
    assert!((to_f64(d) + 1.0).abs() <= 8.0 / 16.0 + 1e-12);
}

#[test]
fn decrypt_wrong_dimension() {
    let e = Encoder::new(fix(-2.0), fix(6.0), 4, 4).unwrap();
    let sk = test_key(32);
    let other = test_key(16);
    let c = encrypt(&sk, -1.0, &e, 11);
    assert_eq!(c.decrypt_decode(&other).unwrap_err(), CryptoError::DimensionError);
}

#[test]
fn add_with_padding_dimension_mismatch() {
    // Two ciphertexts over different mask dimensions cannot be added.
    let e = Encoder::new(fix(0.0), fix(8.0), 4, 2).unwrap();
    let a = encrypt(&test_key(630), 1.0, &e, 1);
    let b = encrypt(&test_key(1024), 2.0, &e, 2);
    assert_eq!(a.add_with_padding(&b).unwrap_err(), CryptoError::DimensionError);
}

#[test]
fn add_with_padding_exhausted_padding() {
    let e = Encoder::new(fix(0.0), fix(8.0), 4, 0).unwrap();
    let sk = test_key(16);
    let a = encrypt(&sk, 1.0, &e, 1);
    let b = encrypt(&sk, 2.0, &e, 2);
    assert_eq!(
        a.add_with_padding(&b).unwrap_err(),
        CryptoError::NotEnoughPaddingError
    );
}

#[test]
fn add_with_padding_decodes_to_sum() {
    let e = Encoder::new(fix(0.0), fix(8.0), 5, 2).unwrap();
    let sk = test_key(24);
    let a = encrypt(&sk, 1.5, &e, 5);
    let b = encrypt(&sk, 2.25, &e, 9);
    let c = a.add_with_padding(&b).unwrap();
    assert_eq!(c.encoder.nb_bit_precision, 5);
    assert_eq!(c.encoder.nb_bit_padding, 1);
    assert_eq!(c.encoder.delta.units, 2 * e.delta.units);
    let d = c.decrypt_decode(&sk).unwrap();
    assert!((to_f64(d) - 3.75).abs() <= 16.0 / 32.0 + 1e-9, "got {}", to_f64(d));
}

#[test]
fn add_with_padding_exact_grows_precision() {
    let e1 = Encoder::new(fix(0.0), fix(8.0), 5, 2).unwrap();
    let e2 = Encoder::new(fix(1.0), fix(9.0), 3, 2).unwrap();
    let sk = test_key(24);
    let a = encrypt(&sk, 1.5, &e1, 5);
    let b = encrypt(&sk, 2.25, &e2, 9);
    let c = a.add_with_padding_exact(&b).unwrap();
    assert_eq!(c.encoder.nb_bit_precision, 6);
    let d = c.decrypt_decode(&sk).unwrap();
    assert!((to_f64(d) - 3.75).abs() <= 16.0 / 8.0 + 1e-9);
}

#[test]
fn sub_with_padding_decodes_to_difference() {
    let e = Encoder::new(fix(0.0), fix(8.0), 5, 2).unwrap();
    let sk = test_key(24);
    let a = encrypt(&sk, 5.0, &e, 5);
    let b = encrypt(&sk, 1.5, &e, 9);
    let c = a.sub_with_padding(&b).unwrap();
    let d = c.decrypt_decode(&sk).unwrap();
    assert!((to_f64(d) - 3.5).abs() <= 16.0 / 32.0 + 1e-9, "got {}", to_f64(d));
}

#[test]
fn opposite_decodes_to_negation() {
    let e = Encoder::new(fix(-2.0), fix(6.0), 5, 3).unwrap();
    let sk = test_key(24);
    let a = encrypt(&sk, 1.5, &e, 7);
    let old_max = a.encoder.get_max();
    let c = a.opposite().unwrap();
    assert_eq!(c.encoder.o.units, -old_max.units);
    let d = c.decrypt_decode(&sk).unwrap();
    assert!((to_f64(d) + 1.5).abs() <= 8.0 / 32.0 + 1e-9, "got {}", to_f64(d));
}

#[test]
fn add_constant_dynamic_encoder_shifts_interval() {
    let e = Encoder::new(fix(100.0), fix(110.0), 8, 0).unwrap();
    let sk = test_key(16);
    let a = encrypt(&sk, 106.0, &e, 3);
    let c = a.add_constant_dynamic_encoder(fix(-4.5)).unwrap();
    let d = c.decrypt_decode(&sk).unwrap();
    assert!((to_f64(d) - 101.5).abs() <= 10.0 / 256.0 + 1e-9);
}

#[test]
fn add_constant_static_encoder_adds_to_body() {
    let e = Encoder::new(fix(100.0), fix(110.0), 8, 2).unwrap();
    let sk = test_key(16);
    let a = encrypt(&sk, 103.0, &e, 3);
    let c = a.add_constant_static_encoder(fix(2.0)).unwrap();
    let d = c.decrypt_decode(&sk).unwrap();
    assert!((to_f64(d) - 105.0).abs() <= 10.0 / 256.0 + 1e-9, "got {}", to_f64(d));
}

#[test]
fn mul_constant_static_encoder_scales_value() {
    let e = Encoder::new(fix(-30.0), fix(30.0), 6, 4).unwrap();
    let sk = test_key(16);
    let a = encrypt(&sk, 6.5, &e, 3);
    let c = a.mul_constant_static_encoder(2).unwrap();
    let d = c.decrypt_decode(&sk).unwrap();
    assert!((to_f64(d) - 13.0).abs() <= 2.0 * 60.0 / 64.0 + 1e-9, "got {}", to_f64(d));
}

#[test]
fn mul_constant_with_padding_zero_in_interval_error() {
    // An interval that excludes zero refuses the real-constant product.
    let e = Encoder::new(fix(100.0), fix(110.0), 6, 6).unwrap();
    let sk = test_key(16);
    let a = encrypt(&sk, 105.0, &e, 3);
    assert_eq!(
        a.mul_constant_with_padding(fix(2.432), fix(6.0), 6).unwrap_err(),
        CryptoError::ZeroInIntervalError
    );
}

#[test]
fn mul_constant_with_padding_constant_maximum_error() {
    let e = Encoder::new(fix(-10.0), fix(10.0), 6, 8).unwrap();
    let sk = test_key(16);
    let a = encrypt(&sk, 5.0, &e, 3);
    assert_eq!(
        a.mul_constant_with_padding(fix(7.0), fix(6.0), 6).unwrap_err(),
        CryptoError::ConstantMaximumError
    );
}

#[test]
fn mul_constant_with_padding_scales_value() {
    let e = Encoder::new(fix(-10.0), fix(10.0), 6, 8).unwrap();
    let sk = test_key(16);
    let a = encrypt(&sk, 2.0, &e, 3);
    let c = a.mul_constant_with_padding(fix(2.5), fix(4.0), 6).unwrap();
    assert_eq!(c.encoder.nb_bit_padding, 2);
    let d = c.decrypt_decode(&sk).unwrap();
    assert!((to_f64(d) - 5.0).abs() <= 80.0 / 64.0 + 1e-9, "got {}", to_f64(d));
}

#[test]
fn remove_padding_bookkeeping() {
    let e = Encoder::new(fix(-2.0), fix(6.0), 4, 4).unwrap();
    let sk = test_key(16);
    let mut a = encrypt(&sk, -1.0, &e, 11);
    a.remove_padding_inplace(2).unwrap();
    assert_eq!(a.encoder.nb_bit_padding, 2);
    let d = a.decrypt_decode(&sk).unwrap();
    assert!((to_f64(d) + 1.0).abs() <= 8.0 / 16.0 + 1e-9);
    assert_eq!(
        a.remove_padding_inplace(5).unwrap_err(),
        CryptoError::NotEnoughPaddingError
    );
}

#[test]
fn lwe_zero_construction() {
    let z = LWE::zero(630).unwrap();
    assert_eq!(z.dimension, 630);
    assert_eq!(z.get_ciphertext_size(), 631);
    assert!(!z.encoder.is_valid());
    assert_eq!(
        LWE::zero(0).unwrap_err(),
        CryptoError::ZeroCiphertextsInStructureError
    );
}

#[test]
fn add_with_new_min_requires_padding() {
    // Two valid zero-padding operands are refused, not combined.
    let e = Encoder::new(fix(0.0), fix(8.0), 5, 0).unwrap();
    let sk = test_key(16);
    let a = encrypt(&sk, 1.0, &e, 1);
    let b = encrypt(&sk, 2.0, &e, 2);
    assert_eq!(
        a.add_with_new_min(&b, fix(1.0)).unwrap_err(),
        CryptoError::NotEnoughPaddingError
    );
    // With a bit of padding the addition goes through.
    let e2 = Encoder::new(fix(0.0), fix(8.0), 5, 2).unwrap();
    let a2 = encrypt(&sk, 1.0, &e2, 1);
    let b2 = encrypt(&sk, 2.0, &e2, 2);
    let c = a2.add_with_new_min(&b2, fix(1.0)).unwrap();
    assert_eq!(c.encoder.o.units, fix(1.0).units);
}

#[test]
fn add_centered_requires_padding_compatibility() {
    let sk = test_key(16);
    let e1 = Encoder::new(fix(0.0), fix(8.0), 5, 2).unwrap();
    let e3 = Encoder::new(fix(0.0), fix(8.0), 5, 3).unwrap();
    let a = encrypt(&sk, 1.0, &e1, 1);
    let b = encrypt(&sk, 2.0, &e3, 2);
    assert_eq!(a.add_centered(&b).unwrap_err(), CryptoError::PaddingError);
    let e0 = Encoder::new(fix(0.0), fix(8.0), 5, 0).unwrap();
    let a0 = encrypt(&sk, 1.0, &e0, 1);
    let b0 = encrypt(&sk, 2.0, &e0, 2);
    assert_eq!(
        a0.add_centered(&b0).unwrap_err(),
        CryptoError::NotEnoughPaddingError
    );
}

#[test]
fn mul_constant_with_padding_success_is_owed() {
    // All preconditions hold, so the multiplication must succeed and scale
    // the decoded value.
    let e = Encoder::new(fix(-10.0), fix(10.0), 6, 8).unwrap();
    let sk = test_key(16);
    let a = encrypt(&sk, 2.0, &e, 3);
    let c = a.mul_constant_with_padding(fix(-2.5), fix(4.0), 6).unwrap();
    let d = c.decrypt_decode(&sk).unwrap();
    let got = d.units as f64 / 18446744073709551616.0f64;
    assert!((got + 5.0).abs() <= 80.0 / 64.0 + 1e-9, "got {}", got);
    let mut inplace = encrypt(&sk, 2.0, &e, 3);
    inplace
        .mul_constant_with_padding_inplace(fix(2.5), fix(4.0), 6)
        .unwrap();
    assert_eq!(inplace.encoder.nb_bit_padding, 2);
}
