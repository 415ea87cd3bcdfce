//! Keys, key-switching and bootstrapping handles, and the vector
//! containers.

use pyconcrete::encoder::Encoder;
use pyconcrete::error::CryptoError;
use pyconcrete::fix::Fix;
use pyconcrete::lwe_bsk::LWEBSK;
use pyconcrete::lwe_ksk::LWEKSK;
use pyconcrete::lwe_params::{lwe128_1024, lwe128_630, LWEParams};
use pyconcrete::lwe_secret_key::LWESecretKey;
use pyconcrete::rlwe_params::{rlwe128_1024_1, RLWEParams};
use pyconcrete::rlwe_secret_key::RLWESecretKey;
use pyconcrete::variance::{Variance, VAR_MAX_UNITS};
use pyconcrete::vector_lwe::VectorLWE;
use pyconcrete::vector_rlwe::VectorRLWE;

fn fix(x: f64) -> Fix {
    Fix::from_units((x * 18446744073709551616.0f64) as i128)
}

fn bits(n: usize) -> Vec<u64> {
    (0..n).map(|i| ((i * 5 + 1) % 2) as u64).collect()
}

#[test]
fn params_presets() {
    assert_eq!(lwe128_630().dimension, 630);
    assert_eq!(lwe128_630().log2_std_dev, -14);
    assert_eq!(lwe128_1024().dimension, 1024);
    assert_eq!(rlwe128_1024_1().polynomial_size, 1024);
    assert_eq!(rlwe128_1024_1().dimension, 1);
    let r = RLWEParams::new(1000, 1, -25);
    assert_eq!(r.unwrap_err(), CryptoError::NotPowerOfTwoError);
    assert!(RLWEParams::new(1024, 1, -25).is_ok());
}

#[test]
fn key_conversions() {
    let rk = RLWESecretKey::new_raw(256, 4, -25, bits(1024));
    let lk = rk.to_lwe_secret_key();
    assert_eq!(lk.dimension, 1024);
    let back = lk.to_rlwe_secret_key(256).unwrap();
    assert_eq!(back.dimension, 4);
    assert_eq!(back.polynomial_size, 256);
    assert_eq!(
        lk.to_rlwe_secret_key(1000).unwrap_err(),
        CryptoError::DimensionError
    );
}

#[test]
fn ksk_and_bsk_handles() {
    let before = LWESecretKey::new(&LWEParams::new(16, -14), bits(16));
    let after = LWESecretKey::new(&LWEParams::new(24, -25), bits(24));
    let ksk = LWEKSK::new(&before, &after, 3, 5);
    assert_eq!(ksk.dimension_before, 16);
    assert_eq!(ksk.dimension_after, 24);
    assert_eq!(ksk.base_log, 3);
    assert_eq!(ksk.level, 5);

    let rk = RLWESecretKey::new_raw(16, 1, -25, bits(16));
    let bsk = LWEBSK::new(&before, &rk, 3, 5);
    assert_eq!(bsk.get_lwe_dimension(), 16);
    assert_eq!(bsk.polynomial_size, 16);
    assert_eq!(bsk.get_polynomial_size_log(), 4);
}

#[test]
fn keyswitch_checks_dimension() {
    let e = Encoder::new(fix(-2.0), fix(6.0), 4, 4).unwrap();
    let sk = LWESecretKey::new(&LWEParams::new(16, -25), bits(16));
    let after = LWESecretKey::new(&LWEParams::new(24, -25), bits(24));
    let ksk = LWEKSK::new(&sk, &after, 3, 5);
    let c = pyconcrete::lwe::LWE::encode_encrypt(
        &sk,
        fix(1.0),
        &e,
        vec![0u64; 16],
        0,
    )
    .unwrap();
    let switched = c.keyswitch(&ksk, vec![0u64; 25]).unwrap();
    assert_eq!(switched.dimension, 24);
    assert_eq!(switched.encoder.o.units, e.o.units);

    let bad = LWEKSK::new(&after, &sk, 3, 5);
    assert_eq!(
        c.keyswitch(&bad, vec![0u64; 17]).unwrap_err(),
        CryptoError::DimensionError
    );
}

#[test]
fn lookup_table_encodes_function_values() {
    let sk = LWESecretKey::new(&LWEParams::new(16, -25), bits(16));
    let rk = RLWESecretKey::new_raw(16, 1, -25, bits(16));
    let bsk = LWEBSK::new(&sk, &rk, 3, 5);
    let e_in = Encoder::new(fix(0.0), fix(1.0), 3, 2).unwrap();
    let e_out = Encoder::new(fix(0.0), fix(2.0), 3, 2).unwrap();
    let inputs = bsk.bootstrap_input_values(&e_in).unwrap();
    assert_eq!(inputs.len(), 16);
    // Identity table: each entry encodes its own grid input.
    let lut = bsk
        .generate_functional_look_up_table(&e_in, &e_out, &inputs)
        .unwrap();
    assert_eq!(lut.len(), 16);
    // With no padding on the input the table is refused.
    let e_flat = Encoder::new(fix(0.0), fix(1.0), 3, 0).unwrap();
    assert_eq!(
        bsk.generate_functional_look_up_table(&e_flat, &e_out, &inputs)
            .unwrap_err(),
        CryptoError::NotEnoughPaddingError
    );
}

#[test]
fn vector_lwe_zero_extract_copy() {
    let v = VectorLWE::zero(8, 3).unwrap();
    assert_eq!(v.nb_ciphertexts, 3);
    assert_eq!(v.get_ciphertext_size(), 9);
    assert_eq!(
        VectorLWE::zero(8, 0).unwrap_err(),
        CryptoError::ZeroCiphertextsInStructureError
    );
    let one = v.extract_nth(1).unwrap();
    assert_eq!(one.nb_ciphertexts, 1);
    assert_eq!(one.ciphertexts.len(), 9);
    assert_eq!(v.extract_nth(3).unwrap_err(), CryptoError::IndexError);

    let mut dst = VectorLWE::zero(8, 2).unwrap();
    dst.copy_in_nth_nth_inplace(0, &v, 2).unwrap();
    assert_eq!(
        dst.copy_in_nth_nth_inplace(5, &v, 0).unwrap_err(),
        CryptoError::IndexError
    );
}

#[test]
fn vector_lwe_decrypt_raw_of_zero_is_zero() {
    let sk = LWESecretKey::new(&LWEParams::new(8, -25), bits(8));
    let v = VectorLWE::zero(8, 2).unwrap();
    let phases = v.decrypt_raw(&sk).unwrap();
    assert_eq!(phases, vec![0u64, 0u64]);
}

#[test]
fn vector_rlwe_zero_and_nb_valid() {
    let v = VectorRLWE::zero(16, 1, 2).unwrap();
    assert_eq!(v.nb_ciphertexts, 2);
    assert_eq!(v.get_ciphertext_size(), 32);
    assert_eq!(v.nb_valid(), 0);
    assert_eq!(
        VectorRLWE::zero(1000, 1, 2).unwrap_err(),
        CryptoError::NotPowerOfTwoError
    );
    assert_eq!(
        VectorRLWE::zero(16, 1, 0).unwrap_err(),
        CryptoError::ZeroCiphertextsInStructureError
    );
}

#[test]
fn variance_bookkeeping_saturates() {
    let a = Variance::from_units(10);
    let b = Variance::from_units(32);
    assert_eq!(a.accumulate(b).units, 42);
    let big = Variance::from_units(VAR_MAX_UNITS);
    assert_eq!(big.accumulate(big).units, VAR_MAX_UNITS);
    assert_eq!(a.scaled_by_sq(3).units, 90);
    assert_eq!(Variance::from_log2_std_dev(-63).units, 1);
    assert_eq!(Variance::from_log2_std_dev(-100).units, 1);
}

#[test]
fn vector_lwe_add_with_padding_combines_slots() {
    let e = Encoder::new(fix(0.0), fix(8.0), 5, 2).unwrap();
    let mut a = VectorLWE::zero(8, 2).unwrap();
    let mut b = VectorLWE::zero(8, 2).unwrap();
    for i in 0..2 {
        a.encoders[i] = e;
        b.encoders[i] = e;
    }
    let c = a.add_with_padding(&b).unwrap();
    assert_eq!(c.nb_ciphertexts, 2);
    assert_eq!(c.encoders[0].nb_bit_padding, 1);
    assert_eq!(c.encoders[0].delta.units, 2 * e.delta.units);

    // Exhausted padding in a slot is refused.
    let flat = Encoder::new(fix(0.0), fix(8.0), 5, 0).unwrap();
    a.encoders[1] = flat;
    b.encoders[1] = flat;
    assert_eq!(
        a.add_with_padding(&b).unwrap_err(),
        CryptoError::NotEnoughPaddingError
    );
}

#[test]
fn keyswitch_preserves_the_encoder() {
    let e = Encoder::new_rounding_context(fix(-2.0), fix(6.0), 4, 4).unwrap();
    let sk = LWESecretKey::new(&LWEParams::new(16, -25), bits(16));
    let after = LWESecretKey::new(&LWEParams::new(24, -25), bits(24));
    let ksk = LWEKSK::new(&sk, &after, 3, 5);
    let c = pyconcrete::lwe::LWE::encode_encrypt(&sk, fix(1.0), &e, vec![0u64; 16], 0)
        .unwrap();
    let switched = c.keyswitch(&ksk, vec![0u64; 25]).unwrap();
    assert_eq!(switched.encoder, e);
}

#[test]
fn vector_add_with_padding_exact_grows_precision() {
    let e1 = Encoder::new(fix(0.0), fix(8.0), 5, 2).unwrap();
    let e2 = Encoder::new(fix(0.0), fix(8.0), 3, 2).unwrap();
    let mut a = VectorLWE::zero(8, 2).unwrap();
    let mut b = VectorLWE::zero(8, 2).unwrap();
    a.encoders[0] = e1;
    a.encoders[1] = e2;
    b.encoders[0] = e2;
    b.encoders[1] = e2;
    let c = a.add_with_padding_exact(&b).unwrap();
    assert_eq!(c.encoders[0].nb_bit_precision, 6);
    assert_eq!(c.encoders[1].nb_bit_precision, 4);
    assert_eq!(c.encoders[0].nb_bit_padding, 1);
}

#[test]
fn vector_encode_encrypt_several_encoders_round_trip() {
    let sk = LWESecretKey::new(&LWEParams::new(16, -25), bits(16));
    let e1 = Encoder::new(fix(-5.0), fix(5.0), 7, 2).unwrap();
    let e2 = Encoder::new(fix(0.0), fix(10.0), 6, 1).unwrap();
    let masks = vec![vec![3u64; 16], vec![7u64; 16]];
    let v = VectorLWE::encode_encrypt_several_encoders(
        &sk,
        &vec![fix(-3.0), fix(4.0)],
        &vec![e1, e2],
        masks,
        vec![0u64, 0u64],
    )
    .unwrap();
    assert_eq!(v.nb_ciphertexts, 2);
    let decoded = v.decrypt_decode(&sk).unwrap();
    let d0 = decoded[0].units as f64 / 18446744073709551616.0f64;
    let d1 = decoded[1].units as f64 / 18446744073709551616.0f64;
    assert!((d0 + 3.0).abs() <= 10.0 / 128.0 + 1e-9, "got {}", d0);
    assert!((d1 - 4.0).abs() <= 10.0 / 64.0 + 1e-9, "got {}", d1);
    // An out-of-interval message fails with that message's error.
    let bad = VectorLWE::encode_encrypt_several_encoders(
        &sk,
        &vec![fix(-3.0), fix(11.0)],
        &vec![e1, e2],
        vec![vec![3u64; 16], vec![7u64; 16]],
        vec![0u64, 0u64],
    );
    assert_eq!(bad.unwrap_err(), CryptoError::MessageOutsideIntervalError);
}

#[test]
fn vector_mul_constant_with_padding_per_slot() {
    let sk = LWESecretKey::new(&LWEParams::new(16, -25), bits(16));
    let e = Encoder::new(fix(-10.0), fix(10.0), 6, 8).unwrap();
    let v = VectorLWE::encode_encrypt_several_encoders(
        &sk,
        &vec![fix(2.0), fix(-1.5)],
        &vec![e, e],
        vec![vec![3u64; 16], vec![7u64; 16]],
        vec![0u64, 0u64],
    )
    .unwrap();
    let m = v
        .mul_constant_with_padding(&vec![fix(2.5), fix(-2.0)], fix(4.0), 6)
        .unwrap();
    assert_eq!(m.nb_ciphertexts, 2);
    assert_eq!(m.encoders[0].nb_bit_padding, 2);
    let decoded = m.decrypt_decode(&sk).unwrap();
    let d0 = decoded[0].units as f64 / 18446744073709551616.0f64;
    let d1 = decoded[1].units as f64 / 18446744073709551616.0f64;
    assert!((d0 - 5.0).abs() <= 80.0 / 64.0 + 1e-9, "got {}", d0);
    assert!((d1 - 3.0).abs() <= 80.0 / 64.0 + 1e-9, "got {}", d1);
    // A slot whose interval excludes zero fails the whole call.
    let off = Encoder::new(fix(100.0), fix(110.0), 6, 8).unwrap();
    let w = VectorLWE::encode_encrypt_several_encoders(
        &sk,
        &vec![fix(105.0)],
        &vec![off],
        vec![vec![3u64; 16]],
        vec![0u64],
    )
    .unwrap();
    assert_eq!(
        w.mul_constant_with_padding(&vec![fix(2.0)], fix(4.0), 6)
            .unwrap_err(),
        CryptoError::ZeroInIntervalError
    );
}

#[test]
fn vector_bootstrap_nth_with_function() {
    let sk = LWESecretKey::new(&LWEParams::new(16, -25), bits(16));
    let rk = RLWESecretKey::new_raw(16, 1, -25, bits(16));
    let bsk = LWEBSK::new(&sk, &rk, 3, 5);
    let e_in = Encoder::new(fix(0.0), fix(1.0), 3, 2).unwrap();
    let e_out = Encoder::new(fix(0.0), fix(2.0), 3, 2).unwrap();
    let inputs = bsk.bootstrap_input_values(&e_in).unwrap();
    let v = VectorLWE::encode_encrypt_several_encoders(
        &sk,
        &vec![fix(0.5), fix(0.25)],
        &vec![e_in, e_in],
        vec![vec![3u64; 16], vec![7u64; 16]],
        vec![0u64, 0u64],
    )
    .unwrap();
    let refreshed = vec![0u64; 17];
    let b = v
        .bootstrap_nth_with_function(1, &bsk, &inputs, &e_out, refreshed)
        .unwrap();
    assert_eq!(b.nb_ciphertexts, 1);
    assert_eq!(b.dimension, 16);
    assert_eq!(b.encoders[0], e_out);
    assert_eq!(
        v.bootstrap_nth_with_function(5, &bsk, &inputs, &e_out, vec![0u64; 17])
            .unwrap_err(),
        CryptoError::IndexError
    );
}

#[test]
fn vector_encrypt_raw_and_sub_with_padding() {
    let sk = LWESecretKey::new(&LWEParams::new(8, -25), bits(8));
    let e = Encoder::new(fix(0.0), fix(8.0), 5, 2).unwrap();
    let mk = |s: u64| vec![vec![s; 8], vec![s + 1; 8]];
    let mut a = VectorLWE::zero(8, 2).unwrap();
    let mut b = VectorLWE::zero(8, 2).unwrap();
    for i in 0..2 {
        a.encoders[i] = e;
        b.encoders[i] = e;
    }
    a.encrypt_raw(&sk, &vec![100, 200], mk(3), vec![0, 0]).unwrap();
    b.encrypt_raw(&sk, &vec![40, 50], mk(9), vec![0, 0]).unwrap();
    let c = a.sub_with_padding(&b).unwrap();
    assert_eq!(c.encoders[0].nb_bit_padding, 1);
    let phases = c.decrypt_raw(&sk).unwrap();
    // The difference plus the interval-shift correction of 2^(64 - padding).
    assert_eq!(phases[0], 60u64.wrapping_add(1u64 << 62));
    assert_eq!(phases[1], 150u64.wrapping_add(1u64 << 62));
}

#[test]
fn vector_opposite_nth_negates_one_slot() {
    let sk = LWESecretKey::new(&LWEParams::new(8, -25), bits(8));
    let e = Encoder::new(fix(0.0), fix(8.0), 5, 2).unwrap();
    let v = VectorLWE::encode_encrypt(
        &sk,
        &vec![fix(1.0), fix(2.0)],
        &e,
        vec![vec![3u64; 8], vec![7u64; 8]],
        vec![0, 0],
    )
    .unwrap();
    let n = v.opposite_nth(1).unwrap();
    let old_max = e.get_max();
    assert_eq!(n.encoders[0], e);
    assert_eq!(n.encoders[1].o.units, -old_max.units);
    assert_eq!(n.extract_nth(0).unwrap().ciphertexts, v.extract_nth(0).unwrap().ciphertexts);
    assert_eq!(v.opposite_nth(2).unwrap_err(), CryptoError::IndexError);
}

#[test]
fn vector_add_with_new_min_and_centered() {
    let sk = LWESecretKey::new(&LWEParams::new(8, -25), bits(8));
    let e = Encoder::new(fix(0.0), fix(8.0), 5, 2).unwrap();
    let mk = |s: u64| vec![vec![s; 8], vec![s + 1; 8]];
    let a = VectorLWE::encode_encrypt(&sk, &vec![fix(1.0), fix(2.0)], &e, mk(3), vec![0, 0])
        .unwrap();
    let b = VectorLWE::encode_encrypt(&sk, &vec![fix(3.0), fix(4.0)], &e, mk(9), vec![0, 0])
        .unwrap();
    let c = a.add_with_new_min(&b, &vec![fix(2.0), fix(4.0)]).unwrap();
    assert_eq!(c.encoders[0].o.units, fix(2.0).units);
    assert_eq!(c.encoders[1].o.units, fix(4.0).units);
    let d = a.add_centered(&b).unwrap();
    assert_eq!(
        d.encoders[0].o.units,
        e.o.units + e.o.units + e.delta.units / 2
    );
    let decoded = c.decrypt_decode(&sk).unwrap();
    let d0 = decoded[0].units as f64 / 18446744073709551616.0f64;
    assert!((d0 - 4.0).abs() <= 8.0 / 32.0 + 1e-9, "got {}", d0);
}

#[test]
fn vector_mul_constant_static_encoder() {
    let sk = LWESecretKey::new(&LWEParams::new(8, -25), bits(8));
    let e = Encoder::new(fix(-30.0), fix(30.0), 6, 4).unwrap();
    let v = VectorLWE::encode_encrypt(
        &sk,
        &vec![fix(6.5), fix(-3.0)],
        &e,
        vec![vec![3u64; 8], vec![7u64; 8]],
        vec![0, 0],
    )
    .unwrap();
    let m = v.mul_constant_static_encoder(&vec![2, -2]).unwrap();
    let decoded = m.decrypt_decode(&sk).unwrap();
    let d0 = decoded[0].units as f64 / 18446744073709551616.0f64;
    let d1 = decoded[1].units as f64 / 18446744073709551616.0f64;
    assert!((d0 - 13.0).abs() <= 2.0 * 60.0 / 64.0 + 1e-9, "got {}", d0);
    assert!((d1 - 6.0).abs() <= 2.0 * 60.0 / 64.0 + 1e-9, "got {}", d1);
}

#[test]
fn vector_keyswitch_per_slot() {
    let sk = LWESecretKey::new(&LWEParams::new(8, -25), bits(8));
    let after = LWESecretKey::new(&LWEParams::new(12, -25), bits(12));
    let ksk = LWEKSK::new(&sk, &after, 3, 5);
    let e = Encoder::new(fix(0.0), fix(8.0), 5, 2).unwrap();
    let v = VectorLWE::encode_encrypt(
        &sk,
        &vec![fix(1.0), fix(2.0)],
        &e,
        vec![vec![3u64; 8], vec![7u64; 8]],
        vec![0, 0],
    )
    .unwrap();
    let s = v.keyswitch(&ksk, vec![vec![0u64; 13], vec![0u64; 13]]).unwrap();
    assert_eq!(s.dimension, 12);
    assert_eq!(s.encoders[0], e);
    assert_eq!(s.nb_ciphertexts, 2);
}

#[test]
fn vector_sums() {
    let sk = LWESecretKey::new(&LWEParams::new(8, -25), bits(8));
    let e = Encoder::new(fix(0.0), fix(8.0), 5, 3).unwrap();
    let v = VectorLWE::encode_encrypt(
        &sk,
        &vec![fix(1.0), fix(2.0), fix(3.0)],
        &e,
        vec![vec![3u64; 8], vec![7u64; 8], vec![11u64; 8]],
        vec![0, 0, 0],
    )
    .unwrap();
    let s = v.sum_with_padding().unwrap();
    assert_eq!(s.nb_ciphertexts, 1);
    // Three slots consume two bits of padding and quadruple the interval.
    assert_eq!(s.encoders[0].nb_bit_padding, 1);
    assert_eq!(s.encoders[0].delta.units, 4 * e.delta.units);
    assert_eq!(s.encoders[0].o.units, 3 * e.o.units);
    let d = s.decrypt_decode(&sk).unwrap();
    let d0 = d[0].units as f64 / 18446744073709551616.0f64;
    assert!((d0 - 6.0).abs() <= 32.0 / 32.0 + 1e-9, "got {}", d0);

    let s2 = v.sum_with_new_min(fix(2.0)).unwrap();
    assert_eq!(s2.encoders[0].o.units, fix(2.0).units);
    let d2 = s2.decrypt_decode(&sk).unwrap();
    let d20 = d2[0].units as f64 / 18446744073709551616.0f64;
    assert!((d20 - 6.0).abs() <= 8.0 / 32.0 + 1e-9, "got {}", d20);

    // A padding-exhausted fold is refused.
    let flat = Encoder::new(fix(0.0), fix(8.0), 5, 1).unwrap();
    let w = VectorLWE::encode_encrypt(
        &sk,
        &vec![fix(1.0), fix(2.0), fix(3.0)],
        &flat,
        vec![vec![3u64; 8], vec![7u64; 8], vec![11u64; 8]],
        vec![0, 0, 0],
    )
    .unwrap();
    assert_eq!(
        w.sum_with_padding().unwrap_err(),
        CryptoError::NotEnoughPaddingError
    );
}

#[test]
fn lwe_identity_bootstrap_carries_encoder() {
    let sk = LWESecretKey::new(&LWEParams::new(16, -25), bits(16));
    let rk = RLWESecretKey::new_raw(16, 1, -25, bits(16));
    let bsk = LWEBSK::new(&sk, &rk, 3, 5);
    let e = Encoder::new(fix(0.0), fix(1.0), 3, 2).unwrap();
    let c = pyconcrete::lwe::LWE::encode_encrypt(&sk, fix(0.5), &e, vec![3u64; 16], 0)
        .unwrap();
    let refreshed = vec![0u64; 17];
    let b = c.bootstrap(&bsk, refreshed).unwrap();
    assert_eq!(b.encoder, e);
    assert_eq!(b.dimension, 16);
}

#[test]
fn rlwe_extract_1_lwe_projects_a_coefficient() {
    let mut v = VectorRLWE::zero(4, 2, 1).unwrap();
    // Fill the single packed ciphertext with recognizable words: two mask
    // polynomials of four coefficients, then the body polynomial.
    for (t, w) in v.ciphertexts.iter_mut().enumerate() {
        *w = (t as u64) + 1;
    }
    let out = v.extract_1_lwe(1, 0).unwrap();
    assert_eq!(out.nb_ciphertexts, 1);
    assert_eq!(out.dimension, 8);
    // The body is the coefficient of the body polynomial at the index.
    assert_eq!(out.ciphertexts[8], 8 + 1 + 1);
    // The mask is the reversed, partially negated, rotated polynomial: for
    // polynomial size 4 and coefficient 1, the rotation amount is 2.
    // Block one is [1,2,3,4]: reversed [4,3,2,1], first two negated,
    // rotated left by two: [2,1,-4,-3] (negations wrap on the torus).
    assert_eq!(out.ciphertexts[0], 2);
    assert_eq!(out.ciphertexts[1], 1);
    assert_eq!(out.ciphertexts[2], 4u64.wrapping_neg());
    assert_eq!(out.ciphertexts[3], 3u64.wrapping_neg());
    assert_eq!(v.extract_1_lwe(4, 0).unwrap_err(), CryptoError::IndexError);
    assert_eq!(v.extract_1_lwe(0, 1).unwrap_err(), CryptoError::IndexError);
}

#[test]
fn rlwe_encrypt_packed_raw_places_coefficients() {
    let sk = LWESecretKey::new(&LWEParams::new(8, -25), bits(8));
    let mut v = VectorRLWE::zero(4, 2, 1).unwrap();
    // Wrong plaintext count is refused.
    assert_eq!(
        v.encrypt_packed_raw(&sk, &vec![1, 2, 3], vec![0u64; 12])
            .unwrap_err(),
        CryptoError::WrongSizeError
    );
    // With zero backend samples, the body polynomial carries the
    // plaintexts and the mask polynomials stay zero.
    v.encrypt_packed_raw(&sk, &vec![10, 20, 30, 40], vec![0u64; 12]).unwrap();
    assert_eq!(&v.ciphertexts[0..8], &[0u64; 8]);
    assert_eq!(&v.ciphertexts[8..12], &[10, 20, 30, 40]);
}
