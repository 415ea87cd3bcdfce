//! Fixed-point encoding and ciphertext-algebra layer for homomorphic
//! arithmetic over the discretized torus.
//!
//! Real values are carried as [`fix::Fix`], a signed fixed-point number with
//! 64 fractional bits, so that every contract can be stated exactly over the
//! underlying integers. An [`encoder::Encoder`] maps a real interval onto
//! 64-bit torus values; ciphertext wrappers track, per slot, the encoder and
//! a conservative noise-variance estimate while the lattice backend rewrites
//! the underlying integer vectors.

pub mod arith;
pub mod bodies;
pub mod fix;
pub mod variance;
pub mod encoder;
pub mod plaintext;
pub mod vector_lwe;
pub mod vector_rlwe;
pub mod lwe;
pub mod lwe_bsk;
pub mod lwe_ksk;
pub mod lwe_params;
pub mod rlwe_params;
pub mod lwe_secret_key;
pub mod rlwe_secret_key;
pub mod error;

pub use error::CryptoError;
