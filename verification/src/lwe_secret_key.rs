//! LWE secret keys: a binary mask-length vector together with the noise
//! width used when encrypting under it. The random bits themselves come
//! from the caller's randomness source; every function here is exact for
//! any choice of them.

use vstd::prelude::*;

use crate::error::CryptoError;
use crate::lwe_params::LWEParams;
use crate::variance::{spec_variance_of_log2_std_dev, Variance};

verus! {

/// An LWE secret key: `dimension` binary coefficients and the fresh-noise
/// width that goes with them.
#[derive(Clone, Debug, PartialEq)]
pub struct LWESecretKey {
    pub val: Vec<u64>,
    pub dimension: usize,
    pub log2_std_dev: i32,
}

impl LWESecretKey {
    /// One coefficient per mask entry, each zero or one.
    pub open spec fn wf(self) -> bool {
        &&& self.val@.len() == self.dimension
        &&& forall|i: int| 0 <= i < self.val@.len() ==> #[trigger] self.val@[i] <= 1
    }

    /// A key under the given parameter set, from caller-supplied uniform
    /// random bits.
    pub fn new(params: &LWEParams, bits: Vec<u64>) -> (r: LWESecretKey)
        requires
            bits@.len() == params.dimension,
            forall|i: int| 0 <= i < bits@.len() ==> #[trigger] bits@[i] <= 1,
        ensures
            r.wf(),
            r.val == bits,
            r.dimension == params.dimension,
            r.log2_std_dev == params.log2_std_dev,
    {
        LWESecretKey { val: bits, dimension: params.dimension, log2_std_dev: params.log2_std_dev }
    }

    /// A key from a bare dimension and noise width, from caller-supplied
    /// uniform random bits.
    pub fn new_raw(dimension: usize, log2_std_dev: i32, bits: Vec<u64>) -> (r: LWESecretKey)
        requires
            bits@.len() == dimension,
            forall|i: int| 0 <= i < bits@.len() ==> #[trigger] bits@[i] <= 1,
        ensures
            r.wf(),
            r.val == bits,
            r.dimension == dimension,
            r.log2_std_dev == log2_std_dev,
    {
        LWESecretKey { val: bits, dimension, log2_std_dev }
    }

    /// The mask dimension.
    pub fn get_dimension(&self) -> (r: usize)
        ensures
            r == self.dimension,
    {
        self.dimension
    }

    /// The base-two logarithm of the fresh-noise standard deviation.
    pub fn get_log2_std_dev(&self) -> (r: i32)
        ensures
            r == self.log2_std_dev,
    {
        self.log2_std_dev
    }

    /// The fresh-noise variance of encryptions under this key.
    pub fn get_variance(&self) -> (r: Variance)
        ensures
            r == spec_variance_of_log2_std_dev(self.log2_std_dev as int),
            r.wf(),
    {
        Variance::from_log2_std_dev(self.log2_std_dev)
    }

    /// Reinterprets the key as an RLWE key of the given polynomial size;
    /// the dimension must split evenly into polynomials, else
    /// `DimensionError`.
    pub fn to_rlwe_secret_key(&self, polynomial_size: usize) -> (r: Result<
        crate::rlwe_secret_key::RLWESecretKey,
        CryptoError,
    >)
        requires
            self.wf(),
            polynomial_size >= 1,
        ensures
            r is Ok <==> self.dimension % polynomial_size == 0,
            self.dimension % polynomial_size != 0 ==> r == Err::<
                crate::rlwe_secret_key::RLWESecretKey,
                CryptoError,
            >(CryptoError::DimensionError),
            r matches Ok(k) ==> k.wf() && k.val@ == self.val@ && k.polynomial_size
                == polynomial_size && k.dimension == self.dimension as int / polynomial_size
                as int && k.log2_std_dev == self.log2_std_dev,
    {
        if self.dimension % polynomial_size != 0 {
            return Err(CryptoError::DimensionError);
        }
        proof {
            vstd::arithmetic::div_mod::lemma_fundamental_div_mod(
                self.dimension as int,
                polynomial_size as int,
            );
            let q = self.dimension as int / polynomial_size as int;
            assert(q * polynomial_size as int == polynomial_size as int * q) by (nonlinear_arith);
        }
        Ok(crate::rlwe_secret_key::RLWESecretKey {
            val: self.val.clone(),
            dimension: self.dimension / polynomial_size,
            polynomial_size,
            log2_std_dev: self.log2_std_dev,
        })
    }
}

} // verus!
