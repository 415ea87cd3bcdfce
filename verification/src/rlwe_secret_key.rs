//! RLWE secret keys: binary polynomial coefficients, `dimension`
//! polynomials of `polynomial_size` coefficients each, with the noise width
//! used when encrypting under them.

use vstd::prelude::*;

use crate::lwe_secret_key::LWESecretKey;
use crate::rlwe_params::RLWEParams;
use crate::variance::{spec_variance_of_log2_std_dev, Variance};

verus! {

/// An RLWE secret key: `dimension * polynomial_size` binary coefficients.
#[derive(Clone, Debug, PartialEq)]
pub struct RLWESecretKey {
    pub val: Vec<u64>,
    pub dimension: usize,
    pub polynomial_size: usize,
    pub log2_std_dev: i32,
}

impl RLWESecretKey {
    /// One coefficient per polynomial slot, each zero or one.
    pub open spec fn wf(self) -> bool {
        &&& self.val@.len() == self.dimension * self.polynomial_size
        &&& self.polynomial_size >= 1
        &&& forall|i: int| 0 <= i < self.val@.len() ==> #[trigger] self.val@[i] <= 1
    }

    /// A key under the given parameter set, from caller-supplied uniform
    /// random bits.
    pub fn new(params: &RLWEParams, bits: Vec<u64>) -> (r: RLWESecretKey)
        requires
            bits@.len() == params.dimension * params.polynomial_size,
            params.polynomial_size >= 1,
            forall|i: int| 0 <= i < bits@.len() ==> #[trigger] bits@[i] <= 1,
        ensures
            r.wf(),
            r.val == bits,
            r.dimension == params.dimension,
            r.polynomial_size == params.polynomial_size,
            r.log2_std_dev == params.log2_std_dev,
    {
        RLWESecretKey {
            val: bits,
            dimension: params.dimension,
            polynomial_size: params.polynomial_size,
            log2_std_dev: params.log2_std_dev,
        }
    }

    /// A key from bare sizes and noise width, from caller-supplied uniform
    /// random bits.
    pub fn new_raw(polynomial_size: usize, dimension: usize, log2_std_dev: i32, bits: Vec<
        u64,
    >) -> (r: RLWESecretKey)
        requires
            bits@.len() == dimension * polynomial_size,
            polynomial_size >= 1,
            forall|i: int| 0 <= i < bits@.len() ==> #[trigger] bits@[i] <= 1,
        ensures
            r.wf(),
            r.val == bits,
            r.dimension == dimension,
            r.polynomial_size == polynomial_size,
            r.log2_std_dev == log2_std_dev,
    {
        RLWESecretKey { val: bits, dimension, polynomial_size, log2_std_dev }
    }

    /// The module rank.
    pub fn get_dimension(&self) -> (r: usize)
        ensures
            r == self.dimension,
    {
        self.dimension
    }

    /// The polynomial size.
    pub fn get_polynomial_size(&self) -> (r: usize)
        ensures
            r == self.polynomial_size,
    {
        self.polynomial_size
    }

    /// The base-two logarithm of the fresh-noise standard deviation.
    pub fn get_log2_std_dev(&self) -> (r: i32)
        ensures
            r == self.log2_std_dev,
    {
        self.log2_std_dev
    }

    /// The fresh-noise variance of encryptions under this key.
    pub fn get_variance(&self) -> (r: Variance)
        ensures
            r == spec_variance_of_log2_std_dev(self.log2_std_dev as int),
            r.wf(),
    {
        Variance::from_log2_std_dev(self.log2_std_dev)
    }

    /// Reinterprets the coefficients as one flat LWE key of dimension
    /// `dimension * polynomial_size`.
    pub fn to_lwe_secret_key(&self) -> (r: LWESecretKey)
        requires
            self.wf(),
            self.dimension * self.polynomial_size <= usize::MAX,
        ensures
            r.wf(),
            r.val@ == self.val@,
            r.dimension == self.dimension * self.polynomial_size,
            r.log2_std_dev == self.log2_std_dev,
    {
        LWESecretKey {
            val: self.val.clone(),
            dimension: self.dimension * self.polynomial_size,
            log2_std_dev: self.log2_std_dev,
        }
    }
}

} // verus!
