//! Parameter sets for RLWE ciphertexts: module rank, polynomial size (a
//! power of two), and the noise width.

use vstd::prelude::*;

use crate::error::CryptoError;

verus! {

/// Whether `n` is a positive power of two.
pub open spec fn spec_is_power_of_two(n: nat) -> bool
    decreases n,
{
    if n == 0 {
        false
    } else if n == 1 {
        true
    } else {
        n % 2 == 0 && spec_is_power_of_two(n / 2)
    }
}

/// Decides whether a size is a positive power of two.
pub fn is_power_of_two(n: usize) -> (r: bool)
    ensures
        r == spec_is_power_of_two(n as nat),
{
    if n == 0 {
        return false;
    }
    let mut m: usize = n;
    while m > 1
        invariant
            m >= 1,
            spec_is_power_of_two(n as nat) == spec_is_power_of_two(m as nat),
        decreases m,
    {
        if m % 2 == 1 {
            return false;
        }
        m = m / 2;
    }
    true
}

/// An RLWE parameter set.
#[derive(Clone, Copy, Debug, PartialEq, Eq, Structural)]
pub struct RLWEParams {
    pub polynomial_size: usize,
    pub dimension: usize,
    pub log2_std_dev: i32,
}

impl RLWEParams {
    /// A parameter set; the polynomial size must be a power of two, else
    /// `NotPowerOfTwoError`.
    pub fn new(polynomial_size: usize, dimension: usize, log2_std_dev: i32) -> (r: Result<
        RLWEParams,
        CryptoError,
    >)
        ensures
            r is Ok <==> spec_is_power_of_two(polynomial_size as nat),
            !spec_is_power_of_two(polynomial_size as nat) ==> r == Err::<RLWEParams, CryptoError>(
                CryptoError::NotPowerOfTwoError,
            ),
            r matches Ok(p) ==> p == (RLWEParams { polynomial_size, dimension, log2_std_dev }),
    {
        if !is_power_of_two(polynomial_size) {
            return Err(CryptoError::NotPowerOfTwoError);
        }
        Ok(RLWEParams { polynomial_size, dimension, log2_std_dev })
    }

    /// The polynomial size.
    pub fn get_polynomial_size(&self) -> (r: usize)
        ensures
            r == self.polynomial_size,
    {
        self.polynomial_size
    }

    /// Replaces the polynomial size.
    pub fn set_polynomial_size(&mut self, v: usize)
        ensures
            final(self).polynomial_size == v,
            final(self).dimension == old(self).dimension,
            final(self).log2_std_dev == old(self).log2_std_dev,
    {
        self.polynomial_size = v;
    }

    /// The module rank.
    pub fn get_dimension(&self) -> (r: usize)
        ensures
            r == self.dimension,
    {
        self.dimension
    }

    /// Replaces the module rank.
    pub fn set_dimension(&mut self, v: usize)
        ensures
            final(self).dimension == v,
            final(self).polynomial_size == old(self).polynomial_size,
            final(self).log2_std_dev == old(self).log2_std_dev,
    {
        self.dimension = v;
    }

    /// The base-two logarithm of the fresh-noise standard deviation.
    pub fn get_log2_std_dev(&self) -> (r: i32)
        ensures
            r == self.log2_std_dev,
    {
        self.log2_std_dev
    }

    /// Replaces the noise width.
    pub fn set_log2_std_dev(&mut self, v: i32)
        ensures
            final(self).log2_std_dev == v,
            final(self).polynomial_size == old(self).polynomial_size,
            final(self).dimension == old(self).dimension,
    {
        self.log2_std_dev = v;
    }

    /// The fresh-noise variance, `2^(2 * log2_std_dev)`, in the saturating
    /// variance domain.
    pub fn get_variance(&self) -> (r: crate::variance::Variance)
        ensures
            r == crate::variance::spec_variance_of_log2_std_dev(self.log2_std_dev as int),
            r.wf(),
    {
        crate::variance::Variance::from_log2_std_dev(self.log2_std_dev)
    }
}

/// 128-bit-security sets by polynomial size, at module rank one.
pub fn rlwe128_256_1() -> (r: RLWEParams)
    ensures
        r == (RLWEParams { polynomial_size: 256, dimension: 1, log2_std_dev: -5i32 }),
{
    RLWEParams { polynomial_size: 256, dimension: 1, log2_std_dev: -5 }
}

pub fn rlwe128_512_1() -> (r: RLWEParams)
    ensures
        r == (RLWEParams { polynomial_size: 512, dimension: 1, log2_std_dev: -11i32 }),
{
    RLWEParams { polynomial_size: 512, dimension: 1, log2_std_dev: -11 }
}

pub fn rlwe128_1024_1() -> (r: RLWEParams)
    ensures
        r == (RLWEParams { polynomial_size: 1024, dimension: 1, log2_std_dev: -25i32 }),
{
    RLWEParams { polynomial_size: 1024, dimension: 1, log2_std_dev: -25 }
}

pub fn rlwe128_2048_1() -> (r: RLWEParams)
    ensures
        r == (RLWEParams { polynomial_size: 2048, dimension: 1, log2_std_dev: -52i32 }),
{
    RLWEParams { polynomial_size: 2048, dimension: 1, log2_std_dev: -52 }
}

pub fn rlwe128_256_2() -> (r: RLWEParams)
    ensures
        r == (RLWEParams { polynomial_size: 256, dimension: 2, log2_std_dev: -11i32 }),
{
    RLWEParams { polynomial_size: 256, dimension: 2, log2_std_dev: -11 }
}

pub fn rlwe128_512_2() -> (r: RLWEParams)
    ensures
        r == (RLWEParams { polynomial_size: 512, dimension: 2, log2_std_dev: -25i32 }),
{
    RLWEParams { polynomial_size: 512, dimension: 2, log2_std_dev: -25 }
}

pub fn rlwe128_256_4() -> (r: RLWEParams)
    ensures
        r == (RLWEParams { polynomial_size: 256, dimension: 4, log2_std_dev: -25i32 }),
{
    RLWEParams { polynomial_size: 256, dimension: 4, log2_std_dev: -25 }
}

/// An 80-bit-security set at module rank one.
pub fn rlwe80_256_1() -> (r: RLWEParams)
    ensures
        r == (RLWEParams { polynomial_size: 256, dimension: 1, log2_std_dev: -9i32 }),
{
    RLWEParams { polynomial_size: 256, dimension: 1, log2_std_dev: -9 }
}

} // verus!
