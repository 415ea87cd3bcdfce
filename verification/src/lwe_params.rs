//! Parameter sets for LWE ciphertexts: the mask dimension and the base-two
//! logarithm of the fresh-noise standard deviation.

use vstd::prelude::*;

verus! {

/// An LWE parameter set.
#[derive(Clone, Copy, Debug, PartialEq, Eq, Structural)]
pub struct LWEParams {
    pub dimension: usize,
    pub log2_std_dev: i32,
}

impl LWEParams {
    /// A parameter set from a mask dimension and noise width.
    pub fn new(dimension: usize, log2_std_dev: i32) -> (r: LWEParams)
        ensures
            r.dimension == dimension,
            r.log2_std_dev == log2_std_dev,
    {
        LWEParams { dimension, log2_std_dev }
    }

    /// The mask dimension.
    pub fn get_dimension(&self) -> (r: usize)
        ensures
            r == self.dimension,
    {
        self.dimension
    }

    /// Replaces the mask dimension.
    pub fn set_dimension(&mut self, v: usize)
        ensures
            final(self).dimension == v,
            final(self).log2_std_dev == old(self).log2_std_dev,
    {
        self.dimension = v;
    }

    /// The base-two logarithm of the fresh-noise standard deviation.
    pub fn get_log2_std_dev(&self) -> (r: i32)
        ensures
            r == self.log2_std_dev,
    {
        self.log2_std_dev
    }

    /// Replaces the noise width.
    pub fn set_log2_std_dev(&mut self, v: i32)
        ensures
            final(self).log2_std_dev == v,
            final(self).dimension == old(self).dimension,
    {
        self.log2_std_dev = v;
    }

    /// The fresh-noise variance, `2^(2 * log2_std_dev)`, in the saturating
    /// variance domain.
    pub fn get_variance(&self) -> (r: crate::variance::Variance)
        ensures
            r == crate::variance::spec_variance_of_log2_std_dev(self.log2_std_dev as int),
            r.wf(),
    {
        crate::variance::Variance::from_log2_std_dev(self.log2_std_dev)
    }
}

/// 128-bit-security parameter sets, by mask dimension.
pub fn lwe128_256() -> (r: LWEParams)
    ensures
        r == (LWEParams { dimension: 256, log2_std_dev: -5i32 }),
{
    LWEParams { dimension: 256, log2_std_dev: -5 }
}

pub fn lwe128_512() -> (r: LWEParams)
    ensures
        r == (LWEParams { dimension: 512, log2_std_dev: -11i32 }),
{
    LWEParams { dimension: 512, log2_std_dev: -11 }
}

pub fn lwe128_630() -> (r: LWEParams)
    ensures
        r == (LWEParams { dimension: 630, log2_std_dev: -14i32 }),
{
    LWEParams { dimension: 630, log2_std_dev: -14 }
}

pub fn lwe128_650() -> (r: LWEParams)
    ensures
        r == (LWEParams { dimension: 650, log2_std_dev: -15i32 }),
{
    LWEParams { dimension: 650, log2_std_dev: -15 }
}

pub fn lwe128_688() -> (r: LWEParams)
    ensures
        r == (LWEParams { dimension: 688, log2_std_dev: -16i32 }),
{
    LWEParams { dimension: 688, log2_std_dev: -16 }
}

pub fn lwe128_710() -> (r: LWEParams)
    ensures
        r == (LWEParams { dimension: 710, log2_std_dev: -17i32 }),
{
    LWEParams { dimension: 710, log2_std_dev: -17 }
}

pub fn lwe128_750() -> (r: LWEParams)
    ensures
        r == (LWEParams { dimension: 750, log2_std_dev: -18i32 }),
{
    LWEParams { dimension: 750, log2_std_dev: -18 }
}

pub fn lwe128_800() -> (r: LWEParams)
    ensures
        r == (LWEParams { dimension: 800, log2_std_dev: -19i32 }),
{
    LWEParams { dimension: 800, log2_std_dev: -19 }
}

pub fn lwe128_830() -> (r: LWEParams)
    ensures
        r == (LWEParams { dimension: 830, log2_std_dev: -20i32 }),
{
    LWEParams { dimension: 830, log2_std_dev: -20 }
}

pub fn lwe128_1024() -> (r: LWEParams)
    ensures
        r == (LWEParams { dimension: 1024, log2_std_dev: -25i32 }),
{
    LWEParams { dimension: 1024, log2_std_dev: -25 }
}

pub fn lwe128_2048() -> (r: LWEParams)
    ensures
        r == (LWEParams { dimension: 2048, log2_std_dev: -52i32 }),
{
    LWEParams { dimension: 2048, log2_std_dev: -52 }
}

/// 80-bit-security parameter sets, by mask dimension.
pub fn lwe80_256() -> (r: LWEParams)
    ensures
        r == (LWEParams { dimension: 256, log2_std_dev: -9i32 }),
{
    LWEParams { dimension: 256, log2_std_dev: -9 }
}

pub fn lwe80_512() -> (r: LWEParams)
    ensures
        r == (LWEParams { dimension: 512, log2_std_dev: -19i32 }),
{
    LWEParams { dimension: 512, log2_std_dev: -19 }
}

pub fn lwe80_630() -> (r: LWEParams)
    ensures
        r == (LWEParams { dimension: 630, log2_std_dev: -24i32 }),
{
    LWEParams { dimension: 630, log2_std_dev: -24 }
}

pub fn lwe80_1024() -> (r: LWEParams)
    ensures
        r == (LWEParams { dimension: 1024, log2_std_dev: -40i32 }),
{
    LWEParams { dimension: 1024, log2_std_dev: -40 }
}

} // verus!
