//! Noise-variance bookkeeping: a conservative estimate of accumulated noise
//! power, carried as a count of units of 2^-126 and saturating upward at a
//! real variance of 1/4, so that it never silently underestimates noise.

use vstd::prelude::*;
use vstd::arithmetic::power2::{lemma2_to64, lemma_pow2_adds, lemma_pow2_pos, pow2};

verus! {

/// Saturation cap: 2^124 units, a real variance of 1/4, which on the torus
/// means the phase is pure noise.
pub const VAR_MAX_UNITS: u128 = 0x1000_0000_0000_0000_0000_0000_0000_0000;

/// The least `k` with `4^k >= 36 * u`, starting the search at `k`; 65 is
/// the ceiling that a saturated estimate can reach.
pub open spec fn noise_bits_from(u: int, k: nat) -> nat
    decreases 65 - k,
{
    if k >= 65 {
        65
    } else if 36 * u <= pow2(2 * k) {
        k
    } else {
        noise_bits_from(u, k + 1)
    }
}

/// How many of the most significant torus bits are dominated by noise of
/// variance `u / 2^126`: zero for no noise, else the least `k` with
/// `4^k >= 36 * u`.
pub open spec fn noise_bits(u: int) -> nat {
    if u <= 0 {
        0
    } else {
        noise_bits_from(u, 1)
    }
}

/// The fresh-noise variance of a gaussian of standard deviation
/// `2^log2_std_dev`, clamped into the saturating domain: one unit from
/// below, the saturation cap from above.
pub open spec fn spec_variance_of_log2_std_dev(log2_std_dev: int) -> Variance {
    if 2 * log2_std_dev + 126 < 0 {
        Variance { units: 1 }
    } else if 2 * log2_std_dev + 126 > 124 {
        Variance { units: VAR_MAX_UNITS }
    } else {
        Variance { units: pow2((2 * log2_std_dev + 126) as nat) as u128 }
    }
}

/// The saturating sum of two variance estimates.
pub open spec fn spec_var_sum(a: Variance, b: Variance) -> Variance {
    if a.units + b.units <= VAR_MAX_UNITS {
        Variance { units: (a.units + b.units) as u128 }
    } else {
        Variance { units: VAR_MAX_UNITS }
    }
}

/// The saturating growth of a variance estimate under multiplication of the
/// ciphertext by the integer scalar `s`.
pub open spec fn spec_var_scaled_sq(a: Variance, s: int) -> Variance {
    if a.units * s * s <= VAR_MAX_UNITS {
        Variance { units: (a.units * s * s) as u128 }
    } else {
        Variance { units: VAR_MAX_UNITS }
    }
}

/// A noise-variance estimate as a count of units of 2^-126. It grows
/// monotonically under every homomorphic operation and saturates at
/// [`VAR_MAX_UNITS`] rather than wrap.
#[derive(Clone, Copy, Debug, PartialEq, Eq, Structural)]
pub struct Variance {
    pub units: u128,
}

impl Variance {
    /// Whether the estimate is within the saturating domain.
    pub open spec fn wf(self) -> bool {
        self.units <= VAR_MAX_UNITS
    }

    /// No noise at all.
    pub fn zero() -> (r: Variance)
        ensures
            r.units == 0,
            r.wf(),
    {
        Variance { units: 0 }
    }

    /// The variance `units / 2^126`, capped at the saturating maximum.
    pub fn from_units(units: u128) -> (r: Variance)
        ensures
            r.units == if units <= VAR_MAX_UNITS {
                units as int
            } else {
                VAR_MAX_UNITS as int
            },
            r.wf(),
    {
        if units <= VAR_MAX_UNITS {
            Variance { units }
        } else {
            Variance { units: VAR_MAX_UNITS }
        }
    }

    /// The variance of fresh gaussian noise of standard deviation
    /// `2^log2_std_dev`: `2^(126 + 2 * log2_std_dev)` units, rounded up to
    /// one unit when it is below the grid and capped at the maximum.
    pub fn from_log2_std_dev(log2_std_dev: i32) -> (r: Variance)
        ensures
            r == spec_variance_of_log2_std_dev(log2_std_dev as int),
            2 * log2_std_dev + 126 < 0 ==> r.units == 1,
            0 <= 2 * log2_std_dev + 126 <= 124 ==> r.units == pow2(
                (2 * log2_std_dev + 126) as nat,
            ),
            2 * log2_std_dev + 126 > 124 ==> r.units == VAR_MAX_UNITS,
            r.wf(),
    {
        if log2_std_dev < -63 {
            Variance { units: 1 }
        } else if log2_std_dev > -1 {
            Variance { units: VAR_MAX_UNITS }
        } else {
            let e: u32 = (126 + 2 * log2_std_dev) as u32;
            proof {
                lemma_pow2_le_max128(e as nat);
                lemma_var_max_is_pow2();
                if e < 124 {
                    vstd::arithmetic::power2::lemma_pow2_strictly_increases(e as nat, 124);
                }
            }
            Variance { units: 1u128 << e }
        }
    }

    /// Sum of two independent noise estimates, saturating at the maximum.
    pub fn accumulate(self, other: Variance) -> (r: Variance)
        requires
            self.wf(),
            other.wf(),
        ensures
            r == spec_var_sum(self, other),
            r.units == if self.units + other.units <= VAR_MAX_UNITS {
                self.units + other.units
            } else {
                VAR_MAX_UNITS as int
            },
            r.wf(),
            r.units >= self.units,
            r.units >= other.units,
    {
        if self.units <= VAR_MAX_UNITS - other.units {
            Variance { units: self.units + other.units }
        } else {
            Variance { units: VAR_MAX_UNITS }
        }
    }

    /// The estimate after multiplying a ciphertext by the integer scalar
    /// `s`: the variance grows by `s^2`, saturating at the maximum.
    pub fn scaled_by_sq(self, s: u64) -> (r: Variance)
        requires
            self.wf(),
        ensures
            r == spec_var_scaled_sq(self, s as int),
            r.units == if self.units * (s as int) * (s as int) <= VAR_MAX_UNITS {
                self.units * (s as int) * (s as int)
            } else {
                VAR_MAX_UNITS as int
            },
            r.wf(),
    {
        proof {
            assert((s as int) * (s as int) <= 0xffff_ffff_ffff_ffffu64 as int
                * 0xffff_ffff_ffff_ffffu64 as int) by (nonlinear_arith)
                requires
                    s <= 0xffff_ffff_ffff_ffffu64,
            ;
        }
        let s2: u128 = (s as u128) * (s as u128);
        if s2 == 0 {
            proof {
                assert(s == 0) by (nonlinear_arith)
                    requires
                        (s as int) * (s as int) == 0,
                ;
                assert(self.units * (s as int) * (s as int) == 0) by (nonlinear_arith)
                    requires
                        s == 0,
                ;
            }
            Variance { units: 0 }
        } else if self.units <= VAR_MAX_UNITS / s2 {
            proof {
                vstd::arithmetic::div_mod::lemma_fundamental_div_mod(
                    VAR_MAX_UNITS as int,
                    s2 as int,
                );
                assert(self.units * s2 <= (VAR_MAX_UNITS / s2) * s2) by (nonlinear_arith)
                    requires
                        self.units <= VAR_MAX_UNITS / s2,
                        s2 > 0,
                ;
                assert((VAR_MAX_UNITS / s2) * s2 <= VAR_MAX_UNITS) by (nonlinear_arith)
                    requires
                        VAR_MAX_UNITS as int == s2 as int * (VAR_MAX_UNITS / s2) as int
                            + (VAR_MAX_UNITS % s2) as int,
                        VAR_MAX_UNITS % s2 >= 0,
                ;
                lemma_mul_assoc_u128(self.units, s as u128);
            }
            Variance { units: self.units * s2 }
        } else {
            proof {
                vstd::arithmetic::div_mod::lemma_fundamental_div_mod(
                    VAR_MAX_UNITS as int,
                    s2 as int,
                );
                assert(self.units * s2 > VAR_MAX_UNITS) by (nonlinear_arith)
                    requires
                        self.units > VAR_MAX_UNITS / s2,
                        s2 > 0,
                        VAR_MAX_UNITS as int == s2 as int * (VAR_MAX_UNITS / s2) as int
                            + (VAR_MAX_UNITS % s2) as int,
                        ((VAR_MAX_UNITS % s2) as int) < s2 as int,
                ;
                lemma_mul_assoc_u128(self.units, s as u128);
            }
            Variance { units: VAR_MAX_UNITS }
        }
    }

    /// How many of the most significant torus bits are dominated by noise of
    /// this variance: the least `k` with `4^k >= 36 * units`, the exact
    /// integer form of `ceil(64 + log2(3 * sqrt(variance)))` at three
    /// standard deviations.
    pub fn nb_noise_bits(self) -> (r: usize)
        requires
            self.wf(),
        ensures
            r == noise_bits(self.units as int),
            self.units == 0 ==> r == 0,
            self.units > 0 ==> 1 <= r <= 65,
            self.units > 0 ==> 36 * self.units <= pow2(2 * r as nat),
            self.units > 0 && r > 1 ==> 36 * self.units > pow2((2 * r - 2) as nat),
    {
        if self.units == 0 {
            return 0;
        }
        let mut k: usize = 1;
        while k <= 64
            invariant
                1 <= k <= 65,
                self.units > 0,
                k > 1 ==> 36 * self.units > pow2((2 * k - 2) as nat),
                noise_bits_from(self.units as int, 1) == noise_bits_from(
                    self.units as int,
                    k as nat,
                ),
            decreases 65 - k,
        {
            let thr: u128 = (1u128 << (2 * k - 2) as u32) / 9;
            proof {
                lemma_pow2_le_max128((2 * k - 2) as nat);
                lemma_thr_exact((2 * k - 2) as nat, self.units);
            }
            if self.units <= thr {
                return k;
            }
            k = k + 1;
        }
        proof {
            // With at most 2^124 units, 36 * units is below 4^65.
            lemma_pow2_adds(124, 6);
            lemma_pow2_adds(64, 60);
            lemma_pow2_adds(64, 66);
            lemma2_to64();
            vstd::arithmetic::power2::lemma2_to64_rest();
            assert(36 * self.units <= 36 * VAR_MAX_UNITS);
            assert((VAR_MAX_UNITS as int) == pow2(124)) by {
                lemma_pow2_adds(64, 60);
            }
            assert(36 * pow2(124) <= pow2(130)) by (nonlinear_arith)
                requires
                    pow2(130) == pow2(124) * 64,
            ;
            assert(pow2(130) == pow2(124) * 64) by {
                lemma_pow2_adds(124, 6);
            }
        }
        65
    }
}

/// The saturation cap is exactly 2^124.
proof fn lemma_var_max_is_pow2()
    ensures
        VAR_MAX_UNITS as int == pow2(124),
{
    lemma2_to64();
    vstd::arithmetic::power2::lemma2_to64_rest();
    lemma_pow2_adds(64, 60);
}

/// 2^e fits in a `u128` for exponents up to 126.
pub proof fn lemma_pow2_le_max128(e: nat)
    requires
        e <= 126,
    ensures
        pow2(e) < u128::MAX,
        pow2(e) <= 0x4000_0000_0000_0000_0000_0000_0000_0000u128,
        pow2(e) == (1u128 << (e as u32)) as nat,
{
    lemma_pow2_126_bound(e);
    lemma_pow2_adds(63, 63);
    lemma2_to64();
    vstd::arithmetic::power2::lemma2_to64_rest();
    assert((1u128 << (e as u32)) as nat == pow2(e)) by {
        lemma_u128_shl_pow2(e as u32);
    }
}

proof fn lemma_pow2_126_bound(e: nat)
    requires
        e <= 126,
    ensures
        pow2(e) <= pow2(126),
        pow2(126) < u128::MAX,
{
    if e < 126 {
        vstd::arithmetic::power2::lemma_pow2_strictly_increases(e, 126);
    }
    lemma_pow2_adds(63, 63);
    lemma2_to64();
    vstd::arithmetic::power2::lemma2_to64_rest();
}

/// Shifting one left by `e` on a `u128` yields 2^e, for `e` up to 126.
proof fn lemma_u128_shl_pow2(e: u32)
    requires
        e <= 126,
    ensures
        (1u128 << e) as nat == pow2(e as nat),
    decreases e,
{
    if e == 0 {
        assert(1u128 << 0 == 1) by (bit_vector);
        lemma2_to64();
    } else {
        lemma_u128_shl_pow2((e - 1) as u32);
        assert(1u128 << e == (1u128 << (e - 1) as u32) * 2) by (bit_vector)
            requires
                0 < e <= 126,
        ;
        lemma_pow2_adds((e - 1) as nat, 1);
        lemma2_to64();
        lemma_pow2_126_bound((e - 1) as nat);
    }
}

/// `u <= floor(2^(2k-2) / 9)` is exactly `36u <= 4^k`, written with the
/// power already halved twice.
proof fn lemma_thr_exact(e: nat, u: u128)
    requires
        e <= 126,
        e % 2 == 0,
    ensures
        (u as int <= pow2(e) as int / 9) <==> 36 * u as int <= pow2((e + 2) as nat) as int,
{
    lemma_pow2_pos(e);
    lemma_pow2_adds(e, 2);
    lemma2_to64();
    let p = pow2(e) as int;
    let uu = u as int;
    vstd::arithmetic::div_mod::lemma_fundamental_div_mod(p, 9);
    if uu <= p / 9 {
        assert(9 * uu <= 9 * (p / 9)) by (nonlinear_arith)
            requires
                uu <= p / 9,
        ;
        assert(9 * (p / 9) <= p) by (nonlinear_arith)
            requires
                p == 9 * (p / 9) + p % 9,
                p % 9 >= 0,
        ;
        assert(36 * uu <= 4 * p) by (nonlinear_arith)
            requires
                9 * uu <= p,
        ;
    }
    if 36 * uu <= 4 * p {
        assert(9 * uu <= p) by (nonlinear_arith)
            requires
                36 * uu <= 4 * p,
        ;
        assert(uu <= p / 9) by (nonlinear_arith)
            requires
                9 * uu <= p,
                p == 9 * (p / 9) + p % 9,
                p % 9 < 9,
                p % 9 >= 0,
        ;
    }
}

proof fn lemma_mul_assoc_u128(a: u128, s: u128)
    ensures
        a as int * ((s as int) * (s as int)) == a as int * (s as int) * (s as int),
{
    vstd::arithmetic::mul::lemma_mul_is_associative(a as int, s as int, s as int);
}

} // verus!
