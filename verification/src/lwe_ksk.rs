//! Key-switching keys, as capability handles: the decomposition parameters
//! and noise data that the ciphertext algebra reads. The key material
//! itself lives with the lattice backend, which performs the actual
//! switching; the library checks dimensions and tracks the noise growth.

use vstd::arithmetic::power2::pow2;
use vstd::prelude::*;

use crate::lwe_secret_key::LWESecretKey;
use crate::variance::{Variance, VAR_MAX_UNITS};

verus! {

/// A key-switching key handle: input and output dimensions, the torus
/// decomposition parameters, and the noise of the key's own encryptions.
#[derive(Clone, Copy, Debug, PartialEq, Eq, Structural)]
pub struct LWEKSK {
    pub variance: Variance,
    pub dimension_before: usize,
    pub dimension_after: usize,
    pub base_log: usize,
    pub level: usize,
}

impl LWEKSK {
    /// Handle well-formedness: a saturating variance estimate.
    pub open spec fn wf(self) -> bool {
        self.variance.wf()
    }

    /// The handle for a key switching from `sk_before` to `sk_after` with
    /// the given decomposition base and level count; its encryptions carry
    /// the after-key's fresh noise.
    pub fn new(sk_before: &LWESecretKey, sk_after: &LWESecretKey, base_log: usize, level:
        usize) -> (r: LWEKSK)
        ensures
            r.wf(),
            r.dimension_before == sk_before.dimension,
            r.dimension_after == sk_after.dimension,
            r.base_log == base_log,
            r.level == level,
            r.variance == crate::variance::spec_variance_of_log2_std_dev(
                sk_after.log2_std_dev as int,
            ),
    {
        LWEKSK {
            variance: sk_after.get_variance(),
            dimension_before: sk_before.dimension,
            dimension_after: sk_after.dimension,
            base_log,
            level,
        }
    }

    /// An all-zero placeholder handle.
    pub fn zero(sk_before: &LWESecretKey, sk_after: &LWESecretKey, base_log: usize, level:
        usize) -> (r: LWEKSK)
        ensures
            r.wf(),
            r.dimension_before == sk_before.dimension,
            r.dimension_after == sk_after.dimension,
            r.base_log == base_log,
            r.level == level,
            r.variance.units == 0,
    {
        LWEKSK {
            variance: Variance::zero(),
            dimension_before: sk_before.dimension,
            dimension_after: sk_after.dimension,
            base_log,
            level,
        }
    }
}

/// The noise estimate after a key switch, rounded up on every division so
/// it never falls below the backend's own estimate: the input noise, plus
/// the decomposition's rounding noise per mask entry, plus the key noise
/// amplified by the decomposition, everything saturating at the cap.
pub open spec fn spec_keyswitch_variance(dimension_before: int, level: int, base_log: int,
    var_ksk: Variance, var_in: Variance) -> Variance {
    let round_term = if 2 * base_log * level >= 126 {
        1int
    } else {
        (pow2((126 - 2 * base_log * level) as nat) + 23) as int / 24
    };
    let amp = if 2 * base_log >= 126 {
        VAR_MAX_UNITS as int
    } else {
        (pow2((2 * base_log) as nat) + 13) as int / 12
    };
    let total = var_in.units + dimension_before * (round_term + 1) + dimension_before * level
        * amp * var_ksk.units;
    if total <= VAR_MAX_UNITS {
        Variance { units: total as u128 }
    } else {
        Variance { units: VAR_MAX_UNITS }
    }
}

/// Computes [`spec_keyswitch_variance`] with saturating arithmetic.
pub fn keyswitch_variance(dimension_before: usize, level: usize, base_log: usize, var_ksk:
    Variance, var_in: Variance) -> (r: Variance)
    requires
        var_ksk.wf(),
        var_in.wf(),
        dimension_before <= 0xffff_ffffusize,
        level <= 0xffff_ffffusize,
        base_log <= 0xffff_ffffusize,
    ensures
        r == spec_keyswitch_variance(
            dimension_before as int,
            level as int,
            base_log as int,
            var_ksk,
            var_in,
        ),
        r.wf(),
{
    proof {
        assert(2 * (base_log as u128 as int) * (level as u128 as int) <= 2
            * 0xffff_ffffu128 as int * 0xffff_ffffu128 as int) by (nonlinear_arith)
            requires
                base_log as u128 <= 0xffff_ffffu128,
                level as u128 <= 0xffff_ffffu128,
        ;
    }
    let bl2: u128 = 2 * (base_log as u128) * (level as u128);
    let round_term: u128 = if bl2 >= 126 {
        1u128
    } else {
        proof {
            crate::variance::lemma_pow2_le_max128((126 - bl2) as nat);
        }
        ((1u128 << ((126 - bl2) as u32)) + 23) / 24
    };
    let amp: u128 = if 2 * (base_log as u128) >= 126 {
        VAR_MAX_UNITS
    } else {
        proof {
            crate::variance::lemma_pow2_le_max128((2 * base_log) as nat);
        }
        ((1u128 << ((2 * base_log) as u32)) + 13) / 12
    };
    let n = dimension_before as u128;
    let l = level as u128;
    proof {
        assert((n as int) * (l as int) <= 0xffff_ffffu128 as int * 0xffff_ffffu128 as int)
            by (nonlinear_arith)
            requires
                n <= 0xffff_ffffu128,
                l <= 0xffff_ffffu128,
        ;
    }
    let nl: u128 = n * l;
    let t1 = sat_mul(n, round_term + 1);
    let s1 = sat_mul(nl, amp);
    let t2 = sat_mul(s1, var_ksk.units);
    let total = sat_add(sat_add(var_in.units, t1), t2);
    proof {
        lemma_sat_chain(
            n as int,
            l as int,
            round_term as int,
            amp as int,
            var_ksk.units as int,
            var_in.units as int,
            t1 as int,
            s1 as int,
            t2 as int,
            total as int,
        );
    }
    if total > VAR_MAX_UNITS {
        Variance { units: VAR_MAX_UNITS }
    } else {
        Variance { units: total }
    }
}

/// Saturating product on the raw unit domain.
fn sat_mul(a: u128, b: u128) -> (r: u128)
    ensures
        r as int == if a * b <= u128::MAX {
            a * b
        } else {
            u128::MAX as int
        },
{
    if a == 0 {
        proof {
            assert(a * b == 0) by (nonlinear_arith)
                requires
                    a == 0,
            ;
        }
        return 0;
    }
    proof {
        vstd::arithmetic::div_mod::lemma_fundamental_div_mod(u128::MAX as int, a as int);
        if b <= u128::MAX / a {
            assert(a * b <= a * (u128::MAX as int / a as int)) by (nonlinear_arith)
                requires
                    b <= u128::MAX as int / a as int,
                    a > 0,
            ;
            assert(a * (u128::MAX as int / a as int) <= u128::MAX) by (nonlinear_arith)
                requires
                    u128::MAX as int == a as int * (u128::MAX as int / a as int) + (u128::MAX
                        as int % a as int),
                    u128::MAX as int % a as int >= 0,
            ;
        } else {
            assert(a * b > u128::MAX) by (nonlinear_arith)
                requires
                    b > u128::MAX as int / a as int,
                    a > 0,
                    u128::MAX as int == a as int * (u128::MAX as int / a as int) + (u128::MAX
                        as int % a as int),
                    (u128::MAX as int % a as int) < a as int,
            ;
        }
    }
    if b <= u128::MAX / a {
        a * b
    } else {
        u128::MAX
    }
}

/// Saturating sum on the raw unit domain.
fn sat_add(a: u128, b: u128) -> (r: u128)
    ensures
        r as int == if a + b <= u128::MAX {
            a + b
        } else {
            u128::MAX as int
        },
{
    if a <= u128::MAX - b {
        a + b
    } else {
        u128::MAX
    }
}

/// Clamping at the cap commutes with the saturating evaluation: the clamped
/// saturating total equals the exact formula clamped at the cap, because
/// every saturation only happens above the cap and the terms are
/// nonnegative.
proof fn lemma_sat_chain(n: int, l: int, rt: int, am: int, vk: int, vi: int, t1: int, s1:
    int, t2: int, total: int)
    requires
        0 <= n,
        0 <= l,
        0 <= rt,
        0 <= am,
        0 <= vk,
        0 <= vi,
        t1 == if n * (rt + 1) <= u128::MAX {
            n * (rt + 1)
        } else {
            u128::MAX as int
        },
        s1 == if n * l * am <= u128::MAX {
            n * l * am
        } else {
            u128::MAX as int
        },
        t2 == if s1 * vk <= u128::MAX {
            s1 * vk
        } else {
            u128::MAX as int
        },
        total == if vi + t1 + t2 <= u128::MAX {
            vi + t1 + t2
        } else {
            u128::MAX as int
        },
    ensures
        (total > VAR_MAX_UNITS) == (vi + n * (rt + 1) + n * l * am * vk > VAR_MAX_UNITS),
        total <= VAR_MAX_UNITS ==> total == vi + n * (rt + 1) + n * l * am * vk,
{
    let cap = VAR_MAX_UNITS as int;
    let exact2 = n * l * am * vk;
    assert(u128::MAX as int > cap);
    if n * l * am <= u128::MAX {
        // s1 is exact.
        if s1 * vk <= u128::MAX {
            // everything exact up to t2.
            assert(t2 == exact2) by (nonlinear_arith)
                requires
                    s1 == n * l * am,
                    t2 == s1 * vk,
                    exact2 == n * l * am * vk,
            ;
        } else {
            // t2 saturated: the exact value also exceeds the cap.
            assert(exact2 > u128::MAX) by (nonlinear_arith)
                requires
                    s1 == n * l * am,
                    s1 * vk > u128::MAX,
                    exact2 == n * l * am * vk,
            ;
        }
    } else {
        // s1 saturated: with vk == 0 both sides vanish, else both exceed.
        if vk == 0 {
            assert(t2 == 0 && exact2 == 0) by (nonlinear_arith)
                requires
                    vk == 0,
                    t2 == if s1 * vk <= u128::MAX {
                        s1 * vk
                    } else {
                        u128::MAX as int
                    },
                    exact2 == n * l * am * vk,
            ;
        } else {
            assert(s1 * vk >= s1) by (nonlinear_arith)
                requires
                    vk >= 1,
                    s1 >= 0,
            ;
            assert(exact2 >= n * l * am) by (nonlinear_arith)
                requires
                    vk >= 1,
                    n * l * am >= 0,
                    exact2 == n * l * am * vk,
            ;
        }
    }
    // In every case, t2 <= cap implies t2 == exact2, and t2 > cap implies
    // exact2 > cap; the same then holds for the totals.
    assert(t2 <= cap ==> t2 == exact2);
    assert(t2 > cap ==> exact2 > cap);
    assert(exact2 >= 0) by (nonlinear_arith)
        requires
            n >= 0,
            l >= 0,
            am >= 0,
            vk >= 0,
            exact2 == n * l * am * vk,
    ;
    assert(n * (rt + 1) >= 0) by (nonlinear_arith)
        requires
            n >= 0,
            rt >= 0,
    ;
}

} // verus!
