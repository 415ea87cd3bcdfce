//! Exact integer arithmetic on which the torus encoding rests: rounded
//! division scaled by a power of two, products shifted down by 64 bits, and
//! rounding of a torus value at a given bit position.

use vstd::prelude::*;
use vstd::arithmetic::div_mod::{
    lemma_fundamental_div_mod, lemma_fundamental_div_mod_converse,
};
use vstd::arithmetic::power2::{lemma2_to64, lemma_pow2_adds, lemma_pow2_pos, pow2};
use vstd::bits::{lemma_u128_shr_is_div, lemma_u64_shr_is_div};

verus! {

/// The scale factor between `Fix` units and real values: 2^64.
pub const SCALE: u128 = 0x1_0000_0000_0000_0000;

/// `a / b` rounded to the nearest integer, ties rounded up.
pub open spec fn round_div(a: int, b: int) -> int
    recommends
        b > 0,
{
    (2 * a + b) / (2 * b)
}

/// The scale constant written as a power of two.
pub proof fn lemma_scale_is_pow2()
    ensures
        SCALE as int == pow2(64),
{
    lemma2_to64();
    lemma_pow2_adds(32, 32);
}

/// Rounded scaled quotient: `round(a * 2^s / b)`, by restoring division.
///
/// The result is exact: it equals `round_div(a * 2^s, b)`. For `a <= b` it
/// is at most `2^s`, so with `s <= 64` it fits in the return type.
pub fn div_round_shift(a: u128, b: u128, s: u64) -> (r: u128)
    requires
        0 < b < 0x4000_0000_0000_0000_0000_0000_0000_0000u128,
        a <= b,
        s <= 64,
    ensures
        r == round_div(a as int * pow2(s as nat) as int, b as int),
        r <= pow2(s as nat),
{
    proof {
        lemma_pow2_pos(s as nat);
        assert(pow2(64) == SCALE) by {
            lemma_scale_is_pow2();
        }
        if s < 64 {
            vstd::arithmetic::power2::lemma_pow2_strictly_increases(s as nat, 64);
        }
    }
    if a == b {
        // a/b is one: the rounded scaled quotient is exactly 2^s.
        let r: u128 = if s == 64 {
            SCALE
        } else {
            proof {
                vstd::bits::lemma_u64_pow2_no_overflow(s as nat);
                vstd::bits::lemma_u64_shl_is_mul(1u64, s);
            }
            (1u64 << s) as u128
        };
        proof {
            let p = pow2(s as nat) as int;
            assert(2 * (b as int * p) + b as int == p * (2 * b as int) + b as int)
                by (nonlinear_arith);
            lemma_fundamental_div_mod_converse(
                2 * (b as int * p) + b as int,
                2 * b as int,
                p,
                b as int,
            );
        }
        return r;
    }
    let mut q: u128 = 0;
    let mut rem: u128 = a;
    let mut i: u64 = 0;
    proof {
        assert(pow2(0) == 1) by {
            lemma2_to64();
        }
    }
    while i < s
        invariant
            i <= s <= 64,
            0 < b < 0x4000_0000_0000_0000_0000_0000_0000_0000u128,
            a < b,
            rem < b,
            q < pow2(i as nat),
            a as int * pow2(i as nat) as int == q as int * b as int + rem as int,
        decreases s - i,
    {
        proof {
            lemma_pow2_adds(i as nat, 1);
            lemma2_to64();
            assert(q * 2 + 1 < pow2(i as nat) * 2) by (nonlinear_arith)
                requires
                    q < pow2(i as nat),
            ;
            assert(pow2((i + 1) as nat) <= pow2(64)) by {
                if i + 1 < 64 {
                    vstd::arithmetic::power2::lemma_pow2_strictly_increases(
                        (i + 1) as nat,
                        64,
                    );
                }
            }
            lemma_scale_is_pow2();
        }
        q = q * 2;
        rem = rem * 2;
        if rem >= b {
            rem = rem - b;
            q = q + 1;
        }
        proof {
            assert(a as int * pow2((i + 1) as nat) as int == q as int * b as int
                + rem as int) by (nonlinear_arith)
                requires
                    pow2((i + 1) as nat) == pow2(i as nat) * 2,
                    a as int * pow2(i as nat) as int == (q as int / 2) * b as int + (rem as int
                        + if q as int % 2 == 1 {
                            b as int
                        } else {
                            0int
                        }) / 2,
                    q as int % 2 == 1 ==> rem as int + b as int == (rem as int + b as int) / 2 * 2,
                    q as int % 2 == 0 ==> rem as int == rem as int / 2 * 2,
            ;
        }
        i = i + 1;
    }
    // Round to nearest, ties up: add one when twice the remainder reaches b.
    let half_up: bool = rem >= b - rem;
    proof {
        let aa = a as int;
        let bb = b as int;
        let qq = q as int;
        let rr = rem as int;
        let p = pow2(s as nat) as int;
        lemma_pow2_pos(s as nat);
        assert(2 * (aa * p) + bb == (qq + if half_up {
            1int
        } else {
            0int
        }) * (2 * bb) + (2 * rr + bb - if half_up {
            2 * bb
        } else {
            0int
        })) by (nonlinear_arith)
            requires
                aa * p == qq * bb + rr,
        ;
        lemma_fundamental_div_mod_converse(
            2 * (aa * p) + bb,
            2 * bb,
            qq + if half_up {
                1int
            } else {
                0int
            },
            2 * rr + bb - if half_up {
                2 * bb
            } else {
                0int
            },
        );
        assert(qq + 1 <= p || !half_up) by (nonlinear_arith)
            requires
                aa <= bb,
                0 < bb,
                rr < bb,
                aa * p == qq * bb + rr,
                half_up ==> 2 * rr >= bb,
                p > 0,
        ;
    }
    if half_up {
        q + 1
    } else {
        q
    }
}

/// Scaled floor quotient: `floor(a * 2^s / b)`, by restoring division.
pub fn div_floor_shift(a: u128, b: u128, s: u64) -> (r: u128)
    requires
        0 < b < 0x4000_0000_0000_0000_0000_0000_0000_0000u128,
        a <= b,
        s <= 64,
    ensures
        r == (a as int * pow2(s as nat) as int) / (b as int),
        r <= pow2(s as nat),
        a < b ==> r < pow2(s as nat),
{
    proof {
        lemma_pow2_pos(s as nat);
        assert(pow2(64) == SCALE) by {
            lemma_scale_is_pow2();
        }
        if s < 64 {
            vstd::arithmetic::power2::lemma_pow2_strictly_increases(s as nat, 64);
        }
    }
    if a == b {
        let r: u128 = if s == 64 {
            SCALE
        } else {
            proof {
                vstd::bits::lemma_u64_pow2_no_overflow(s as nat);
                vstd::bits::lemma_u64_shl_is_mul(1u64, s);
            }
            (1u64 << s) as u128
        };
        proof {
            let p = pow2(s as nat) as int;
            assert(b as int * p == p * (b as int)) by (nonlinear_arith);
            lemma_fundamental_div_mod_converse(b as int * p, b as int, p, 0);
        }
        return r;
    }
    let mut q: u128 = 0;
    let mut rem: u128 = a;
    let mut i: u64 = 0;
    proof {
        assert(pow2(0) == 1) by {
            lemma2_to64();
        }
    }
    while i < s
        invariant
            i <= s <= 64,
            0 < b < 0x4000_0000_0000_0000_0000_0000_0000_0000u128,
            a < b,
            rem < b,
            q < pow2(i as nat),
            a as int * pow2(i as nat) as int == q as int * b as int + rem as int,
        decreases s - i,
    {
        proof {
            lemma_pow2_adds(i as nat, 1);
            lemma2_to64();
            assert(q * 2 + 1 < pow2(i as nat) * 2) by (nonlinear_arith)
                requires
                    q < pow2(i as nat),
            ;
            assert(pow2((i + 1) as nat) <= pow2(64)) by {
                if i + 1 < 64 {
                    vstd::arithmetic::power2::lemma_pow2_strictly_increases(
                        (i + 1) as nat,
                        64,
                    );
                }
            }
            lemma_scale_is_pow2();
        }
        q = q * 2;
        rem = rem * 2;
        if rem >= b {
            rem = rem - b;
            q = q + 1;
        }
        proof {
            assert(a as int * pow2((i + 1) as nat) as int == q as int * b as int
                + rem as int) by (nonlinear_arith)
                requires
                    pow2((i + 1) as nat) == pow2(i as nat) * 2,
                    a as int * pow2(i as nat) as int == (q as int / 2) * b as int + (rem as int
                        + if q as int % 2 == 1 {
                            b as int
                        } else {
                            0int
                        }) / 2,
                    q as int % 2 == 1 ==> rem as int + b as int == (rem as int + b as int) / 2 * 2,
                    q as int % 2 == 0 ==> rem as int == rem as int / 2 * 2,
            ;
        }
        i = i + 1;
    }
    proof {
        lemma_fundamental_div_mod_converse(
            a as int * pow2(s as nat) as int,
            b as int,
            q as int,
            rem as int,
        );
    }
    q
}

/// `floor(t * d / 2^64)` for a 64-bit torus value `t` and a nonnegative
/// amount `d` of `Fix` units, without intermediate overflow.
pub fn mul_u64_shift(t: u64, d: u128) -> (r: u128)
    requires
        d < 0x4000_0000_0000_0000_0000_0000_0000_0000u128,
    ensures
        r == (t as int * d as int) / pow2(64) as int,
{
    let dh: u128 = d >> 64u128;
    let dl: u128 = d & 0xffff_ffff_ffff_ffffu128;
    proof {
        lemma_u128_shr_is_div(d, 64);
        lemma_scale_is_pow2();
        assert(dl == d % SCALE) by (bit_vector)
            requires
                dl == d & 0xffff_ffff_ffff_ffffu128,
        ;
        vstd::arithmetic::div_mod::lemma_multiply_divide_lt(
            d as int,
            0x4000_0000_0000_0000u128 as int,
            SCALE as int,
        );
        assert(t as int * dh as int <= 0xffff_ffff_ffff_ffffu128 as int * dh as int
            && (0xffff_ffff_ffff_ffffu128 as int * dh as int)
                < (SCALE as int) * (0x4000_0000_0000_0000u128 as int)) by (nonlinear_arith)
            requires
                t <= 0xffff_ffff_ffff_ffffu64,
                0 <= dh,
                (dh as int) < (0x4000_0000_0000_0000u128 as int),
        ;
        assert((t as int * dl as int) < (SCALE as int) * (SCALE as int)) by (nonlinear_arith)
            requires
                (t as int) < SCALE as int,
                (dl as int) < SCALE as int,
                t >= 0,
                dl >= 0,
        ;
    }
    let lo: u128 = (t as u128) * dl;
    let hi: u128 = (t as u128) * dh;
    let los: u128 = lo >> 64u128;
    proof {
        lemma_u128_shr_is_div(lo, 64);
        lemma_scale_is_pow2();
        vstd::arithmetic::div_mod::lemma_multiply_divide_lt(
            lo as int,
            SCALE as int,
            SCALE as int,
        );
    }
    let r: u128 = hi + los;
    proof {
        let tt = t as int;
        let dd = d as int;
        let p = SCALE as int;
        // t*d = (t*dh)*2^64 + t*dl, and t*dl = (t*dl / 2^64)*2^64 + t*dl % 2^64.
        lemma_fundamental_div_mod(lo as int, p);
        assert(tt * dd == (tt * dh as int) * p + tt * dl as int) by (nonlinear_arith)
            requires
                dd == dh as int * p + dl as int,
        ;
        lemma_fundamental_div_mod_converse(
            tt * dd,
            p,
            r as int,
            lo as int % p,
        );
    }
    r
}

/// Euclidean remainder of a signed amount of units by a positive modulus:
/// the result is the unique value in `[0, d)` congruent to `a`.
pub fn euclid_rem(a: i128, d: u128) -> (r: u128)
    requires
        0 < d <= 0x7fff_ffff_ffff_ffff_ffff_ffff_ffff_ffffu128,
        a > i128::MIN,
    ensures
        r as int == (a as int) % (d as int),
        r < d,
{
    if a >= 0 {
        let r = (a as u128) % d;
        proof {
            vstd::arithmetic::div_mod::lemma_mod_division_less_than_divisor(
                a as int,
                d as int,
            );
        }
        r
    } else {
        let na: u128 = (-a) as u128;
        let n: u128 = na % d;
        proof {
            lemma_fundamental_div_mod(na as int, d as int);
            vstd::arithmetic::div_mod::lemma_mod_division_less_than_divisor(
                na as int,
                d as int,
            );
            let q = na as int / d as int;
            if n == 0 {
                assert(a as int == (-q) * d as int + 0) by (nonlinear_arith)
                    requires
                        na as int == d as int * q + 0,
                        a as int == -(na as int),
                ;
                lemma_fundamental_div_mod_converse(a as int, d as int, -q, 0);
            } else {
                assert(a as int == (-q - 1) * d as int + (d as int - n as int))
                    by (nonlinear_arith)
                    requires
                        na as int == d as int * q + n as int,
                        a as int == -(na as int),
                ;
                lemma_fundamental_div_mod_converse(
                    a as int,
                    d as int,
                    -q - 1,
                    d as int - n as int,
                );
            }
        }
        if n == 0 {
            0
        } else {
            d - n
        }
    }
}

/// Rounds a torus value to the nearest multiple of `2^(64 - nb)`, ties up,
/// wrapping past zero, as the decomposition rounding of the backend does.
/// For `nb == 0` or `nb == 64` every value is representable and the input is
/// returned unchanged.
pub fn closest_representable(t: u64, nb: u64) -> (r: u64)
    requires
        nb <= 64,
    ensures
        0 < nb < 64 ==> r as int == ((t as int + pow2((63 - nb) as nat) as int) / pow2(
            (64 - nb) as nat,
        ) as int * pow2((64 - nb) as nat) as int) % pow2(64) as int,
        nb == 0 || nb == 64 ==> r == t,
{
    if nb == 0 || nb == 64 {
        return t;
    }
    let s: u64 = 64 - nb;
    let ghost sn = s as nat;
    proof {
        lemma2_to64();
        vstd::arithmetic::power2::lemma2_to64_rest();
        vstd::bits::lemma_u64_pow2_no_overflow(sn);
        vstd::bits::lemma_u64_shl_is_mul(1u64, s);
        lemma_pow2_adds((s - 1) as nat, 1);
    }
    let m: u64 = 1u64 << s;
    let half: u64 = m / 2;
    let low: u64 = t % m;
    proof {
        assert(m == pow2(sn));
        assert(pow2(sn) == 2 * pow2((sn - 1) as nat));
        assert(half as int == pow2((sn - 1) as nat));
        assert(half as int == pow2((63 - nb) as nat));
        assert(m == 2 * half);
        lemma_fundamental_div_mod(t as int, m as int);
        vstd::arithmetic::div_mod::lemma_mod_division_less_than_divisor(t as int, m as int);
        vstd::arithmetic::div_mod::lemma_div_is_ordered_by_denominator(t as int, 1, m as int);
        assert(low <= t) by {
            vstd::arithmetic::div_mod::lemma_mod_decreases(t as nat, m as nat);
        }
    }
    let base: u64 = t - low;
    let ghost q = t as int / m as int;
    proof {
        assert(t as int == m as int * q + low as int);
        assert(m as int * q == q * m as int && (q + 1) * m as int == q * m as int + m as int)
            by (nonlinear_arith);
        assert(base as int == q * m as int);
    }
    if low >= half {
        let r = base.wrapping_add(m);
        proof {
            // t + half overflows into the next multiple: quotient goes up by one.
            lemma_fundamental_div_mod_converse(
                t as int + half as int,
                m as int,
                q + 1,
                low as int + half as int - m as int,
            );
            lemma_scale_is_pow2();
            assert(r as int == ((q + 1) * m as int) % pow2(64) as int) by (nonlinear_arith)
                requires
                    r as int == (base as int + m as int) % pow2(64) as int,
                    base as int == q * m as int,
            ;
        }
        r
    } else {
        proof {
            lemma_fundamental_div_mod_converse(
                t as int + half as int,
                m as int,
                q,
                low as int + half as int,
            );
            lemma_scale_is_pow2();
            vstd::arithmetic::div_mod::lemma_small_mod((base as u64) as nat, pow2(64));
        }
        base
    }
}

} // verus!
