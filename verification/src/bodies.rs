//! Elementwise wrapping arithmetic on ciphertext bodies: vectors of 64-bit
//! torus values, all stated modulo 2^64.

use vstd::arithmetic::power2::pow2;
use vstd::prelude::*;

verus! {

/// Reduction of an integer to the torus: the value modulo 2^64.
pub open spec fn wrap(x: int) -> int {
    x % pow2(64) as int
}

/// Wrapping sum of two torus values.
pub fn wrap_add64(a: u64, b: u64) -> (r: u64)
    ensures
        r as int == wrap(a as int + b as int),
{
    proof {
        crate::arith::lemma_scale_is_pow2();
        if a + b <= u64::MAX {
            vstd::arithmetic::div_mod::lemma_small_mod((a + b) as nat, pow2(64));
        } else {
            vstd::arithmetic::div_mod::lemma_fundamental_div_mod_converse(
                a as int + b as int,
                pow2(64) as int,
                1,
                a as int + b as int - pow2(64) as int,
            );
        }
    }
    a.wrapping_add(b)
}

/// Wrapping difference of two torus values.
pub fn wrap_sub64(a: u64, b: u64) -> (r: u64)
    ensures
        r as int == wrap(a as int - b as int),
{
    proof {
        crate::arith::lemma_scale_is_pow2();
        if a >= b {
            vstd::arithmetic::div_mod::lemma_small_mod((a - b) as nat, pow2(64));
        } else {
            vstd::arithmetic::div_mod::lemma_fundamental_div_mod_converse(
                a as int - b as int,
                pow2(64) as int,
                -1,
                a as int - b as int + pow2(64) as int,
            );
        }
    }
    a.wrapping_sub(b)
}

/// Wrapping product of two torus values.
pub fn wrap_mul64(a: u64, b: u64) -> (r: u64)
    ensures
        r as int == wrap(a as int * b as int),
{
    proof {
        crate::arith::lemma_scale_is_pow2();
        assert(a as int * b as int >= 0) by (nonlinear_arith)
            requires
                a >= 0,
                b >= 0,
        ;
    }
    a.wrapping_mul(b)
}

/// Wrapping negation of a torus value.
pub fn wrap_neg64(a: u64) -> (r: u64)
    ensures
        r as int == wrap(-(a as int)),
{
    wrap_sub64(0, a)
}

/// Elementwise wrapping sum of two equal-length bodies.
pub fn wrap_add_vec(a: &Vec<u64>, b: &Vec<u64>) -> (r: Vec<u64>)
    requires
        a@.len() == b@.len(),
    ensures
        r@.len() == a@.len(),
        forall|i: int|
            0 <= i < a@.len() ==> #[trigger] r@[i] as int == wrap(a@[i] as int + b@[i] as int),
{
    let mut out: Vec<u64> = Vec::new();
    let mut i: usize = 0;
    while i < a.len()
        invariant
            i <= a@.len(),
            a@.len() == b@.len(),
            out@.len() == i,
            forall|j: int|
                0 <= j < i ==> #[trigger] out@[j] as int == wrap(a@[j] as int + b@[j] as int),
        decreases a@.len() - i,
    {
        out.push(wrap_add64(a[i], b[i]));
        i = i + 1;
    }
    out
}

/// Elementwise wrapping difference of two equal-length bodies.
pub fn wrap_sub_vec(a: &Vec<u64>, b: &Vec<u64>) -> (r: Vec<u64>)
    requires
        a@.len() == b@.len(),
    ensures
        r@.len() == a@.len(),
        forall|i: int|
            0 <= i < a@.len() ==> #[trigger] r@[i] as int == wrap(a@[i] as int - b@[i] as int),
{
    let mut out: Vec<u64> = Vec::new();
    let mut i: usize = 0;
    while i < a.len()
        invariant
            i <= a@.len(),
            a@.len() == b@.len(),
            out@.len() == i,
            forall|j: int|
                0 <= j < i ==> #[trigger] out@[j] as int == wrap(a@[j] as int - b@[j] as int),
        decreases a@.len() - i,
    {
        out.push(wrap_sub64(a[i], b[i]));
        i = i + 1;
    }
    out
}

/// Elementwise wrapping negation of a body.
pub fn wrap_neg_vec(a: &Vec<u64>) -> (r: Vec<u64>)
    ensures
        r@.len() == a@.len(),
        forall|i: int| 0 <= i < a@.len() ==> #[trigger] r@[i] as int == wrap(-(a@[i] as int)),
{
    let mut out: Vec<u64> = Vec::new();
    let mut i: usize = 0;
    while i < a.len()
        invariant
            i <= a@.len(),
            out@.len() == i,
            forall|j: int| 0 <= j < i ==> #[trigger] out@[j] as int == wrap(-(a@[j] as int)),
        decreases a@.len() - i,
    {
        out.push(wrap_neg64(a[i]));
        i = i + 1;
    }
    out
}

/// Elementwise wrapping product of a body with one scalar.
pub fn wrap_scalar_mul_vec(a: &Vec<u64>, s: u64) -> (r: Vec<u64>)
    ensures
        r@.len() == a@.len(),
        forall|i: int|
            0 <= i < a@.len() ==> #[trigger] r@[i] as int == wrap(a@[i] as int * s as int),
{
    let mut out: Vec<u64> = Vec::new();
    let mut i: usize = 0;
    while i < a.len()
        invariant
            i <= a@.len(),
            out@.len() == i,
            forall|j: int|
                0 <= j < i ==> #[trigger] out@[j] as int == wrap(a@[j] as int * s as int),
        decreases a@.len() - i,
    {
        out.push(wrap_mul64(a[i], s));
        i = i + 1;
    }
    out
}

/// The wrapping inner product of the first `n` entries of a mask with a
/// key, as used by the phase computation of decryption.
pub open spec fn dot_spec(mask: Seq<u64>, key: Seq<u64>, n: int) -> int
    decreases n,
{
    if n <= 0 {
        0
    } else {
        wrap(dot_spec(mask, key, n - 1) + mask[n - 1] as int * key[n - 1] as int)
    }
}

/// Wrapping inner product of a mask with a key of the same length.
pub fn dot(mask: &Vec<u64>, key: &Vec<u64>, n: usize) -> (r: u64)
    requires
        n <= mask@.len(),
        n <= key@.len(),
    ensures
        r as int == dot_spec(mask@, key@, n as int),
{
    let mut acc: u64 = 0;
    let mut i: usize = 0;
    while i < n
        invariant
            i <= n,
            n <= mask@.len(),
            n <= key@.len(),
            acc as int == dot_spec(mask@, key@, i as int),
        decreases n - i,
    {
        let prod = wrap_mul64(mask[i], key[i]);
        proof {
            crate::arith::lemma_scale_is_pow2();
            lemma_wrap_add_absorb(
                dot_spec(mask@, key@, i as int),
                mask@[i as int] as int * key@[i as int] as int,
            );
        }
        acc = wrap_add64(acc, prod);
        i = i + 1;
    }
    acc
}

/// Adding a value already reduced modulo 2^64 gives the same result as
/// adding the value itself.
pub proof fn lemma_wrap_add_absorb(a: int, b: int)
    ensures
        wrap(a + wrap(b)) == wrap(a + b),
{
    vstd::arithmetic::power2::lemma_pow2_pos(64);
    vstd::arithmetic::div_mod::lemma_add_mod_noop(a, b, pow2(64) as int);
    vstd::arithmetic::div_mod::lemma_add_mod_noop(a, b % pow2(64) as int, pow2(64) as int);
    vstd::arithmetic::div_mod::lemma_mod_twice(b, pow2(64) as int);
    vstd::arithmetic::div_mod::lemma_mod_twice(a, pow2(64) as int);
}

/// Wrapping respects congruence on either summand.
pub proof fn lemma_wrap_add_congruent(a: int, b: int, c: int)
    requires
        wrap(b) == wrap(c),
    ensures
        wrap(a + b) == wrap(a + c),
{
    vstd::arithmetic::power2::lemma_pow2_pos(64);
    vstd::arithmetic::div_mod::lemma_add_mod_noop(a, b, pow2(64) as int);
    vstd::arithmetic::div_mod::lemma_add_mod_noop(a, c, pow2(64) as int);
}

} // verus!
