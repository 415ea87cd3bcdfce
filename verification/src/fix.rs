//! Fixed-point real values: every real number handled by the library is an
//! integer count of units of 2^-64, so that all contracts are exact
//! statements about integers.

use vstd::math::abs;
use vstd::prelude::*;
use vstd::arithmetic::div_mod::{
    lemma_fundamental_div_mod, lemma_fundamental_div_mod_converse,
};
use vstd::arithmetic::power2::pow2;
use vstd::bits::lemma_u128_shr_is_div;

use crate::arith::SCALE;

verus! {

/// Magnitude cap, in units of 2^-64, on the real values the library works
/// with: 2^96 units, or a real magnitude of 2^32. The cap is what lets every
/// product of two values be computed exactly in 128-bit arithmetic.
pub const MAX_UNITS: i128 = 0x1_0000_0000_0000_0000_0000_0000;

/// A real number as a count of units of 2^-64: the value is
/// `units / 2^64`.
#[derive(Clone, Copy, Debug, PartialEq, Eq, Structural)]
pub struct Fix {
    pub units: i128,
}

impl Fix {
    /// The real number zero.
    pub fn zero() -> (r: Fix)
        ensures
            r.units == 0,
    {
        Fix { units: 0 }
    }

    /// The real number `units / 2^64`.
    pub fn from_units(units: i128) -> (r: Fix)
        ensures
            r.units == units,
    {
        Fix { units }
    }

    /// Whether this value lies within the library's working range.
    pub open spec fn bounded(self) -> bool {
        -MAX_UNITS <= self.units <= MAX_UNITS
    }

    /// Exact sum.
    pub fn plus(self, other: Fix) -> (r: Fix)
        requires
            i128::MIN <= self.units + other.units <= i128::MAX,
        ensures
            r.units == self.units + other.units,
    {
        Fix { units: self.units + other.units }
    }

    /// Exact difference.
    pub fn minus(self, other: Fix) -> (r: Fix)
        requires
            i128::MIN <= self.units - other.units <= i128::MAX,
        ensures
            r.units == self.units - other.units,
    {
        Fix { units: self.units - other.units }
    }

    /// Exact negation.
    pub fn negated(self) -> (r: Fix)
        requires
            self.units > i128::MIN,
        ensures
            r.units == -self.units,
    {
        Fix { units: -self.units }
    }

    /// Absolute value.
    pub fn magnitude(self) -> (r: Fix)
        requires
            self.units > i128::MIN,
        ensures
            r.units == abs(self.units as int),
    {
        if self.units < 0 {
            Fix { units: -self.units }
        } else {
            Fix { units: self.units }
        }
    }

    /// Half of a nonnegative value, rounded down.
    pub fn half(self) -> (r: Fix)
        requires
            self.units >= 0,
        ensures
            r.units == self.units / 2,
    {
        Fix { units: self.units / 2 }
    }

    /// Exact product of the two real values, rounded down to the unit grid:
    /// `floor(a * b / 2^64)` over the unit counts.
    pub fn times(self, other: Fix) -> (r: Fix)
        requires
            -MAX_UNITS < self.units < MAX_UNITS,
            -MAX_UNITS < other.units < MAX_UNITS,
            -(MAX_UNITS as int) * (SCALE as int) <= self.units * other.units <= (MAX_UNITS
                as int) * (SCALE as int),
        ensures
            r.units == (self.units * other.units) / (SCALE as int),
            -MAX_UNITS <= r.units <= MAX_UNITS,
    {
        let negative: bool = (self.units < 0) != (other.units < 0);
        let au: u128 = if self.units < 0 {
            (-self.units) as u128
        } else {
            self.units as u128
        };
        let bu: u128 = if other.units < 0 {
            (-other.units) as u128
        } else {
            other.units as u128
        };
        let (q, rem_nonzero) = mag_mul_shift(au, bu);
        proof {
            lemma_mag_bound(au, bu);
            crate::arith::lemma_scale_is_pow2();
            let x = self.units as int * other.units as int;
            let d = SCALE as int;
            assert(au as int * bu as int == abs(x)) by (nonlinear_arith)
                requires
                    au as int == abs(self.units as int),
                    bu as int == abs(other.units as int),
                    x == self.units as int * other.units as int,
            ;
            vstd::arithmetic::div_mod::lemma_div_is_ordered(
                au as int * bu as int,
                (MAX_UNITS as int) * d,
                d,
            );
            vstd::arithmetic::div_mod::lemma_div_by_multiple(MAX_UNITS as int, d);
            assert(q <= MAX_UNITS as u128);
            if negative && self.units != 0 && other.units != 0 {
                assert(x == -((au * bu) as int)) by (nonlinear_arith)
                    requires
                        au as int == abs(self.units as int),
                        bu as int == abs(other.units as int),
                        x == self.units as int * other.units as int,
                        (self.units < 0) != (other.units < 0),
                ;
                lemma_fundamental_div_mod(au as int * bu as int, d);
                if rem_nonzero {
                    lemma_fundamental_div_mod_converse(
                        x,
                        d,
                        -(q as int) - 1,
                        d - (au as int * bu as int) % d,
                    );
                } else {
                    lemma_fundamental_div_mod_converse(x, d, -(q as int), 0);
                }
            } else if self.units == 0 || other.units == 0 {
                assert(x == 0 && au * bu == 0) by (nonlinear_arith)
                    requires
                        x == self.units as int * other.units as int,
                        au as int == abs(self.units as int),
                        bu as int == abs(other.units as int),
                        self.units == 0 || other.units == 0,
                ;
            } else {
                assert(x == au as int * bu as int) by (nonlinear_arith)
                    requires
                        au as int == abs(self.units as int),
                        bu as int == abs(other.units as int),
                        x == self.units as int * other.units as int,
                        (self.units < 0) == (other.units < 0),
                ;
            }
        }
        if negative {
            if rem_nonzero {
                Fix { units: -(q as i128) - 1 }
            } else {
                Fix { units: -(q as i128) }
            }
        } else {
            Fix { units: q as i128 }
        }
    }
}

/// The product of two magnitudes below 2^96 stays below 2^192, so its upper
/// 128 bits and 64-bit remainder can be computed by limbs.
proof fn lemma_mag_bound(a: u128, b: u128)
    requires
        a < MAX_UNITS as u128,
        b < MAX_UNITS as u128,
    ensures
        a * b <= (MAX_UNITS as u128 - 1) * (MAX_UNITS as u128 - 1),
        ((a as int * b as int) / pow2(64) as int) < 0x1_0000_0000_0000_0000_0000_0000_0000_0000,
{
    assert(a * b <= (MAX_UNITS as u128 - 1) * (MAX_UNITS as u128 - 1)) by (nonlinear_arith)
        requires
            a <= MAX_UNITS as u128 - 1,
            b <= MAX_UNITS as u128 - 1,
    ;
    crate::arith::lemma_scale_is_pow2();
    vstd::arithmetic::div_mod::lemma_div_is_ordered(
        (a * b) as int,
        (MAX_UNITS as u128 - 1) as int * (MAX_UNITS as u128 - 1) as int,
        pow2(64) as int,
    );
    // (2^96 - 1)^2 = (2^128 - 2^33) * 2^64 + 1.
    lemma_fundamental_div_mod_converse(
        (MAX_UNITS as u128 - 1) as int * (MAX_UNITS as u128 - 1) as int,
        SCALE as int,
        0xffff_ffff_ffff_ffff_ffff_fffe_0000_0000u128 as int,
        1,
    );
}

/// Splits both magnitudes at bit 64 and recombines: returns
/// `floor(a * b / 2^64)` and whether the discarded low 64 bits of the
/// product are nonzero.
fn mag_mul_shift(a: u128, b: u128) -> (r: (u128, bool))
    requires
        a < MAX_UNITS as u128,
        b < MAX_UNITS as u128,
    ensures
        r.0 == (a as int * b as int) / pow2(64) as int,
        r.1 <==> (a as int * b as int) % pow2(64) as int != 0,
{
    let ah: u128 = a >> 64u128;
    let al: u128 = a & 0xffff_ffff_ffff_ffffu128;
    let bh: u128 = b >> 64u128;
    let bl: u128 = b & 0xffff_ffff_ffff_ffffu128;
    proof {
        crate::arith::lemma_scale_is_pow2();
        lemma_u128_shr_is_div(a, 64);
        lemma_u128_shr_is_div(b, 64);
        assert(al == a % SCALE && bl == b % SCALE) by (bit_vector)
            requires
                al == a & 0xffff_ffff_ffff_ffffu128,
                bl == b & 0xffff_ffff_ffff_ffffu128,
                SCALE == 0x1_0000_0000_0000_0000u128,
        ;
        lemma_fundamental_div_mod(a as int, SCALE as int);
        lemma_fundamental_div_mod(b as int, SCALE as int);
        vstd::arithmetic::div_mod::lemma_multiply_divide_lt(
            a as int,
            0x1_0000_0000u128 as int,
            SCALE as int,
        );
        vstd::arithmetic::div_mod::lemma_multiply_divide_lt(
            b as int,
            0x1_0000_0000u128 as int,
            SCALE as int,
        );
        lemma_limb_bounds(ah, al, bh, bl);
    }
    let hh: u128 = ah * bh;
    let hl: u128 = ah * bl;
    let lh: u128 = al * bh;
    let ll: u128 = al * bl;
    let lls: u128 = ll >> 64u128;
    let llr: u128 = ll & 0xffff_ffff_ffff_ffffu128;
    proof {
        lemma_u128_shr_is_div(ll, 64);
        assert(llr == ll % SCALE) by (bit_vector)
            requires
                llr == ll & 0xffff_ffff_ffff_ffffu128,
                SCALE == 0x1_0000_0000_0000_0000u128,
        ;
        lemma_fundamental_div_mod(ll as int, SCALE as int);
        vstd::arithmetic::div_mod::lemma_multiply_divide_lt(
            ll as int,
            SCALE as int,
            SCALE as int,
        );
        assert(hh << 64u128 == hh * 0x1_0000_0000_0000_0000u128) by (bit_vector)
            requires
                hh < 0x1_0000_0000_0000_0000u128,
        ;
        assert(hh * 0x1_0000_0000_0000_0000u128
            <= 0xffff_fffe_0000_0001_0000_0000_0000_0000u128) by (nonlinear_arith)
            requires
                hh <= 0xffff_fffe_0000_0001u128,
        ;
    }
    let q: u128 = (hh << 64u128) + hl + lh + lls;
    proof {
        let p = SCALE as int;
        assert(a as int * b as int == q as int * p + llr as int) by (nonlinear_arith)
            requires
                a as int == ah as int * p + al as int,
                b as int == bh as int * p + bl as int,
                hh as int == ah as int * bh as int,
                hl as int == ah as int * bl as int,
                lh as int == al as int * bh as int,
                ll as int == al as int * bl as int,
                ll as int == lls as int * p + llr as int,
                q as int == hh as int * p + hl as int + lh as int + lls as int,
        ;
        lemma_fundamental_div_mod_converse(a as int * b as int, p, q as int, llr as int);
    }
    (q, llr != 0)
}

/// Bounds on the four 64-bit limbs of two magnitudes below 2^96, enough to
/// rule out overflow in the recombination.
proof fn lemma_limb_bounds(ah: u128, al: u128, bh: u128, bl: u128)
    requires
        ah < 0x1_0000_0000u128,
        bh < 0x1_0000_0000u128,
        al < 0x1_0000_0000_0000_0000u128,
        bl < 0x1_0000_0000_0000_0000u128,
    ensures
        ah * bh <= 0xffff_fffe_0000_0001u128,
        ah * bl <= 0xffff_fffe_ffff_ffff_0000_0001u128,
        al * bh <= 0xffff_fffe_ffff_ffff_0000_0001u128,
        al * bl <= 0xffff_ffff_ffff_fffe_0000_0000_0000_0001u128,
        ah * bh * 0x1_0000_0000_0000_0000u128
            <= 0xffff_fffe_0000_0001_0000_0000_0000_0000u128,
{
    assert(ah * bh <= 0xffff_ffffu128 * 0xffff_ffffu128) by (nonlinear_arith)
        requires
            ah <= 0xffff_ffffu128,
            bh <= 0xffff_ffffu128,
    ;
    assert(ah * bl <= 0xffff_ffffu128 * 0xffff_ffff_ffff_ffffu128) by (nonlinear_arith)
        requires
            ah <= 0xffff_ffffu128,
            bl <= 0xffff_ffff_ffff_ffffu128,
    ;
    assert(al * bh <= 0xffff_ffff_ffff_ffffu128 * 0xffff_ffffu128) by (nonlinear_arith)
        requires
            al <= 0xffff_ffff_ffff_ffffu128,
            bh <= 0xffff_ffffu128,
    ;
    assert(al * bl <= 0xffff_ffff_ffff_ffffu128 * 0xffff_ffff_ffff_ffffu128)
        by (nonlinear_arith)
        requires
            al <= 0xffff_ffff_ffff_ffffu128,
            bl <= 0xffff_ffff_ffff_ffffu128,
    ;
    assert(ah * bh * 0x1_0000_0000_0000_0000u128
        <= 0xffff_fffe_0000_0001u128 * 0x1_0000_0000_0000_0000u128) by (nonlinear_arith)
        requires
            ah * bh <= 0xffff_fffe_0000_0001u128,
    ;
}

} // verus!
