//! The encoder: maps the real half-open interval `[o, o + delta)` onto
//! 64-bit torus values, subdivided into `2^nb_bit_precision` grid steps,
//! with `nb_bit_padding` most-significant bits kept at zero as headroom for
//! homomorphic operations.
//!
//! Noise-driven precision loss is reported by
//! [`Encoder::update_precision_from_variance`] and is purely advisory: no
//! operation of this library shrinks `nb_bit_precision` behind the caller's
//! back.

use vstd::arithmetic::div_mod::{
    lemma_fundamental_div_mod, lemma_small_mod,
};
use vstd::arithmetic::power2::{lemma2_to64, lemma_pow2_adds, lemma_pow2_pos, pow2};
use vstd::math::abs;
use vstd::prelude::*;

use crate::arith::{closest_representable, div_round_shift, euclid_rem, mul_u64_shift,
    round_div, SCALE};
use crate::error::CryptoError;
use crate::fix::{Fix, MAX_UNITS};
use crate::variance::{noise_bits, Variance};

verus! {

/// Magnitude cap, in units, on values that may be squared by
/// [`Encoder::new_square_divided_by_four`]: 2^80 units, a real magnitude of
/// 2^16.
pub const SQ_UNITS: i128 = 0x1_0000_0000_0000_0000_0000;

/// One particular encoding of a real interval onto the torus.
///
/// `o` is the offset (the interval minimum), `delta` its length,
/// `nb_bit_precision` the number of message bits, `nb_bit_padding` the
/// number of most-significant zero bits of headroom, and `round` selects
/// nearest-grid rounding at encode and decode instead of truncation.
#[derive(Clone, Copy, Debug, PartialEq, Eq, Structural)]
pub struct Encoder {
    pub o: Fix,
    pub delta: Fix,
    pub nb_bit_precision: usize,
    pub nb_bit_padding: usize,
    pub round: bool,
}

/// A torus value rounded to the nearest multiple of `2^(64 - nb)`, ties up,
/// wrapping past zero; every value is already a multiple for `nb` outside
/// `(0, 64)`.
pub open spec fn round_at_spec(t: int, nb: int) -> int {
    if 0 < nb < 64 {
        ((t + pow2((63 - nb) as nat) as int) / pow2((64 - nb) as nat) as int * pow2(
            (64 - nb) as nat,
        ) as int) % pow2(64) as int
    } else {
        t
    }
}

impl Encoder {
    /// Well-formedness: field magnitudes within the working range, a
    /// nonnegative interval length, and precision plus padding within the
    /// 64 torus bits. Every constructor establishes it and every operation
    /// preserves it.
    pub open spec fn wf(self) -> bool {
        &&& self.o.bounded()
        &&& 0 <= self.delta.units <= MAX_UNITS
        &&& self.nb_bit_precision + self.nb_bit_padding <= 64
    }

    /// A usable encoder: at least one bit of precision and a nonempty
    /// interval.
    pub open spec fn valid(self) -> bool {
        self.nb_bit_precision != 0 && self.delta.units > 0
    }

    /// The grid step, in units: `delta / 2^nb_bit_precision`, rounded down
    /// to the unit grid.
    pub open spec fn granularity_units(self) -> int {
        self.delta.units as int / pow2(self.nb_bit_precision as nat) as int
    }

    /// The torus value that encodes the real value of `m` units, with no
    /// interval check: the position of `m` in the interval, taken modulo
    /// the interval length, is quantized to the `2^nb_bit_precision` grid
    /// (to the nearest grid point in the rounding context, else to the grid
    /// point below), and the grid index is placed below the padding bits:
    /// `r((m - o) / granularity) << (64 - precision - padding)` with `r`
    /// nearest-or-floor.
    pub open spec fn encode_spec(self, m: int) -> int
        recommends
            self.wf(),
            self.valid(),
    {
        let d = self.delta.units as int;
        let p = pow2(self.nb_bit_precision as nat) as int;
        let r = (m - self.o.units) % d;
        let q = (if self.round {
            round_div(r * p, d)
        } else {
            (r * p) / d
        }) % p;
        q * pow2((64 - self.nb_bit_precision - self.nb_bit_padding) as nat) as int
    }

    /// The real value (in units) that the torus value `pt` decodes to:
    /// optional rounding at the message grid, the padding shifted away,
    /// values in the topmost half grid step wrapped to the interval start,
    /// then mapped back into the interval.
    pub open spec fn decode_spec(self, pt: int) -> int
        recommends
            self.wf(),
            self.valid(),
    {
        let p = self.nb_bit_precision as int;
        let pad = self.nb_bit_padding as int;
        let t = if self.round {
            round_at_spec(pt, p + pad)
        } else {
            pt
        };
        let shifted = (t * pow2(pad as nat) as int) % pow2(64) as int;
        let corrected = if shifted > pow2(64) - pow2((64 - p) as nat) {
            round_at_spec(shifted, p)
        } else {
            shifted
        };
        self.o.units + (corrected * self.delta.units) / pow2(64) as int
    }

    /// The all-zero placeholder encoder; it is not valid.
    pub fn zero() -> (r: Encoder)
        ensures
            r == (Encoder {
                o: Fix { units: 0 },
                delta: Fix { units: 0 },
                nb_bit_precision: 0,
                nb_bit_padding: 0,
                round: false,
            }),
            !r.valid(),
            r.wf(),
    {
        Encoder {
            o: Fix::zero(),
            delta: Fix::zero(),
            nb_bit_precision: 0,
            nb_bit_padding: 0,
            round: false,
        }
    }

    /// Whether the encoder can encode anything at all: nonzero precision
    /// and a nonempty interval.
    pub fn is_valid(&self) -> (r: bool)
        ensures
            r == self.valid(),
    {
        !(self.nb_bit_precision == 0 || self.delta.units <= 0)
    }

    /// An approximate-context encoder over `[min, max)`. Fails with
    /// `InvalidIntervalError` when `max <= min`, then with
    /// `InvalidPrecisionError` when `nb_bit_precision == 0`; otherwise the
    /// offset is `min` and the length `max - min`.
    pub fn new(min: Fix, max: Fix, nb_bit_precision: usize, nb_bit_padding: usize) -> (r:
        Result<Encoder, CryptoError>)
        requires
            min.bounded(),
            max.bounded(),
            max.units - min.units <= MAX_UNITS,
            nb_bit_precision + nb_bit_padding <= 64,
        ensures
            r is Ok <==> (min.units < max.units && nb_bit_precision != 0),
            max.units <= min.units ==> r == Err::<Encoder, CryptoError>(
                CryptoError::InvalidIntervalError,
            ),
            min.units < max.units && nb_bit_precision == 0 ==> r == Err::<Encoder, CryptoError>(
                CryptoError::InvalidPrecisionError,
            ),
            r matches Ok(e) ==> e == (Encoder {
                o: min,
                delta: Fix { units: (max.units - min.units) as i128 },
                nb_bit_precision,
                nb_bit_padding,
                round: false,
            }) && e.wf() && e.valid(),
    {
        if min.units >= max.units {
            return Err(CryptoError::InvalidIntervalError);
        }
        if nb_bit_precision == 0 {
            return Err(CryptoError::InvalidPrecisionError);
        }
        Ok(Encoder {
            o: min,
            delta: max.minus(min),
            nb_bit_precision,
            nb_bit_padding,
            round: false,
        })
    }

    /// Like [`Encoder::new`], but for an exact computation context: encode
    /// and decode round to the nearest grid point.
    pub fn new_rounding_context(min: Fix, max: Fix, nb_bit_precision: usize, nb_bit_padding:
        usize) -> (r: Result<Encoder, CryptoError>)
        requires
            min.bounded(),
            max.bounded(),
            max.units - min.units <= MAX_UNITS,
            nb_bit_precision + nb_bit_padding <= 64,
        ensures
            r is Ok <==> (min.units < max.units && nb_bit_precision != 0),
            max.units <= min.units ==> r == Err::<Encoder, CryptoError>(
                CryptoError::InvalidIntervalError,
            ),
            min.units < max.units && nb_bit_precision == 0 ==> r == Err::<Encoder, CryptoError>(
                CryptoError::InvalidPrecisionError,
            ),
            r matches Ok(e) ==> e == (Encoder {
                o: min,
                delta: Fix { units: (max.units - min.units) as i128 },
                nb_bit_precision,
                nb_bit_padding,
                round: true,
            }) && e.wf() && e.valid(),
    {
        if min.units >= max.units {
            return Err(CryptoError::InvalidIntervalError);
        }
        if nb_bit_precision == 0 {
            return Err(CryptoError::InvalidPrecisionError);
        }
        Ok(Encoder {
            o: min,
            delta: max.minus(min),
            nb_bit_precision,
            nb_bit_padding,
            round: true,
        })
    }

    /// An encoder over `[center - radius, center + radius)`; a nonpositive
    /// radius gives an empty interval and so `InvalidIntervalError`.
    pub fn new_centered(center: Fix, radius: Fix, nb_bit_precision: usize, nb_bit_padding:
        usize) -> (r: Result<Encoder, CryptoError>)
        requires
            -MAX_UNITS <= center.units - radius.units <= MAX_UNITS,
            -MAX_UNITS <= center.units + radius.units <= MAX_UNITS,
            2 * radius.units <= MAX_UNITS,
            nb_bit_precision + nb_bit_padding <= 64,
        ensures
            r is Ok <==> (radius.units > 0 && nb_bit_precision != 0),
            radius.units <= 0 ==> r == Err::<Encoder, CryptoError>(
                CryptoError::InvalidIntervalError,
            ),
            radius.units > 0 && nb_bit_precision == 0 ==> r == Err::<Encoder, CryptoError>(
                CryptoError::InvalidPrecisionError,
            ),
            r matches Ok(e) ==> e == (Encoder {
                o: Fix { units: (center.units - radius.units) as i128 },
                delta: Fix { units: (2 * radius.units) as i128 },
                nb_bit_precision,
                nb_bit_padding,
                round: false,
            }) && e.wf() && e.valid(),
    {
        Encoder::new(center.minus(radius), center.plus(radius), nb_bit_precision, nb_bit_padding)
    }

    /// The grid step `delta / 2^nb_bit_precision`, the smallest real
    /// difference this encoding distinguishes.
    pub fn get_granularity(&self) -> (r: Fix)
        requires
            self.wf(),
        ensures
            r.units == self.granularity_units(),
            0 <= r.units <= self.delta.units,
    {
        let du: u128 = self.delta.units as u128;
        let g: u128 = du >> (self.nb_bit_precision as u128);
        proof {
            vstd::bits::lemma_u128_shr_is_div(du, self.nb_bit_precision as u128);
            lemma_pow2_pos(self.nb_bit_precision as nat);
            vstd::arithmetic::div_mod::lemma_div_is_ordered_by_denominator(
                du as int,
                1,
                pow2(self.nb_bit_precision as nat) as int,
            );
        }
        Fix::from_units(g as i128)
    }

    /// The interval minimum.
    pub fn get_min(&self) -> (r: Fix)
        ensures
            r == self.o,
    {
        self.o
    }

    /// The largest grid point: `o + delta - granularity`.
    pub fn get_max(&self) -> (r: Fix)
        requires
            self.wf(),
        ensures
            r.units == self.o.units + self.delta.units - self.granularity_units(),
            self.o.units <= r.units <= self.o.units + self.delta.units,
    {
        let g = self.get_granularity();
        Fix::from_units(self.o.units + self.delta.units - g.units)
    }

    /// The spread of representable values: `delta - granularity`.
    pub fn get_size(&self) -> (r: Fix)
        requires
            self.wf(),
        ensures
            r.units == self.delta.units - self.granularity_units(),
    {
        let g = self.get_granularity();
        Fix::from_units(self.delta.units - g.units)
    }

    /// Copies interval and bit budget from `other`; the rounding mode of
    /// `self` is kept.
    pub fn copy(&mut self, other: &Encoder)
        ensures
            final(self).o == other.o,
            final(self).delta == other.delta,
            final(self).nb_bit_precision == other.nb_bit_precision,
            final(self).nb_bit_padding == other.nb_bit_padding,
            final(self).round == old(self).round,
    {
        self.o = other.o;
        self.delta = other.delta;
        self.nb_bit_precision = other.nb_bit_precision;
        self.nb_bit_padding = other.nb_bit_padding;
    }

    /// Encodes a message that may lie outside `[o, o + delta)`, wrapping it
    /// around the torus; used to re-encode corrected values after
    /// homomorphic operations. Fails only on an invalid encoder.
    pub fn encode_outside_interval_operators(&self, m: Fix) -> (r: Result<u64, CryptoError>)
        requires
            self.wf(),
            m.bounded(),
        ensures
            r is Ok <==> self.valid(),
            !self.valid() ==> r == Err::<u64, CryptoError>(CryptoError::InvalidEncoderError),
            r matches Ok(t) ==> t == self.encode_spec(m.units as int),
    {
        if !self.is_valid() {
            return Err(CryptoError::InvalidEncoderError);
        }
        let p = self.nb_bit_precision;
        let pad = self.nb_bit_padding;
        let du: u128 = self.delta.units as u128;
        let rem: u128 = euclid_rem(m.units - self.o.units, du);
        let q0: u128 = if self.round {
            div_round_shift(rem, du, p as u64)
        } else {
            crate::arith::div_floor_shift(rem, du, p as u64)
        };
        proof {
            crate::arith::lemma_scale_is_pow2();
            lemma_pow2_pos(p as nat);
        }
        let pow2p: u128 = if p == 64 {
            SCALE
        } else {
            proof {
                vstd::bits::lemma_u64_pow2_no_overflow(p as nat);
                vstd::bits::lemma_u64_shl_is_mul(1u64, p as u64);
            }
            (1u64 << (p as u64)) as u128
        };
        // The nearest grid index can reach 2^p, which wraps to the start.
        let q: u128 = if q0 >= pow2p {
            proof {
                vstd::arithmetic::div_mod::lemma_mod_self_0(pow2p as int);
            }
            0u128
        } else {
            proof {
                lemma_small_mod(q0 as nat, pow2p as nat);
            }
            q0
        };
        let s: u64 = (64 - p - pad) as u64;
        proof {
            lemma_pow2_pos(s as nat);
            lemma_pow2_pos(p as nat);
            lemma_pow2_adds(p as nat, s as nat);
            vstd::bits::lemma_u64_pow2_no_overflow(s as nat);
            vstd::arithmetic::power2::lemma_pow2_strictly_increases(
                (64 - p - pad) as nat,
                64,
            );
            if p < 64 {
                vstd::arithmetic::power2::lemma_pow2_strictly_increases(p as nat, 64);
            }
            assert((p + s) as nat == (64 - pad) as nat);
            assert(pow2((64 - pad) as nat) <= pow2(64)) by {
                if pad > 0 {
                    vstd::arithmetic::power2::lemma_pow2_strictly_increases(
                        (64 - pad) as nat,
                        64,
                    );
                }
            }
            assert(q as int * pow2(s as nat) as int <= (pow2(p as nat) - 1) * pow2(
                s as nat,
            ) as int) by (nonlinear_arith)
                requires
                    q as int <= pow2(p as nat) - 1,
                    pow2(s as nat) >= 1,
            ;
            assert((pow2(p as nat) - 1) * pow2(s as nat) as int == pow2(p as nat) * pow2(
                s as nat,
            ) - pow2(s as nat)) by (nonlinear_arith);
            vstd::bits::lemma_u64_shl_is_mul(q as u64, s);
        }
        Ok((q as u64) << s)
    }

    /// Strict encode: the message must lie in `[o, o + delta)`, else
    /// `MessageOutsideIntervalError`.
    pub fn encode_core(&self, m: Fix) -> (r: Result<u64, CryptoError>)
        requires
            self.wf(),
            m.bounded(),
        ensures
            r is Ok <==> (self.o.units <= m.units && m.units - self.o.units
                < self.delta.units && self.valid()),
            (m.units < self.o.units || m.units - self.o.units >= self.delta.units) ==> r
                == Err::<u64, CryptoError>(CryptoError::MessageOutsideIntervalError),
            self.o.units <= m.units && m.units - self.o.units < self.delta.units
                && !self.valid() ==> r == Err::<u64, CryptoError>(
                CryptoError::InvalidEncoderError,
            ),
            r matches Ok(t) ==> t == self.encode_spec(m.units as int),
    {
        if m.units < self.o.units || m.units - self.o.units >= self.delta.units {
            return Err(CryptoError::MessageOutsideIntervalError);
        }
        self.encode_outside_interval_operators(m)
    }

    /// Decodes a torus value back to a real value; any torus input decodes,
    /// interpreted modulo the grid. Fails only on an invalid encoder.
    pub fn decode_core(&self, pt: u64) -> (r: Result<Fix, CryptoError>)
        requires
            self.wf(),
        ensures
            r is Ok <==> self.valid(),
            !self.valid() ==> r == Err::<Fix, CryptoError>(CryptoError::InvalidEncoderError),
            r matches Ok(v) ==> v.units == self.decode_spec(pt as int) && self.o.units
                <= v.units < self.o.units + self.delta.units,
    {
        if !self.is_valid() {
            return Err(CryptoError::InvalidEncoderError);
        }
        let p = self.nb_bit_precision;
        let pad = self.nb_bit_padding;
        let t: u64 = if self.round {
            closest_representable(pt, (p + pad) as u64)
        } else {
            pt
        };
        proof {
            crate::arith::lemma_scale_is_pow2();
            vstd::bits::lemma_u64_pow2_no_overflow(pad as nat);
            vstd::bits::lemma_u64_shl_is_mul(1u64, pad as u64);
        }
        let mult: u64 = 1u64 << (pad as u64);
        proof {
            lemma2_to64();
            vstd::arithmetic::power2::lemma2_to64_rest();
            if pad < 63 {
                vstd::arithmetic::power2::lemma_pow2_strictly_increases(pad as nat, 63);
            }
            assert((t as u128 as int) * (mult as u128 as int) <= (0xffff_ffff_ffff_ffffu64
                as int) * (0x8000_0000_0000_0000u64 as int)) by (nonlinear_arith)
                requires
                    t <= 0xffff_ffff_ffff_ffffu64,
                    mult <= 0x8000_0000_0000_0000u64,
            ;
        }
        let sh128: u128 = (t as u128) * (mult as u128);
        let shifted: u64 = (sh128 % SCALE) as u64;
        proof {
            vstd::arithmetic::div_mod::lemma_mod_division_less_than_divisor(
                sh128 as int,
                SCALE as int,
            );
            vstd::bits::lemma_u64_pow2_no_overflow((64 - p) as nat);
            vstd::bits::lemma_u64_shl_is_mul(1u64, (64 - p) as u64);
        }
        let gran_t: u64 = 1u64 << ((64 - p) as u64);
        let margin: u64 = u64::MAX - gran_t + 1;
        proof {
            lemma2_to64();
            lemma_pow2_adds(63, 1);
            assert(margin as int == pow2(64) - pow2((64 - p) as nat));
        }
        let corrected: u64 = if shifted > margin {
            closest_representable(shifted, p as u64)
        } else {
            shifted
        };
        let scaled: u128 = mul_u64_shift(corrected, self.delta.units as u128);
        proof {
            assert((corrected as int * self.delta.units as int) < (pow2(64) as int)
                * (self.delta.units as int)) by (nonlinear_arith)
                requires
                    (corrected as int) < pow2(64) as int,
                    self.delta.units > 0,
            ;
            vstd::arithmetic::div_mod::lemma_multiply_divide_lt(
                corrected as int * self.delta.units as int,
                pow2(64) as int,
                self.delta.units as int,
            );
        }
        Ok(Fix::from_units(self.o.units + scaled as i128))
    }

    /// Strict-interval single-value encode and decode pair: decode is
    /// [`Encoder::decode_core`] under this encoder.
    pub fn decode_single(&self, ec: u64) -> (r: Result<Fix, CryptoError>)
        requires
            self.wf(),
        ensures
            r is Ok <==> self.valid(),
            !self.valid() ==> r == Err::<Fix, CryptoError>(CryptoError::InvalidEncoderError),
            r matches Ok(v) ==> v.units == self.decode_spec(ec as int) && self.o.units
                <= v.units < self.o.units + self.delta.units,
    {
        self.decode_core(ec)
    }

    /// Transforms the encoding for use after a homomorphic negation of the
    /// body: the new interval start is the negated old maximum.
    pub fn opposite_inplace(&mut self) -> (r: Result<(), CryptoError>)
        requires
            old(self).wf(),
            old(self).o.units + old(self).delta.units - old(self).granularity_units()
                <= MAX_UNITS,
        ensures
            r is Ok,
            final(self).o.units == -(old(self).o.units + old(self).delta.units - old(
                self,
            ).granularity_units()),
            final(self).delta == old(self).delta,
            final(self).nb_bit_precision == old(self).nb_bit_precision,
            final(self).nb_bit_padding == old(self).nb_bit_padding,
            final(self).round == old(self).round,
            final(self).wf(),
    {
        let old_max = self.get_max();
        self.o = Fix::from_units(-old_max.units);
        Ok(())
    }

    /// How many precision bits are drowned by noise of the given variance:
    /// the overlap between the noise width and the message-plus-padding
    /// budget. Purely advisory; the encoder is not changed.
    pub fn update_precision_from_variance(&self, variance: Variance) -> (r: usize)
        requires
            self.wf(),
            variance.wf(),
        ensures
            r == if noise_bits(variance.units as int) + self.nb_bit_precision
                + self.nb_bit_padding > 64 {
                noise_bits(variance.units as int) + self.nb_bit_precision
                    + self.nb_bit_padding - 64
            } else {
                0int
            },
    {
        let nb = variance.nb_noise_bits();
        if nb + self.nb_bit_precision + self.nb_bit_padding > 64 {
            nb + self.nb_bit_precision + self.nb_bit_padding - 64
        } else {
            0
        }
    }

    /// The minimum of the interval that holds `(x / 2)^2` for `x` in this
    /// encoder's interval, by case on the interval's sign.
    pub open spec fn square_quarter_min(self) -> int {
        let omax = self.o.units + self.delta.units - self.granularity_units();
        if self.o.units < 0 && self.o.units + self.delta.units < 0 {
            quarter_square(omax)
        } else if self.o.units > 0 {
            quarter_square(self.o.units as int)
        } else {
            0
        }
    }

    /// The maximum of the interval that holds `(x / 2)^2` for `x` in this
    /// encoder's interval, by case on the interval's sign.
    pub open spec fn square_quarter_max(self) -> int {
        let omax = self.o.units + self.delta.units - self.granularity_units();
        if self.o.units < 0 && self.o.units + self.delta.units < 0 {
            quarter_square(self.o.units as int)
        } else if self.o.units > 0 {
            quarter_square(omax)
        } else {
            quarter_square(if omax >= -self.o.units {
                omax
            } else {
                -self.o.units
            })
        }
    }

    /// Derives the encoder that holds `(x / 2)^2` of values of this one,
    /// used to chain multiplication through bootstrap lookup tables; the
    /// result takes the given padding budget.
    pub fn new_square_divided_by_four(&self, nb_bit_padding: usize) -> (r: Result<
        Encoder,
        CryptoError,
    >)
        requires
            self.wf(),
            -SQ_UNITS <= self.o.units,
            self.o.units + self.delta.units <= SQ_UNITS,
            self.nb_bit_precision + nb_bit_padding <= 64,
        ensures
            r is Ok <==> (self.valid() && self.nb_bit_padding >= 1
                && self.square_quarter_min() < self.square_quarter_max()),
            !self.valid() ==> r == Err::<Encoder, CryptoError>(CryptoError::InvalidEncoderError),
            self.valid() && self.nb_bit_padding < 1 ==> r == Err::<Encoder, CryptoError>(
                CryptoError::NotEnoughPaddingError,
            ),
            self.valid() && self.nb_bit_padding >= 1 && self.square_quarter_max()
                <= self.square_quarter_min() ==> r == Err::<Encoder, CryptoError>(
                CryptoError::InvalidIntervalError,
            ),
            r matches Ok(e) ==> e == (Encoder {
                o: Fix { units: self.square_quarter_min() as i128 },
                delta: Fix { units: (self.square_quarter_max() - self.square_quarter_min()) as i128 },
                nb_bit_precision: self.nb_bit_precision,
                nb_bit_padding,
                round: false,
            }),
    {
        if !self.is_valid() {
            return Err(CryptoError::InvalidEncoderError);
        }
        if self.nb_bit_padding < 1 {
            return Err(CryptoError::NotEnoughPaddingError);
        }
        let old_max = self.get_max();
        let new_min: Fix;
        let new_max: Fix;
        if self.o.units < 0 && self.o.units + self.delta.units < 0 {
            // Only negative values: squares swap the endpoints.
            new_min = quarter_square_exec(old_max);
            new_max = quarter_square_exec(self.o);
        } else if self.o.units > 0 {
            // Only positive values: squares keep the order.
            new_min = quarter_square_exec(self.o);
            new_max = quarter_square_exec(old_max);
        } else {
            // Zero inside: the minimum is zero, the maximum comes from the
            // larger endpoint magnitude.
            new_min = Fix::zero();
            let neg_o = Fix::from_units(-self.o.units);
            let larger = if old_max.units >= neg_o.units {
                old_max
            } else {
                neg_o
            };
            new_max = quarter_square_exec(larger);
        }
        Encoder::new(new_min, new_max, self.nb_bit_precision, nb_bit_padding)
    }
}

/// `(x / 2)^2` on the unit grid: the square scaled down by 2^64, then
/// divided by four, both rounded down.
pub open spec fn quarter_square(x: int) -> int {
    (x * x / pow2(64) as int) / 4
}

fn quarter_square_exec(x: Fix) -> (r: Fix)
    requires
        -SQ_UNITS <= x.units <= SQ_UNITS,
    ensures
        r.units == quarter_square(x.units as int),
        0 <= r.units <= MAX_UNITS,
{
    proof {
        crate::arith::lemma_scale_is_pow2();
        assert(x.units * x.units <= SQ_UNITS * SQ_UNITS && x.units * x.units >= 0)
            by (nonlinear_arith)
            requires
                -SQ_UNITS <= x.units <= SQ_UNITS,
        ;
        lemma_pow2_pos(64);
        vstd::arithmetic::div_mod::lemma_div_is_ordered(
            0,
            x.units as int * x.units as int,
            pow2(64) as int,
        );
        vstd::arithmetic::div_mod::lemma_div_is_ordered(
            x.units as int * x.units as int,
            SQ_UNITS as int * SQ_UNITS as int,
            pow2(64) as int,
        );
        lemma_fundamental_div_mod(SQ_UNITS as int * SQ_UNITS as int, pow2(64) as int);
    }
    let sq = x.times(x);
    let h = sq.half();
    proof {
        vstd::arithmetic::div_mod::lemma_div_denominator(sq.units as int, 2, 2);
    }
    h.half()
}

/// Bounds on the rounded scaled quotient: twice the signed defect of
/// `round_div(a, b) * b` against `a` lies in `(-b, b]`.
proof fn lemma_round_div_defect(a: int, b: int)
    requires
        b > 0,
    ensures
        2 * (round_div(a, b) * b - a) <= b,
        2 * (round_div(a, b) * b - a) > -b,
{
    let q = round_div(a, b);
    vstd::arithmetic::div_mod::lemma_fundamental_div_mod(2 * a + b, 2 * b);
    assert(2 * (q * b - a) == b - ((2 * a + b) % (2 * b))) by (nonlinear_arith)
        requires
            2 * a + b == (2 * b) * q + (2 * a + b) % (2 * b),
    ;
    vstd::arithmetic::div_mod::lemma_mod_bound(2 * a + b, 2 * b);
}

/// `(-a) / n >= -(a / n) - 1` for a positive divisor.
proof fn lemma_neg_div_ge(a: int, n: int)
    requires
        n > 0,
    ensures
        (-a) / n >= -(a / n) - 1,
{
    vstd::arithmetic::div_mod::lemma_fundamental_div_mod(a, n);
    vstd::arithmetic::div_mod::lemma_mod_bound(a, n);
    if a % n == 0 {
        assert(-a == (-(a / n)) * n + 0) by (nonlinear_arith)
            requires
                a == n * (a / n) + 0,
        ;
        vstd::arithmetic::div_mod::lemma_fundamental_div_mod_converse(-a, n, -(a / n), 0);
    } else {
        assert(-a == (-(a / n) - 1) * n + (n - a % n)) by (nonlinear_arith)
            requires
                a == n * (a / n) + a % n,
        ;
        vstd::arithmetic::div_mod::lemma_fundamental_div_mod_converse(
            -a,
            n,
            -(a / n) - 1,
            n - a % n,
        );
    }
}

/// Moving a grid index from the torus to message units: with
/// `G = 2^(64-p)`, `(q * G * d) / 2^64 == (q * d) / 2^p`.
proof fn lemma_grid_to_units(q: int, d: int, p: nat)
    requires
        q >= 0,
        d >= 0,
        p <= 64,
    ensures
        (q * pow2((64 - p) as nat) as int * d) / pow2(64) as int == (q * d) / pow2(p) as int,
{
    let g = pow2((64 - p) as nat) as int;
    let pp = pow2(p) as int;
    lemma_pow2_pos((64 - p) as nat);
    lemma_pow2_pos(p);
    lemma_pow2_adds((64 - p) as nat, p);
    assert(q * g * d == (q * d) * g) by (nonlinear_arith);
    assert(q * d >= 0) by (nonlinear_arith)
        requires
            q >= 0,
            d >= 0,
    ;
    vstd::arithmetic::div_mod::lemma_div_denominator(q * d * g, g, pp);
    vstd::arithmetic::div_mod::lemma_div_by_multiple(q * d, g);
    assert(q * d * g == g * (q * d)) by (nonlinear_arith);
}

/// Rounding at `nb` bits is the identity on a value that is already a
/// multiple of `2^(64 - nb)` and below 2^64.
proof fn lemma_round_at_of_multiple(t: int, nb: int)
    requires
        0 <= t < pow2(64),
        0 < nb < 64 ==> t % pow2((64 - nb) as nat) as int == 0,
    ensures
        round_at_spec(t, nb) == t,
{
    if 0 < nb < 64 {
        let gg = pow2((64 - nb) as nat) as int;
        let hh = pow2((63 - nb) as nat) as int;
        lemma_pow2_pos((64 - nb) as nat);
        lemma_pow2_pos((63 - nb) as nat);
        lemma_pow2_adds((63 - nb) as nat, 1);
        lemma2_to64();
        assert(2 * hh == gg);
        vstd::arithmetic::div_mod::lemma_fundamental_div_mod(t, gg);
        let k = t / gg;
        assert(t == gg * k);
        assert(k * gg == gg * k) by (nonlinear_arith);
        vstd::arithmetic::div_mod::lemma_fundamental_div_mod_converse(t + hh, gg, k, hh);
        vstd::arithmetic::div_mod::lemma_small_mod(t as nat, pow2(64));
    }
}

/// Round trip: a message in `[o, o + delta)` (in the rounding context, one
/// that is not in the topmost half grid step, where nearest-grid rounding
/// wraps to the interval start) encodes and decodes back to within one
/// granularity. In the truncating context the decode lands at or below the
/// message, within `granularity + 1` fixed-point units; in the rounding
/// context within half a granularity plus one unit.
pub proof fn lemma_round_trip(e: Encoder, m: int)
    requires
        e.wf(),
        e.valid(),
        e.o.units <= m,
        m - e.o.units < e.delta.units,
        e.round ==> ((m - e.o.units) * pow2((e.nb_bit_precision + 1) as nat) as int)
            < e.delta.units * (pow2((e.nb_bit_precision + 1) as nat) - 1),
    ensures
        abs(e.decode_spec(e.encode_spec(m)) - m) <= e.granularity_units() + 1,
        !e.round ==> 0 <= m - e.decode_spec(e.encode_spec(m)),
        e.round ==> abs(e.decode_spec(e.encode_spec(m)) - m) <= e.granularity_units() / 2
            + 1,
{
    let p = e.nb_bit_precision as nat;
    let pad = e.nb_bit_padding as nat;
    let d = e.delta.units as int;
    let o = e.o.units as int;
    let r = m - o;
    let bigp = pow2(64) as int;
    let pp = pow2(p) as int;
    let g = pow2((64 - p) as nat) as int;
    let s2 = pow2((64 - p - pad) as nat) as int;
    let gran = e.granularity_units();
    lemma_pow2_pos(p);
    lemma_pow2_pos(pad);
    lemma_pow2_pos(64);
    lemma_pow2_pos((64 - p) as nat);
    lemma_pow2_pos((64 - p - pad) as nat);
    lemma_pow2_adds((64 - p) as nat, p);
    lemma_pow2_adds((64 - p - pad) as nat, pad);
    lemma_pow2_adds(p, 1);
    lemma2_to64();
    crate::arith::lemma_scale_is_pow2();
    vstd::arithmetic::div_mod::lemma_small_mod(r as nat, d as nat);

    // The grid index: floor or nearest, and it stays below 2^p.
    let q0 = if e.round {
        round_div(r * pp, d)
    } else {
        (r * pp) / d
    };
    assert(r * pp >= 0) by (nonlinear_arith)
        requires
            r >= 0,
            pp > 0,
    ;
    if e.round {
        // Exclusion of the top half step bounds the rounded index.
        assert(2 * (r * pp) + d < 2 * d * pp) by (nonlinear_arith)
            requires
                (r * pow2((p + 1) as nat) as int) < d * (pow2((p + 1) as nat) - 1),
                pow2((p + 1) as nat) == pp * 2,
                d > 0,
        ;
        vstd::arithmetic::div_mod::lemma_multiply_divide_lt(2 * (r * pp) + d, 2 * d, pp);
        vstd::arithmetic::div_mod::lemma_div_pos_is_pos(2 * (r * pp) + d, 2 * d);
    } else {
        assert(r * pp < d * pp) by (nonlinear_arith)
            requires
                r < d,
                pp > 0,
                r >= 0,
        ;
        vstd::arithmetic::div_mod::lemma_multiply_divide_lt(r * pp, d, pp);
        vstd::arithmetic::div_mod::lemma_div_pos_is_pos(r * pp, d);
    }
    assert(0 <= q0 < pp);
    vstd::arithmetic::div_mod::lemma_small_mod(q0 as nat, pp as nat);
    let t = q0 * s2;
    assert(e.encode_spec(m) == t);
    assert(t <= (pp - 1) * s2 && t >= 0) by (nonlinear_arith)
        requires
            t == q0 * s2,
            0 <= q0 <= pp - 1,
            s2 > 0,
    ;
    assert(pp * s2 == pow2((64 - pad) as nat)) by {
        lemma_pow2_adds(p, (64 - p - pad) as nat);
    }
    assert(pow2((64 - pad) as nat) <= pow2(64)) by {
        if pad > 0 {
            vstd::arithmetic::power2::lemma_pow2_strictly_increases((64 - pad) as nat, 64);
        }
    }
    assert((pp - 1) * s2 == pp * s2 - s2) by (nonlinear_arith);

    // Decode: the optional rounding is the identity on the grid value, the
    // padding shift restores q0 * 2^(64-p), and the margin does not fire.
    if e.round {
        vstd::arithmetic::div_mod::lemma_mod_multiples_basic(q0, s2);
        assert(q0 * s2 == s2 * q0) by (nonlinear_arith);
        lemma_round_at_of_multiple(t, e.nb_bit_precision as int + e.nb_bit_padding as int);
    }
    let shifted = q0 * g;
    assert(t * pow2(pad) as int == shifted) by (nonlinear_arith)
        requires
            t == q0 * s2,
            s2 * pow2(pad) as int == g,
            shifted == q0 * g,
    ;
    assert(s2 * pow2(pad) as int == g) by {
        lemma_pow2_adds((64 - p - pad) as nat, pad);
    }
    assert(shifted <= (pp - 1) * g && shifted >= 0) by (nonlinear_arith)
        requires
            shifted == q0 * g,
            0 <= q0 <= pp - 1,
            g > 0,
    ;
    assert((pp - 1) * g == pp * g - g) by (nonlinear_arith);
    assert(pp * g == bigp) by (nonlinear_arith)
        requires
            g * pp == bigp,
    ;
    vstd::arithmetic::div_mod::lemma_small_mod(shifted as nat, bigp as nat);
    assert(e.decode_spec(t) == o + (shifted * d) / bigp);
    assert(shifted * d == q0 * g * d) by (nonlinear_arith)
        requires
            shifted == q0 * g,
    ;
    lemma_grid_to_units(q0, d, p);
    assert(e.decode_spec(t) == o + (q0 * d) / pp);

    // The defect of the quantization, pulled out of the quotient.
    vstd::arithmetic::div_mod::lemma_fundamental_div_mod(r * pp, d);
    let rm = (r * pp) % d;
    if e.round {
        lemma_round_div_defect(r * pp, d);
        let c = q0 * d - r * pp;
        assert(q0 * d == r * pp + c);
        vstd::arithmetic::div_mod::lemma_hoist_over_denominator(c, r, pp as nat);
        assert((q0 * d) / pp == r + c / pp) by (nonlinear_arith)
            requires
                q0 * d == c + r * pp,
                c / pp + r == (c + r * pp) / pp,
        ;
        // |c| <= d/2, so its quotient by 2^p is within half a granularity.
        assert(c <= d / 2 && -c <= d / 2) by (nonlinear_arith)
            requires
                2 * c <= d,
                2 * c > -d,
                d / 2 * 2 <= d < d / 2 * 2 + 2,
        ;
        vstd::arithmetic::div_mod::lemma_fundamental_div_mod(d, 2);
        vstd::arithmetic::div_mod::lemma_div_is_ordered(c, d / 2, pp);
        vstd::arithmetic::div_mod::lemma_div_is_ordered(-c, d / 2, pp);
        lemma_neg_div_ge(-c, pp);
        // (d/2) / 2^p == (d / 2^p) / 2.
        vstd::arithmetic::div_mod::lemma_div_denominator(d, 2, pp);
        vstd::arithmetic::div_mod::lemma_div_denominator(d, pp, 2);
        assert(2 * pp == pp * 2) by (nonlinear_arith);
        assert(abs(e.decode_spec(t) - m) <= gran / 2 + 1);
        assert(gran >= 0) by {
            vstd::arithmetic::div_mod::lemma_div_pos_is_pos(d, pp);
        }
    } else {
        assert(q0 * d == r * pp - rm) by (nonlinear_arith)
            requires
                r * pp == d * q0 + rm,
        ;
        vstd::arithmetic::div_mod::lemma_hoist_over_denominator(-rm, r, pp as nat);
        assert((q0 * d) / pp == r + (-rm) / pp) by (nonlinear_arith)
            requires
                q0 * d == -rm + r * pp,
                (-rm) / pp + r == (-rm + r * pp) / pp,
        ;
        vstd::arithmetic::div_mod::lemma_mod_bound(r * pp, d);
        // 0 >= (-rm)/2^p >= -(granularity + 1).
        vstd::arithmetic::div_mod::lemma_fundamental_div_mod_converse(0, pp, 0, 0);
        vstd::arithmetic::div_mod::lemma_div_is_ordered(-rm, 0, pp);
        lemma_neg_div_ge(rm, pp);
        vstd::arithmetic::div_mod::lemma_div_is_ordered(rm, d, pp);
        assert(0 <= m - e.decode_spec(t) <= gran + 1);
        assert(gran >= 0) by {
            vstd::arithmetic::div_mod::lemma_div_pos_is_pos(d, pp);
        }
    }
}

/// Invalidity: the zero encoder is invalid, and an encoder is valid exactly
/// when it has at least one bit of precision and a positive interval
/// length.
pub proof fn lemma_invalidity(e: Encoder)
    ensures
        e.nb_bit_precision == 0 || e.delta.units <= 0 ==> !e.valid(),
        e.valid() <==> (e.nb_bit_precision != 0 && e.delta.units > 0),
{
}

} // verus!
