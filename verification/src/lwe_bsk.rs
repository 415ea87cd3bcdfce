//! Bootstrapping keys, as capability handles, and the lookup tables that a
//! programmable bootstrap evaluates. The Fourier-domain bootstrap itself is
//! the lattice backend's work; the library builds and verifies the lookup
//! table, checks the dimensions, and tracks the noise estimate. The
//! function to evaluate arrives as its sampled values on the decoded grid
//! points, which [`LWEBSK::bootstrap_input_values`] provides.

use vstd::prelude::*;

use crate::encoder::Encoder;
use crate::error::CryptoError;
use crate::fix::Fix;
use crate::lwe_secret_key::LWESecretKey;
use crate::rlwe_secret_key::RLWESecretKey;
use crate::variance::Variance;

verus! {

/// A bootstrapping key handle: the RLWE geometry, the decomposition
/// parameters, the LWE input dimension, and the key encryptions' noise.
#[derive(Clone, Copy, Debug, PartialEq, Eq, Structural)]
pub struct LWEBSK {
    pub variance: Variance,
    pub dimension: usize,
    pub polynomial_size: usize,
    pub base_log: usize,
    pub level: usize,
    pub lwe_dimension: usize,
}

impl LWEBSK {
    /// Handle well-formedness.
    pub open spec fn wf(self) -> bool {
        &&& self.variance.wf()
        &&& self.polynomial_size >= 2
        &&& self.dimension >= 1
        &&& self.lwe_dimension >= 1
    }

    /// The handle for a bootstrap from LWE ciphertexts under `sk_input`
    /// into the RLWE geometry of `sk_output`.
    pub fn new(sk_input: &LWESecretKey, sk_output: &RLWESecretKey, base_log: usize, level:
        usize) -> (r: LWEBSK)
        requires
            sk_input.dimension >= 1,
            sk_output.dimension >= 1,
            sk_output.polynomial_size >= 2,
        ensures
            r.wf(),
            r.dimension == sk_output.dimension,
            r.polynomial_size == sk_output.polynomial_size,
            r.base_log == base_log,
            r.level == level,
            r.lwe_dimension == sk_input.dimension,
            r.variance == crate::variance::spec_variance_of_log2_std_dev(
                sk_output.log2_std_dev as int,
            ),
    {
        LWEBSK {
            variance: sk_output.get_variance(),
            dimension: sk_output.dimension,
            polynomial_size: sk_output.polynomial_size,
            base_log,
            level,
            lwe_dimension: sk_input.dimension,
        }
    }

    /// An all-zero placeholder handle with the given geometry.
    pub fn zero(sk_input: &LWESecretKey, sk_output: &RLWESecretKey, base_log: usize, level:
        usize) -> (r: LWEBSK)
        requires
            sk_input.dimension >= 1,
            sk_output.dimension >= 1,
            sk_output.polynomial_size >= 2,
        ensures
            r.wf(),
            r.dimension == sk_output.dimension,
            r.polynomial_size == sk_output.polynomial_size,
            r.base_log == base_log,
            r.level == level,
            r.lwe_dimension == sk_input.dimension,
            r.variance.units == 0,
    {
        LWEBSK {
            variance: Variance::zero(),
            dimension: sk_output.dimension,
            polynomial_size: sk_output.polynomial_size,
            base_log,
            level,
            lwe_dimension: sk_input.dimension,
        }
    }

    /// The LWE dimension the bootstrap accepts.
    pub fn get_lwe_dimension(&self) -> (r: usize)
        ensures
            r == self.lwe_dimension,
    {
        self.lwe_dimension
    }

    /// The floor base-two logarithm of the polynomial size.
    pub fn get_polynomial_size_log(&self) -> (r: usize)
        requires
            self.polynomial_size >= 1,
        ensures
            r == crate::lwe::log2_ratio_from(1, self.polynomial_size as int, 0),
            r <= 64,
    {
        crate::lwe::log2_ratio(1, self.polynomial_size as i128)
    }

    /// The real values the bootstrap lookup table is indexed by: each table
    /// entry `i` corresponds to the decode, with a single padding bit, of
    /// the torus value `i` placed just under the padding.
    pub fn bootstrap_input_values(&self, encoder_input: &Encoder) -> (r: Result<
        Vec<Fix>,
        CryptoError,
    >)
        requires
            self.wf(),
            encoder_input.wf(),
            encoder_input.nb_bit_precision <= 63,
            encoder_input.o.units + encoder_input.delta.units <= crate::fix::MAX_UNITS,
            crate::lwe::log2_ratio_from(1, self.polynomial_size as int, 0) <= 62,
        ensures
            r is Ok <==> encoder_input.valid(),
            !encoder_input.valid() ==> r == Err::<Vec<Fix>, CryptoError>(
                CryptoError::InvalidEncoderError,
            ),
            r matches Ok(v) ==> v@.len() == self.polynomial_size && (forall|i: int|
                0 <= i < self.polynomial_size ==> (#[trigger] v@[i]).bounded()) && forall|
                i: int,
            |
                0 <= i < self.polynomial_size ==> (#[trigger] v@[i]).units == (Encoder {
                    nb_bit_padding: 1,
                    ..*encoder_input
                }).decode_spec(
                    i * vstd::arithmetic::power2::pow2(
                        (63 - crate::lwe::log2_ratio_from(1, self.polynomial_size as int, 0))
                            as nat,
                    ) as int,
                ),
    {
        let enc = Encoder { nb_bit_padding: 1, ..*encoder_input };
        if !enc.is_valid() {
            return Err(CryptoError::InvalidEncoderError);
        }
        let log_poly = self.get_polynomial_size_log();
        let shift: u64 = (63 - log_poly) as u64;
        let mut out: Vec<Fix> = Vec::new();
        let mut i: usize = 0;
        proof {
            vstd::bits::lemma_u64_pow2_no_overflow((63 - log_poly) as nat);
        }
        while i < self.polynomial_size
            invariant
                i <= self.polynomial_size,
                self.wf(),
                enc == (Encoder { nb_bit_padding: 1, ..*encoder_input }),
                enc.wf(),
                enc.valid(),
                encoder_input.nb_bit_precision <= 63,
                log_poly == crate::lwe::log2_ratio_from(1, self.polynomial_size as int, 0),
                log_poly <= 62,
                shift == 63 - log_poly,
                encoder_input.o.units + encoder_input.delta.units <= crate::fix::MAX_UNITS,
                out@.len() == i,
                forall|j: int| 0 <= j < i ==> (#[trigger] out@[j]).bounded(),
                forall|j: int|
                    0 <= j < i ==> (#[trigger] out@[j]).units == enc.decode_spec(
                        j * vstd::arithmetic::power2::pow2((63 - log_poly) as nat) as int,
                    ),
            decreases self.polynomial_size - i,
        {
            proof {
                crate::arith::lemma_scale_is_pow2();
                vstd::bits::lemma_u64_pow2_no_overflow((63 - log_poly) as nat);
                crate::lwe::lemma_log2_ratio_upper(1, self.polynomial_size as int, 0);
                vstd::arithmetic::power2::lemma_pow2_adds(log_poly as nat, 1);
                vstd::arithmetic::power2::lemma2_to64();
                lemma_index_shift_fits(i as int, self.polynomial_size as int, log_poly as nat);
                vstd::bits::lemma_u64_shl_is_mul(i as u64, shift);
            }
            let encoded: u64 = (i as u64) << shift;
            match enc.decode_core(encoded) {
                Ok(v) => {
                    out.push(v);
                },
                Err(_) => {
                    // The encoder was checked valid, so decoding cannot
                    // fail; this branch is unreachable.
                    proof {
                        assert(false);
                    }
                },
            }
            i = i + 1;
        }
        Ok(out)
    }

    /// Builds the bootstrap lookup table for a function given by its values
    /// at the grid points of [`LWEBSK::bootstrap_input_values`]: each value
    /// is encoded under the output encoder. The last
    /// `polynomial_size / 2^(1 + precision)` entries are stored negated:
    /// the bootstrap's polynomial rotation reads that tail with a sign
    /// flip, so storing it negated is what makes the evaluated function
    /// come out unnegated on every grid value.
    pub fn generate_functional_look_up_table(&self, encoder_input: &Encoder, encoder_output:
        &Encoder, f_values: &Vec<Fix>) -> (r: Result<Vec<u64>, CryptoError>)
        requires
            self.wf(),
            encoder_input.wf(),
            encoder_output.wf(),
            f_values@.len() == self.polynomial_size,
            forall|i: int| 0 <= i < f_values@.len() ==> (#[trigger] f_values@[i]).bounded(),
            self.polynomial_size < usize::MAX / 2,
        ensures
            encoder_input.nb_bit_precision == 0 ==> r == Err::<Vec<u64>, CryptoError>(
                CryptoError::InvalidPrecisionError,
            ),
            encoder_input.nb_bit_precision != 0 && encoder_input.nb_bit_padding == 0 ==> r
                == Err::<Vec<u64>, CryptoError>(CryptoError::NotEnoughPaddingError),
            encoder_input.nb_bit_precision != 0 && encoder_input.nb_bit_padding != 0
                && !encoder_output.valid() ==> r == Err::<Vec<u64>, CryptoError>(
                CryptoError::InvalidEncoderError,
            ),
            r is Ok <==> encoder_input.nb_bit_precision != 0 && encoder_input.nb_bit_padding
                != 0 && encoder_output.valid(),
            r matches Ok(v) ==> v@.len() == self.polynomial_size && forall|i: int|
                0 <= i < self.polynomial_size ==> #[trigger] v@[i] as int == (if i
                    < self.polynomial_size - (self.polynomial_size as int / pow2_plain(
                    (1 + encoder_input.nb_bit_precision) as nat,
                )) {
                    encoder_output.encode_spec(f_values@[i].units as int)
                } else {
                    crate::bodies::wrap(-encoder_output.encode_spec(f_values@[i].units as int))
                }),
    {
        if encoder_input.nb_bit_precision == 0 {
            return Err(CryptoError::InvalidPrecisionError);
        }
        if encoder_input.nb_bit_padding == 0 {
            return Err(CryptoError::NotEnoughPaddingError);
        }
        if !encoder_output.is_valid() {
            return Err(CryptoError::InvalidEncoderError);
        }
        let shift_amt = 1 + encoder_input.nb_bit_precision;
        let chunk: usize = if shift_amt >= 64 {
            0
        } else {
            proof {
                vstd::bits::lemma_u64_shr_is_div(
                    self.polynomial_size as u64,
                    shift_amt as u64,
                );
                vstd::arithmetic::power2::lemma_pow2_pos(shift_amt as nat);
                vstd::arithmetic::div_mod::lemma_div_is_ordered_by_denominator(
                    self.polynomial_size as int,
                    1,
                    vstd::arithmetic::power2::pow2(shift_amt as nat) as int,
                );
            }
            (((self.polynomial_size as u64) >> (shift_amt as u64))) as usize
        };
        proof {
            if shift_amt >= 64 {
                crate::arith::lemma_scale_is_pow2();
                lemma_small_div_vanishes(self.polynomial_size as int, shift_amt as nat);
            }
        }
        let minus_start: usize = self.polynomial_size - chunk;
        let mut out: Vec<u64> = Vec::new();
        let mut i: usize = 0;
        while i < self.polynomial_size
            invariant
                i <= self.polynomial_size,
                self.wf(),
                encoder_output.wf(),
                encoder_output.valid(),
                encoder_input.nb_bit_precision != 0,
                f_values@.len() == self.polynomial_size,
                forall|k: int| 0 <= k < f_values@.len() ==> (#[trigger] f_values@[k]).bounded(),
                minus_start == self.polynomial_size - (self.polynomial_size as int
                    / pow2_plain((1 + encoder_input.nb_bit_precision) as nat)),
                out@.len() == i,
                forall|j: int|
                    0 <= j < i ==> #[trigger] out@[j] as int == (if j < minus_start {
                        encoder_output.encode_spec(f_values@[j].units as int)
                    } else {
                        crate::bodies::wrap(
                            -encoder_output.encode_spec(f_values@[j].units as int),
                        )
                    }),
            decreases self.polynomial_size - i,
        {
            let t = match encoder_output.encode_outside_interval_operators(f_values[i]) {
                Ok(t) => t,
                Err(_) => {
                    proof {
                        assert(false);
                    }
                    0u64
                },
            };
            if i < minus_start {
                out.push(t);
            } else {
                out.push(crate::bodies::wrap_neg64(t));
            }
            i = i + 1;
        }
        Ok(out)
    }
}

/// `pow2` on plain naturals, for use in contracts of this module.
pub open spec fn pow2_plain(e: nat) -> int {
    vstd::arithmetic::power2::pow2(e) as int
}

/// A table index shifted below the padding stays within the torus: with
/// `i < 2^(log + 1)` (which `i < polynomial_size <= 2^(log + 1)` gives),
/// `i * 2^(63 - log)` fits in 64 bits.
proof fn lemma_index_shift_fits(i: int, poly: int, log: nat)
    requires
        0 <= i < poly,
        log <= 62,
        poly as int <= 2 * pow2_plain(log),
    ensures
        i * pow2_plain((63 - log) as nat) < pow2_plain(64),
        i * pow2_plain((63 - log) as nat) >= 0,
{
    vstd::arithmetic::power2::lemma_pow2_adds(log, (63 - log) as nat);
    vstd::arithmetic::power2::lemma_pow2_adds((log + 1) as nat, (63 - log) as nat);
    vstd::arithmetic::power2::lemma_pow2_adds(log, 1);
    vstd::arithmetic::power2::lemma2_to64();
    vstd::arithmetic::power2::lemma_pow2_pos(log);
    vstd::arithmetic::power2::lemma_pow2_pos((63 - log) as nat);
    assert(i * pow2_plain((63 - log) as nat) < (2 * pow2_plain(log)) * pow2_plain(
        (63 - log) as nat,
    )) by (nonlinear_arith)
        requires
            i < 2 * pow2_plain(log),
            pow2_plain((63 - log) as nat) > 0,
    ;
    assert((2 * pow2_plain(log)) * pow2_plain((63 - log) as nat) == 2 * (pow2_plain(log)
        * pow2_plain((63 - log) as nat))) by (nonlinear_arith);
    vstd::arithmetic::power2::lemma_pow2_adds(63, 1);
    assert(i * pow2_plain((63 - log) as nat) >= 0) by (nonlinear_arith)
        requires
            i >= 0,
            pow2_plain((63 - log) as nat) > 0,
    ;
}

/// Dividing a `usize` by a power of two at or beyond the word size gives
/// zero.
proof fn lemma_small_div_vanishes(x: int, e: nat)
    requires
        0 <= x < pow2_plain(64),
        e >= 64,
    ensures
        x / pow2_plain(e) == 0,
{
    if e > 64 {
        vstd::arithmetic::power2::lemma_pow2_strictly_increases(64, e);
    }
    vstd::arithmetic::power2::lemma_pow2_pos(e);
    vstd::arithmetic::div_mod::lemma_basic_div(x, pow2_plain(e));
}

} // verus!
