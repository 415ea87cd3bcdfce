//! A vector of LWE ciphertexts sharing one mask dimension: the bodies are
//! stored as one flat buffer of `nb_ciphertexts` slots of `dimension + 1`
//! words, with one encoder and one noise estimate per slot.

use vstd::arithmetic::power2::pow2;
use vstd::prelude::*;

use crate::bodies::{dot_spec, wrap};
use crate::encoder::Encoder;
use crate::error::CryptoError;
use crate::fix::Fix;
use crate::lwe::LWE;
use crate::lwe_secret_key::LWESecretKey;
use crate::variance::Variance;

verus! {

/// A list of LWE ciphertexts over one dimension, with per-slot encoders
/// and noise estimates.
#[derive(Clone, Debug, PartialEq)]
pub struct VectorLWE {
    pub ciphertexts: Vec<u64>,
    pub variances: Vec<Variance>,
    pub dimension: usize,
    pub nb_ciphertexts: usize,
    pub encoders: Vec<Encoder>,
}

impl VectorLWE {
    /// Flat-buffer well-formedness: one slot of `dimension + 1` words per
    /// ciphertext, one well-formed encoder and one saturating estimate per
    /// slot.
    pub open spec fn wf(self) -> bool {
        &&& self.dimension >= 1
        &&& self.nb_ciphertexts >= 1
        &&& self.ciphertexts@.len() == self.nb_ciphertexts * (self.dimension + 1)
        &&& self.variances@.len() == self.nb_ciphertexts
        &&& self.encoders@.len() == self.nb_ciphertexts
        &&& forall|i: int|
            0 <= i < self.nb_ciphertexts ==> (#[trigger] self.encoders@[i]).wf()
        &&& forall|i: int|
            0 <= i < self.nb_ciphertexts ==> (#[trigger] self.variances@[i]).wf()
    }

    /// The word at position `j` of slot `i`.
    pub open spec fn word(self, i: int, j: int) -> int {
        self.ciphertexts@[i * (self.dimension + 1) + j] as int
    }

    /// The words of slot `i`, as a sequence of `dimension + 1` entries.
    pub open spec fn slot(self, i: int) -> Seq<u64> {
        self.ciphertexts@.subrange(
            i * (self.dimension + 1),
            (i + 1) * (self.dimension + 1),
        )
    }

    /// The phase of slot `i` under a key.
    pub open spec fn slot_phase(self, i: int, key: Seq<u64>) -> int {
        wrap(
            self.word(i, self.dimension as int) - dot_spec(
                self.slot(i),
                key,
                self.dimension as int,
            ),
        )
    }

    /// A container of `nb_ciphertexts` zero-filled slots with zeroed
    /// (invalid) encoders; both sizes must be positive.
    pub fn zero(dimension: usize, nb_ciphertexts: usize) -> (r: Result<VectorLWE, CryptoError>)
        requires
            dimension < usize::MAX - 1,
            nb_ciphertexts * (dimension + 1) < usize::MAX,
        ensures
            nb_ciphertexts == 0 ==> r == Err::<VectorLWE, CryptoError>(
                CryptoError::ZeroCiphertextsInStructureError,
            ),
            nb_ciphertexts >= 1 && dimension == 0 ==> r == Err::<VectorLWE, CryptoError>(
                CryptoError::ZeroCiphertextsInStructureError,
            ),
            r is Ok <==> nb_ciphertexts >= 1 && dimension >= 1,
            r matches Ok(v) ==> v.wf() && v.dimension == dimension && v.nb_ciphertexts
                == nb_ciphertexts && (forall|i: int|
                0 <= i < v.ciphertexts@.len() ==> #[trigger] v.ciphertexts@[i] == 0u64) && (
            forall|i: int|
                0 <= i < nb_ciphertexts ==> (#[trigger] v.variances@[i]).units == 0) && forall|
                i: int,
            |
                0 <= i < nb_ciphertexts ==> (#[trigger] v.encoders@[i]) == (Encoder {
                    o: Fix { units: 0 },
                    delta: Fix { units: 0 },
                    nb_bit_precision: 0,
                    nb_bit_padding: 0,
                    round: false,
                }),
    {
        if nb_ciphertexts == 0 || dimension == 0 {
            return Err(CryptoError::ZeroCiphertextsInStructureError);
        }
        let total = nb_ciphertexts * (dimension + 1);
        let mut ciphertexts: Vec<u64> = Vec::new();
        let mut i: usize = 0;
        while i < total
            invariant
                i <= total,
                ciphertexts@.len() == i,
                forall|j: int| 0 <= j < i ==> #[trigger] ciphertexts@[j] == 0u64,
            decreases total - i,
        {
            ciphertexts.push(0u64);
            i = i + 1;
        }
        let mut variances: Vec<Variance> = Vec::new();
        let mut encoders: Vec<Encoder> = Vec::new();
        let mut k: usize = 0;
        while k < nb_ciphertexts
            invariant
                k <= nb_ciphertexts,
                variances@.len() == k,
                encoders@.len() == k,
                forall|j: int| 0 <= j < k ==> (#[trigger] variances@[j]).units == 0,
                forall|j: int|
                    0 <= j < k ==> (#[trigger] encoders@[j]) == (Encoder {
                        o: Fix { units: 0 },
                        delta: Fix { units: 0 },
                        nb_bit_precision: 0,
                        nb_bit_padding: 0,
                        round: false,
                    }),
            decreases nb_ciphertexts - k,
        {
            variances.push(Variance::zero());
            encoders.push(Encoder::zero());
            k = k + 1;
        }
        Ok(VectorLWE { ciphertexts, variances, dimension, nb_ciphertexts, encoders })
    }

    /// The number of words one slot occupies.
    pub fn get_ciphertext_size(&self) -> (r: usize)
        requires
            self.dimension < usize::MAX,
        ensures
            r == self.dimension + 1,
    {
        self.dimension + 1
    }

    /// Extracts slot `n` into a fresh single-slot container;
    /// `IndexError` when the slot does not exist.
    pub fn extract_nth(&self, n: usize) -> (r: Result<VectorLWE, CryptoError>)
        requires
            self.wf(),
        ensures
            n >= self.nb_ciphertexts ==> r == Err::<VectorLWE, CryptoError>(
                CryptoError::IndexError,
            ),
            r is Ok <==> n < self.nb_ciphertexts,
            r matches Ok(v) ==> v.wf() && v.dimension == self.dimension && v.nb_ciphertexts
                == 1 && v.ciphertexts@ == self.slot(n as int) && v.variances@[0]
                == self.variances@[n as int] && v.encoders@[0] == self.encoders@[n as int],
    {
        if n >= self.nb_ciphertexts {
            return Err(CryptoError::IndexError);
        }
        let len = self.ciphertexts.len();
        proof {
            lemma_slot_range(self.nb_ciphertexts as int, self.dimension as int, n as int);
            assert(len == self.nb_ciphertexts * (self.dimension + 1));
        }
        let base = n * (self.dimension + 1);
        let mut ciphertexts: Vec<u64> = Vec::new();
        let mut j: usize = 0;
        while j < self.dimension + 1
            invariant
                j <= self.dimension + 1,
                self.wf(),
                n < self.nb_ciphertexts,
                base == n * (self.dimension + 1),
                base + self.dimension + 1 <= self.ciphertexts@.len(),
                base + self.dimension + 1 <= usize::MAX,
                ciphertexts@.len() == j,
                forall|t: int|
                    0 <= t < j ==> #[trigger] ciphertexts@[t] == self.ciphertexts@[base + t],
            decreases self.dimension + 1 - j,
        {
            ciphertexts.push(self.ciphertexts[base + j]);
            j = j + 1;
        }
        let mut variances: Vec<Variance> = Vec::new();
        variances.push(self.variances[n]);
        let mut encoders: Vec<Encoder> = Vec::new();
        encoders.push(self.encoders[n]);
        proof {
            assert((n + 1) * (self.dimension + 1) == n * (self.dimension + 1)
                + self.dimension + 1) by (nonlinear_arith);
            assert(ciphertexts@ =~= self.slot(n as int));
        }
        Ok(VectorLWE {
            ciphertexts,
            variances,
            dimension: self.dimension,
            nb_ciphertexts: 1,
            encoders,
        })
    }

    /// Copies slot `n_ct` of `ct` over slot `n_self` of this container;
    /// `IndexError` when either index is out of range, `DimensionError`
    /// when the two containers disagree on the mask dimension.
    pub fn copy_in_nth_nth_inplace(&mut self, n_self: usize, ct: &VectorLWE, n_ct: usize) -> (r:
        Result<(), CryptoError>)
        requires
            old(self).wf(),
            ct.wf(),
        ensures
            (n_self >= old(self).nb_ciphertexts || n_ct >= ct.nb_ciphertexts) ==> r == Err::<
                (),
                CryptoError,
            >(CryptoError::IndexError) && *final(self) == *old(self),
            n_self < old(self).nb_ciphertexts && n_ct < ct.nb_ciphertexts && old(
                self,
            ).dimension != ct.dimension ==> r == Err::<(), CryptoError>(
                CryptoError::DimensionError,
            ) && *final(self) == *old(self),
            r is Ok <==> n_self < old(self).nb_ciphertexts && n_ct < ct.nb_ciphertexts && old(
                self,
            ).dimension == ct.dimension,
            r is Ok ==> final(self).wf() && final(self).dimension == old(self).dimension
                && final(self).nb_ciphertexts == old(self).nb_ciphertexts
                && final(self).variances@ == old(self).variances@.update(
                n_self as int,
                ct.variances@[n_ct as int],
            ) && final(self).encoders@ == old(self).encoders@.update(
                n_self as int,
                ct.encoders@[n_ct as int],
            ) && (forall|t: int|
                0 <= t < old(self).dimension + 1 ==> #[trigger] final(self).ciphertexts@[n_self
                    as int * (old(self).dimension + 1) + t] == ct.ciphertexts@[n_ct as int * (
                ct.dimension + 1) + t]) && forall|t: int|
                0 <= t < old(self).ciphertexts@.len() && !(n_self as int * (old(self).dimension
                    + 1) <= t < n_self as int * (old(self).dimension + 1) + old(self).dimension
                    + 1) ==> #[trigger] final(self).ciphertexts@[t] == old(
                    self,
                ).ciphertexts@[t],
    {
        if n_self >= self.nb_ciphertexts || n_ct >= ct.nb_ciphertexts {
            return Err(CryptoError::IndexError);
        }
        if self.dimension != ct.dimension {
            return Err(CryptoError::DimensionError);
        }
        let len = self.ciphertexts.len();
        let len_ct = ct.ciphertexts.len();
        proof {
            lemma_slot_range(self.nb_ciphertexts as int, self.dimension as int, n_self as int);
            lemma_slot_range(ct.nb_ciphertexts as int, ct.dimension as int, n_ct as int);
            assert(len == self.nb_ciphertexts * (self.dimension + 1));
            assert(len_ct == ct.nb_ciphertexts * (ct.dimension + 1));
        }
        let dst = n_self * (self.dimension + 1);
        let src = n_ct * (self.dimension + 1);
        let mut j: usize = 0;
        while j < self.dimension + 1
            invariant
                j <= self.dimension + 1,
                dst + self.dimension + 1 <= usize::MAX,
                src + ct.dimension + 1 <= usize::MAX,
                old(self).wf(),
                ct.wf(),
                n_self < old(self).nb_ciphertexts,
                n_ct < ct.nb_ciphertexts,
                self.dimension == old(self).dimension,
                ct.dimension == old(self).dimension,
                self.nb_ciphertexts == old(self).nb_ciphertexts,
                self.variances == old(self).variances,
                self.encoders == old(self).encoders,
                dst == n_self * (self.dimension + 1),
                src == n_ct * (self.dimension + 1),
                dst + self.dimension + 1 <= self.ciphertexts@.len(),
                src + ct.dimension + 1 <= ct.ciphertexts@.len(),
                self.ciphertexts@.len() == old(self).ciphertexts@.len(),
                forall|t: int|
                    0 <= t < j ==> #[trigger] self.ciphertexts@[dst + t] == ct.ciphertexts@[src
                        + t],
                forall|t: int|
                    0 <= t < self.ciphertexts@.len() && !(dst <= t < dst + j)
                        ==> #[trigger] self.ciphertexts@[t] == old(self).ciphertexts@[t],
            decreases self.dimension + 1 - j,
        {
            let w = ct.ciphertexts[src + j];
            let at = dst + j;
            self.ciphertexts.set(at, w);
            j = j + 1;
        }
        let v = ct.variances[n_ct];
        self.variances.set(n_self, v);
        let e = ct.encoders[n_ct];
        self.encoders.set(n_self, e);
        proof {
            assert((n_self + 1) * (self.dimension + 1) == n_self * (self.dimension + 1)
                + self.dimension + 1) by (nonlinear_arith);
            assert((n_ct + 1) * (ct.dimension + 1) == n_ct * (ct.dimension + 1)
                + ct.dimension + 1) by (nonlinear_arith);
            assert forall|t: int|
                0 <= t < self.dimension + 1 implies #[trigger] self.ciphertexts@[n_self as int
                * (self.dimension + 1) + t] == ct.ciphertexts@[n_ct as int * (ct.dimension
                + 1) + t] by {
                assert(self.ciphertexts@[dst as int + t] == ct.ciphertexts@[src as int + t]);
            }
            assert forall|t: int|
                0 <= t < old(self).ciphertexts@.len() && !(n_self as int * (old(self).dimension
                    + 1) <= t < n_self as int * (old(self).dimension + 1) + old(self).dimension
                    + 1) implies #[trigger] self.ciphertexts@[t] == old(self).ciphertexts@[t] by {
                assert(!(dst <= t < dst + (self.dimension + 1)));
            }
            assert(self.variances@ =~= old(self).variances@.update(
                n_self as int,
                ct.variances@[n_ct as int],
            ));
            assert(self.encoders@ =~= old(self).encoders@.update(
                n_self as int,
                ct.encoders@[n_ct as int],
            ));
        }
        Ok(())
    }

    /// Decodes every slot's phase under `sk`; `DimensionError` when the key
    /// does not fit, `InvalidEncoderError` when a slot encoder is invalid.
    pub fn decrypt_decode(&self, sk: &LWESecretKey) -> (r: Result<Vec<Fix>, CryptoError>)
        requires
            self.wf(),
            sk.wf(),
        ensures
            self.dimension != sk.dimension ==> r == Err::<Vec<Fix>, CryptoError>(
                CryptoError::DimensionError,
            ),
            r is Ok <==> self.dimension == sk.dimension && forall|i: int|
                0 <= i < self.nb_ciphertexts ==> (#[trigger] self.encoders@[i]).valid(),
            r matches Ok(v) ==> v@.len() == self.nb_ciphertexts && forall|i: int|
                0 <= i < self.nb_ciphertexts ==> (#[trigger] v@[i]).units
                    == self.encoders@[i].decode_spec(self.slot_phase(i, sk.val@)),
    {
        if self.dimension != sk.dimension {
            return Err(CryptoError::DimensionError);
        }
        let mut out: Vec<Fix> = Vec::new();
        let mut i: usize = 0;
        while i < self.nb_ciphertexts
            invariant
                i <= self.nb_ciphertexts,
                self.wf(),
                sk.wf(),
                self.dimension == sk.dimension,
                out@.len() == i,
                forall|j: int| 0 <= j < i ==> (#[trigger] self.encoders@[j]).valid(),
                forall|j: int|
                    0 <= j < i ==> (#[trigger] out@[j]).units == self.encoders@[j].decode_spec(
                        self.slot_phase(j, sk.val@),
                    ),
            decreases self.nb_ciphertexts - i,
        {
            let single = match self.extract_nth(i) {
                Ok(s) => s,
                Err(_) => {
                    proof {
                        assert(false);
                    }
                    return Err(CryptoError::IndexError);
                },
            };
            proof {
                assert((i + 1) * (self.dimension + 1) == i * (self.dimension + 1)
                    + self.dimension + 1) by (nonlinear_arith);
                assert(single.ciphertexts@.len() == self.dimension + 1);
            }
            let one = LWE {
                ciphertext: single.ciphertexts,
                variance: self.variances[i],
                dimension: self.dimension,
                encoder: self.encoders[i],
            };
            match one.decrypt_decode(sk) {
                Ok(v) => {
                    proof {
                        lemma_slot_range(
                            self.nb_ciphertexts as int,
                            self.dimension as int,
                            i as int,
                        );
                        assert((i as int + 1) * (self.dimension + 1) == i as int
                            * (self.dimension + 1) + self.dimension + 1) by (nonlinear_arith);
                        assert(self.slot(i as int).len() == self.dimension + 1);
                        assert(self.slot(i as int)[self.dimension as int]
                            == self.ciphertexts@[i as int * (self.dimension + 1)
                            + self.dimension]);
                        assert(one.phase(sk.val@) == self.slot_phase(i as int, sk.val@));
                    }
                    out.push(v);
                },
                Err(er) => {
                    return Err(er);
                },
            }
            i = i + 1;
        }
        Ok(out)
    }

    /// The raw phase of every slot under `sk`, without decoding;
    /// `DimensionError` when the key does not fit.
    pub fn decrypt_raw(&self, sk: &LWESecretKey) -> (r: Result<Vec<u64>, CryptoError>)
        requires
            self.wf(),
            sk.wf(),
        ensures
            self.dimension != sk.dimension ==> r == Err::<Vec<u64>, CryptoError>(
                CryptoError::DimensionError,
            ),
            r is Ok <==> self.dimension == sk.dimension,
            r matches Ok(v) ==> v@.len() == self.nb_ciphertexts && forall|i: int|
                0 <= i < self.nb_ciphertexts ==> #[trigger] v@[i] as int == self.slot_phase(
                    i,
                    sk.val@,
                ),
    {
        if self.dimension != sk.dimension {
            return Err(CryptoError::DimensionError);
        }
        let mut out: Vec<u64> = Vec::new();
        let mut i: usize = 0;
        while i < self.nb_ciphertexts
            invariant
                i <= self.nb_ciphertexts,
                self.wf(),
                sk.wf(),
                self.dimension == sk.dimension,
                out@.len() == i,
                forall|j: int|
                    0 <= j < i ==> #[trigger] out@[j] as int == self.slot_phase(j, sk.val@),
            decreases self.nb_ciphertexts - i,
        {
            let single = match self.extract_nth(i) {
                Ok(s) => s,
                Err(_) => {
                    proof {
                        assert(false);
                    }
                    return Err(CryptoError::IndexError);
                },
            };
            proof {
                assert((i + 1) * (self.dimension + 1) == i * (self.dimension + 1)
                    + self.dimension + 1) by (nonlinear_arith);
                assert(single.ciphertexts@.len() == self.dimension + 1);
            }
            let prod = crate::bodies::dot(&single.ciphertexts, &sk.val, self.dimension);
            let phase = crate::bodies::wrap_sub64(single.ciphertexts[self.dimension], prod);
            proof {
                lemma_slot_range(self.nb_ciphertexts as int, self.dimension as int, i as int);
                assert((i as int + 1) * (self.dimension + 1) == i as int * (self.dimension
                    + 1) + self.dimension + 1) by (nonlinear_arith);
                assert(self.slot(i as int).len() == self.dimension + 1);
                assert(self.slot(i as int)[self.dimension as int] == self.ciphertexts@[i
                    as int * (self.dimension + 1) + self.dimension]);
            }
            out.push(phase);
            i = i + 1;
        }
        Ok(out)
    }
}

/// A slot index within range addresses `dimension + 1` words inside the
/// flat buffer.
proof fn lemma_slot_range(nb: int, dim: int, n: int)
    requires
        0 <= n < nb,
        dim >= 0,
    ensures
        0 <= n * (dim + 1),
        n * (dim + 1) + dim + 1 <= nb * (dim + 1),
        dim + 1 <= nb * (dim + 1),
{
    assert(0 <= n * (dim + 1) && n * (dim + 1) + dim + 1 <= nb * (dim + 1) && dim + 1 <= nb
        * (dim + 1)) by (nonlinear_arith)
        requires
            0 <= n < nb,
            dim >= 0,
    ;
}

/// Which error, if any, a padding-consuming addition of two slot encoders
/// reports: paddings must match and be positive, and the interval lengths
/// must match.
pub open spec fn pad_pair_err(a: Encoder, b: Encoder) -> Option<CryptoError> {
    if a.nb_bit_padding != b.nb_bit_padding {
        Some(CryptoError::PaddingError)
    } else if a.nb_bit_padding == 0 {
        Some(CryptoError::NotEnoughPaddingError)
    } else if a.delta != b.delta {
        Some(CryptoError::DeltaError)
    } else {
        None
    }
}

/// The slot encoder after a padding-consuming addition: summed offsets, a
/// doubled interval, the smaller precision, one padding bit consumed.
pub open spec fn pad_sum_encoder(a: Encoder, b: Encoder) -> Encoder {
    Encoder {
        o: Fix { units: (a.o.units + b.o.units) as i128 },
        delta: Fix { units: (2 * a.delta.units) as i128 },
        nb_bit_precision: if a.nb_bit_precision <= b.nb_bit_precision {
            a.nb_bit_precision
        } else {
            b.nb_bit_precision
        },
        nb_bit_padding: (a.nb_bit_padding - 1) as usize,
        round: a.round,
    }
}

impl VectorLWE {
    /// Slotwise homomorphic addition consuming one bit of padding in every
    /// slot; the whole buffer is added word by word and each slot's encoder
    /// combined as in the single-ciphertext addition. The mask dimension is
    /// checked first, then the slots in order; a failure leaves nothing
    /// half-combined. The two containers must hold the same number of
    /// ciphertexts: pairing slots of different counts has no meaning, so a
    /// mismatch is a caller error, not a runtime case.
    pub fn add_with_padding(&self, ct: &VectorLWE) -> (r: Result<VectorLWE, CryptoError>)
        requires
            self.wf(),
            ct.wf(),
            self.nb_ciphertexts == ct.nb_ciphertexts,
            forall|i: int|
                0 <= i < self.nb_ciphertexts ==> -crate::fix::MAX_UNITS
                    <= (#[trigger] self.encoders@[i]).o.units + ct.encoders@[i].o.units
                    <= crate::fix::MAX_UNITS,
            forall|i: int|
                0 <= i < self.nb_ciphertexts ==> 2 * (#[trigger] self.encoders@[i]).delta.units
                    <= crate::fix::MAX_UNITS,
        ensures
            self.dimension != ct.dimension ==> r == Err::<VectorLWE, CryptoError>(
                CryptoError::DimensionError,
            ),
            r is Ok <==> self.dimension == ct.dimension && forall|i: int|
                0 <= i < self.nb_ciphertexts ==> pad_pair_err(
                    #[trigger] self.encoders@[i],
                    ct.encoders@[i],
                ) is None,
            r matches Err(er) ==> self.dimension != ct.dimension || exists|i: int|
                0 <= i < self.nb_ciphertexts && pad_pair_err(
                    #[trigger] self.encoders@[i],
                    ct.encoders@[i],
                ) == Some(er),
            r matches Ok(v) ==> v.wf() && v.dimension == self.dimension && v.nb_ciphertexts
                == self.nb_ciphertexts && (forall|t: int|
                0 <= t < self.ciphertexts@.len() ==> #[trigger] v.ciphertexts@[t] as int
                    == wrap(self.ciphertexts@[t] + ct.ciphertexts@[t])) && (forall|i: int|
                0 <= i < self.nb_ciphertexts ==> #[trigger] v.encoders@[i] == pad_sum_encoder(
                    self.encoders@[i],
                    ct.encoders@[i],
                )) && forall|i: int|
                0 <= i < self.nb_ciphertexts ==> #[trigger] v.variances@[i]
                    == crate::variance::spec_var_sum(self.variances@[i], ct.variances@[i]),
    {
        if self.dimension != ct.dimension {
            return Err(CryptoError::DimensionError);
        }
        let mut i: usize = 0;
        while i < self.nb_ciphertexts
            invariant
                i <= self.nb_ciphertexts,
                self.wf(),
                ct.wf(),
                self.nb_ciphertexts == ct.nb_ciphertexts,
                self.dimension == ct.dimension,
                forall|j: int|
                    0 <= j < i ==> pad_pair_err(
                        #[trigger] self.encoders@[j],
                        ct.encoders@[j],
                    ) is None,
            decreases self.nb_ciphertexts - i,
        {
            let a = &self.encoders[i];
            let b = &ct.encoders[i];
            if a.nb_bit_padding != b.nb_bit_padding {
                proof {
                    assert(pad_pair_err(self.encoders@[i as int], ct.encoders@[i as int])
                        == Some(CryptoError::PaddingError));
                }
                return Err(CryptoError::PaddingError);
            }
            if a.nb_bit_padding == 0 {
                proof {
                    assert(pad_pair_err(self.encoders@[i as int], ct.encoders@[i as int])
                        == Some(CryptoError::NotEnoughPaddingError));
                }
                return Err(CryptoError::NotEnoughPaddingError);
            }
            if a.delta != b.delta {
                proof {
                    assert(pad_pair_err(self.encoders@[i as int], ct.encoders@[i as int])
                        == Some(CryptoError::DeltaError));
                }
                return Err(CryptoError::DeltaError);
            }
            i = i + 1;
        }
        let ciphertexts = crate::bodies::wrap_add_vec(&self.ciphertexts, &ct.ciphertexts);
        let mut encoders: Vec<Encoder> = Vec::new();
        let mut variances: Vec<Variance> = Vec::new();
        let mut k: usize = 0;
        while k < self.nb_ciphertexts
            invariant
                k <= self.nb_ciphertexts,
                self.wf(),
                ct.wf(),
                self.nb_ciphertexts == ct.nb_ciphertexts,
                forall|j: int|
                    0 <= j < self.nb_ciphertexts ==> pad_pair_err(
                        #[trigger] self.encoders@[j],
                        ct.encoders@[j],
                    ) is None,
                forall|j: int|
                    0 <= j < self.nb_ciphertexts ==> -crate::fix::MAX_UNITS
                        <= (#[trigger] self.encoders@[j]).o.units + ct.encoders@[j].o.units
                        <= crate::fix::MAX_UNITS,
                forall|j: int|
                    0 <= j < self.nb_ciphertexts ==> 2
                        * (#[trigger] self.encoders@[j]).delta.units <= crate::fix::MAX_UNITS,
                encoders@.len() == k,
                variances@.len() == k,
                forall|j: int|
                    0 <= j < k ==> #[trigger] encoders@[j] == pad_sum_encoder(
                        self.encoders@[j],
                        ct.encoders@[j],
                    ),
                forall|j: int|
                    0 <= j < k ==> (#[trigger] encoders@[j]).wf(),
                forall|j: int|
                    0 <= j < k ==> #[trigger] variances@[j] == crate::variance::spec_var_sum(
                        self.variances@[j],
                        ct.variances@[j],
                    ),
                forall|j: int|
                    0 <= j < k ==> (#[trigger] variances@[j]).wf(),
            decreases self.nb_ciphertexts - k,
        {
            let a = &self.encoders[k];
            let b = &ct.encoders[k];
            let precision = if a.nb_bit_precision <= b.nb_bit_precision {
                a.nb_bit_precision
            } else {
                b.nb_bit_precision
            };
            encoders.push(Encoder {
                o: Fix::from_units(a.o.units + b.o.units),
                delta: Fix::from_units(2 * a.delta.units),
                nb_bit_precision: precision,
                nb_bit_padding: a.nb_bit_padding - 1,
                round: a.round,
            });
            variances.push(self.variances[k].accumulate(ct.variances[k]));
            k = k + 1;
        }
        Ok(VectorLWE {
            ciphertexts,
            variances,
            dimension: self.dimension,
            nb_ciphertexts: self.nb_ciphertexts,
            encoders,
        })
    }
}

/// The slot encoder after an exact padding-consuming addition: summed
/// offsets, a doubled interval, the larger precision grown by one, one
/// padding bit consumed.
pub open spec fn pad_sum_encoder_exact(a: Encoder, b: Encoder) -> Encoder {
    Encoder {
        o: Fix { units: (a.o.units + b.o.units) as i128 },
        delta: Fix { units: (2 * a.delta.units) as i128 },
        nb_bit_precision: (if a.nb_bit_precision >= b.nb_bit_precision {
            a.nb_bit_precision + 1
        } else {
            b.nb_bit_precision + 1
        }) as usize,
        nb_bit_padding: (a.nb_bit_padding - 1) as usize,
        round: a.round,
    }
}

/// Packs a list of equal-dimension single ciphertexts into one container:
/// slot `i` carries the words, encoder and noise estimate of the `i`-th
/// ciphertext.
fn assemble(parts: Vec<LWE>, dimension: usize) -> (r: VectorLWE)
    requires
        parts@.len() >= 1,
        dimension >= 1,
        parts@.len() * (dimension + 1) <= usize::MAX,
        forall|i: int|
            0 <= i < parts@.len() ==> (#[trigger] parts@[i]).wf() && parts@[i].dimension
                == dimension,
    ensures
        r.wf(),
        r.dimension == dimension,
        r.nb_ciphertexts == parts@.len(),
        forall|i: int|
            0 <= i < parts@.len() ==> (#[trigger] r.encoders@[i]) == parts@[i].encoder,
        forall|i: int|
            0 <= i < parts@.len() ==> (#[trigger] r.variances@[i]) == parts@[i].variance,
        forall|i: int|
            0 <= i < parts@.len() ==> (#[trigger] r.slot(i)) == parts@[i].ciphertext@,
        forall|i: int, j: int|
            0 <= i < parts@.len() && 0 <= j < dimension + 1
                ==> #[trigger] r.ciphertexts@[i * (dimension + 1) + j]
                == parts@[i].ciphertext@[j],
{
    let nb = parts.len();
    let mut ciphertexts: Vec<u64> = Vec::new();
    let mut variances: Vec<Variance> = Vec::new();
    let mut encoders: Vec<Encoder> = Vec::new();
    let mut i: usize = 0;
    while i < nb
        invariant
            i <= nb,
            nb == parts@.len(),
            dimension >= 1,
            nb * (dimension + 1) <= usize::MAX,
            forall|k: int|
                0 <= k < nb ==> (#[trigger] parts@[k]).wf() && parts@[k].dimension
                    == dimension,
            ciphertexts@.len() == i * (dimension + 1),
            i * (dimension + 1) <= nb * (dimension + 1),
            variances@.len() == i,
            encoders@.len() == i,
            forall|k: int| 0 <= k < i ==> (#[trigger] encoders@[k]) == parts@[k].encoder,
            forall|k: int| 0 <= k < i ==> (#[trigger] variances@[k]) == parts@[k].variance,
            forall|k: int, j: int|
                0 <= k < i && 0 <= j < dimension + 1
                    ==> #[trigger] ciphertexts@[k * (dimension + 1) + j]
                    == parts@[k].ciphertext@[j],
        decreases nb - i,
    {
        proof {
            lemma_slot_range(nb as int, dimension as int, i as int);
            assert((i + 1) * (dimension + 1) == i * (dimension + 1) + dimension + 1)
                by (nonlinear_arith);
        }
        let part = &parts[i];
        let mut j: usize = 0;
        while j < dimension + 1
            invariant
                j <= dimension + 1,
                i < nb,
                nb == parts@.len(),
                dimension >= 1,
                nb * (dimension + 1) <= usize::MAX,
                i * (dimension + 1) + dimension + 1 <= nb * (dimension + 1),
                forall|k: int|
                    0 <= k < nb ==> (#[trigger] parts@[k]).wf() && parts@[k].dimension
                        == dimension,
                part == parts@[i as int],
                ciphertexts@.len() == i * (dimension + 1) + j,
                forall|t: int|
                    0 <= t < j ==> #[trigger] ciphertexts@[i * (dimension + 1) + t]
                        == parts@[i as int].ciphertext@[t],
                forall|k: int, t: int|
                    0 <= k < i && 0 <= t < dimension + 1
                        ==> #[trigger] ciphertexts@[k * (dimension + 1) + t]
                        == parts@[k].ciphertext@[t],
            decreases dimension + 1 - j,
        {
            proof {
                assert(0 <= i as int * (dimension + 1) + j) by (nonlinear_arith)
                    requires
                        i >= 0,
                        dimension >= 0,
                        j >= 0,
                ;
                assert forall|k: int, t: int|
                    0 <= k < i && 0 <= t < dimension + 1 implies #[trigger] (k * (dimension
                    + 1) + t) < i * (dimension + 1) by {
                    assert(k * (dimension + 1) + t < i * (dimension + 1)) by (nonlinear_arith)
                        requires
                            0 <= k < i,
                            0 <= t < dimension + 1,
                    ;
                }
            }
            ciphertexts.push(part.ciphertext[j]);
            j = j + 1;
        }
        variances.push(part.variance);
        encoders.push(part.encoder);
        i = i + 1;
    }
    let out = VectorLWE {
        ciphertexts,
        variances,
        dimension,
        nb_ciphertexts: nb,
        encoders,
    };
    proof {
        assert forall|k: int| 0 <= k < nb implies #[trigger] out.slot(k)
            == parts@[k].ciphertext@ by {
            lemma_slot_range(nb as int, dimension as int, k);
            assert((k + 1) * (dimension + 1) == k * (dimension + 1) + dimension + 1)
                by (nonlinear_arith);
            assert(out.slot(k).len() == dimension + 1);
            assert forall|t: int| 0 <= t < dimension + 1 implies out.slot(k)[t]
                == parts@[k].ciphertext@[t] by {
                assert(out.ciphertexts@[k * (dimension + 1) + t]
                    == parts@[k].ciphertext@[t]);
            }
            assert(out.slot(k) =~= parts@[k].ciphertext@);
        }
    }
    out
}

impl VectorLWE {
    /// Like [`VectorLWE::add_with_padding`], but every slot's precision
    /// grows to the larger input precision plus one, trading the consumed
    /// padding bit for precision.
    pub fn add_with_padding_exact(&self, ct: &VectorLWE) -> (r: Result<VectorLWE, CryptoError>)
        requires
            self.wf(),
            ct.wf(),
            self.nb_ciphertexts == ct.nb_ciphertexts,
            forall|i: int|
                0 <= i < self.nb_ciphertexts ==> -crate::fix::MAX_UNITS
                    <= (#[trigger] self.encoders@[i]).o.units + ct.encoders@[i].o.units
                    <= crate::fix::MAX_UNITS,
            forall|i: int|
                0 <= i < self.nb_ciphertexts ==> 2 * (#[trigger] self.encoders@[i]).delta.units
                    <= crate::fix::MAX_UNITS,
        ensures
            self.dimension != ct.dimension ==> r == Err::<VectorLWE, CryptoError>(
                CryptoError::DimensionError,
            ),
            r is Ok <==> self.dimension == ct.dimension && forall|i: int|
                0 <= i < self.nb_ciphertexts ==> pad_pair_err(
                    #[trigger] self.encoders@[i],
                    ct.encoders@[i],
                ) is None,
            r matches Err(er) ==> self.dimension != ct.dimension || exists|i: int|
                0 <= i < self.nb_ciphertexts && pad_pair_err(
                    #[trigger] self.encoders@[i],
                    ct.encoders@[i],
                ) == Some(er),
            r matches Ok(v) ==> v.wf() && v.dimension == self.dimension && v.nb_ciphertexts
                == self.nb_ciphertexts && (forall|t: int|
                0 <= t < self.ciphertexts@.len() ==> #[trigger] v.ciphertexts@[t] as int
                    == wrap(self.ciphertexts@[t] + ct.ciphertexts@[t])) && (forall|i: int|
                0 <= i < self.nb_ciphertexts ==> #[trigger] v.encoders@[i]
                    == pad_sum_encoder_exact(self.encoders@[i], ct.encoders@[i])) && forall|
                i: int,
            |
                0 <= i < self.nb_ciphertexts ==> #[trigger] v.variances@[i]
                    == crate::variance::spec_var_sum(self.variances@[i], ct.variances@[i]),
    {
        if self.dimension != ct.dimension {
            return Err(CryptoError::DimensionError);
        }
        let mut i: usize = 0;
        while i < self.nb_ciphertexts
            invariant
                i <= self.nb_ciphertexts,
                self.wf(),
                ct.wf(),
                self.nb_ciphertexts == ct.nb_ciphertexts,
                self.dimension == ct.dimension,
                forall|j: int|
                    0 <= j < i ==> pad_pair_err(
                        #[trigger] self.encoders@[j],
                        ct.encoders@[j],
                    ) is None,
            decreases self.nb_ciphertexts - i,
        {
            let a = &self.encoders[i];
            let b = &ct.encoders[i];
            if a.nb_bit_padding != b.nb_bit_padding {
                proof {
                    assert(pad_pair_err(self.encoders@[i as int], ct.encoders@[i as int])
                        == Some(CryptoError::PaddingError));
                }
                return Err(CryptoError::PaddingError);
            }
            if a.nb_bit_padding == 0 {
                proof {
                    assert(pad_pair_err(self.encoders@[i as int], ct.encoders@[i as int])
                        == Some(CryptoError::NotEnoughPaddingError));
                }
                return Err(CryptoError::NotEnoughPaddingError);
            }
            if a.delta != b.delta {
                proof {
                    assert(pad_pair_err(self.encoders@[i as int], ct.encoders@[i as int])
                        == Some(CryptoError::DeltaError));
                }
                return Err(CryptoError::DeltaError);
            }
            i = i + 1;
        }
        let ciphertexts = crate::bodies::wrap_add_vec(&self.ciphertexts, &ct.ciphertexts);
        let mut encoders: Vec<Encoder> = Vec::new();
        let mut variances: Vec<Variance> = Vec::new();
        let mut k: usize = 0;
        while k < self.nb_ciphertexts
            invariant
                k <= self.nb_ciphertexts,
                self.wf(),
                ct.wf(),
                self.nb_ciphertexts == ct.nb_ciphertexts,
                forall|j: int|
                    0 <= j < self.nb_ciphertexts ==> pad_pair_err(
                        #[trigger] self.encoders@[j],
                        ct.encoders@[j],
                    ) is None,
                forall|j: int|
                    0 <= j < self.nb_ciphertexts ==> -crate::fix::MAX_UNITS
                        <= (#[trigger] self.encoders@[j]).o.units + ct.encoders@[j].o.units
                        <= crate::fix::MAX_UNITS,
                forall|j: int|
                    0 <= j < self.nb_ciphertexts ==> 2
                        * (#[trigger] self.encoders@[j]).delta.units <= crate::fix::MAX_UNITS,
                encoders@.len() == k,
                variances@.len() == k,
                forall|j: int|
                    0 <= j < k ==> #[trigger] encoders@[j] == pad_sum_encoder_exact(
                        self.encoders@[j],
                        ct.encoders@[j],
                    ),
                forall|j: int| 0 <= j < k ==> (#[trigger] encoders@[j]).wf(),
                forall|j: int|
                    0 <= j < k ==> #[trigger] variances@[j] == crate::variance::spec_var_sum(
                        self.variances@[j],
                        ct.variances@[j],
                    ),
                forall|j: int| 0 <= j < k ==> (#[trigger] variances@[j]).wf(),
            decreases self.nb_ciphertexts - k,
        {
            let a = &self.encoders[k];
            let b = &ct.encoders[k];
            let precision = if a.nb_bit_precision >= b.nb_bit_precision {
                a.nb_bit_precision + 1
            } else {
                b.nb_bit_precision + 1
            };
            encoders.push(Encoder {
                o: Fix::from_units(a.o.units + b.o.units),
                delta: Fix::from_units(2 * a.delta.units),
                nb_bit_precision: precision,
                nb_bit_padding: a.nb_bit_padding - 1,
                round: a.round,
            });
            variances.push(self.variances[k].accumulate(ct.variances[k]));
            k = k + 1;
        }
        Ok(VectorLWE {
            ciphertexts,
            variances,
            dimension: self.dimension,
            nb_ciphertexts: self.nb_ciphertexts,
            encoders,
        })
    }
}

impl VectorLWE {
    /// Encodes each message under its own encoder and encrypts it under
    /// `sk` into one container, in one step; fails, on the first message in
    /// list order that cannot be encoded, with that message's error. The
    /// uniform masks and gaussian noise samples come from the caller's
    /// randomness source, one per slot.
    pub fn encode_encrypt_several_encoders(sk: &LWESecretKey, messages: &Vec<Fix>, encoders:
        &Vec<Encoder>, masks: Vec<Vec<u64>>, noises: Vec<u64>) -> (r: Result<
        VectorLWE,
        CryptoError,
    >)
        requires
            sk.wf(),
            1 <= sk.dimension < usize::MAX,
            messages@.len() >= 1,
            encoders@.len() == messages@.len(),
            masks@.len() == messages@.len(),
            noises@.len() == messages@.len(),
            messages@.len() * (sk.dimension + 1) < usize::MAX,
            forall|i: int| 0 <= i < encoders@.len() ==> (#[trigger] encoders@[i]).wf(),
            forall|i: int| 0 <= i < messages@.len() ==> (#[trigger] messages@[i]).bounded(),
            forall|i: int|
                0 <= i < masks@.len() ==> (#[trigger] masks@[i])@.len() == sk.dimension,
        ensures
            r is Ok <==> forall|i: int|
                0 <= i < messages@.len() ==> crate::plaintext::encode_err(
                    #[trigger] encoders@[i],
                    messages@[i].units as int,
                ) is None,
            r matches Err(er) ==> exists|i: int|
                0 <= i < messages@.len() && crate::plaintext::encode_err(
                    #[trigger] encoders@[i],
                    messages@[i].units as int,
                ) == Some(er),
            r matches Ok(v) ==> v.wf() && v.dimension == sk.dimension && v.nb_ciphertexts
                == messages@.len() && (forall|i: int|
                0 <= i < messages@.len() ==> (#[trigger] v.encoders@[i]) == encoders@[i]) && (
            forall|i: int|
                0 <= i < messages@.len() ==> (#[trigger] v.variances@[i])
                    == crate::variance::spec_variance_of_log2_std_dev(sk.log2_std_dev as int))
                && forall|i: int|
                0 <= i < messages@.len() ==> #[trigger] v.slot_phase(i, sk.val@) == wrap(
                    encoders@[i].encode_spec(messages@[i].units as int) + noises@[i],
                ),
    {
        let nb = messages.len();
        let mut parts: Vec<LWE> = Vec::new();
        let mut i: usize = 0;
        while i < nb
            invariant
                i <= nb,
                sk.wf(),
                1 <= sk.dimension < usize::MAX,
                nb == messages@.len(),
                encoders@.len() == nb,
                masks@.len() == nb,
                noises@.len() == nb,
                forall|k: int| 0 <= k < nb ==> (#[trigger] encoders@[k]).wf(),
                forall|k: int| 0 <= k < nb ==> (#[trigger] messages@[k]).bounded(),
                forall|k: int|
                    0 <= k < nb ==> (#[trigger] masks@[k])@.len() == sk.dimension,
                parts@.len() == i,
                forall|k: int|
                    0 <= k < i ==> crate::plaintext::encode_err(
                        #[trigger] encoders@[k],
                        messages@[k].units as int,
                    ) is None,
                forall|k: int|
                    0 <= k < i ==> (#[trigger] parts@[k]).wf() && parts@[k].dimension
                        == sk.dimension && parts@[k].encoder == encoders@[k]
                        && parts@[k].variance
                        == crate::variance::spec_variance_of_log2_std_dev(
                        sk.log2_std_dev as int,
                    ) && parts@[k].phase(sk.val@) == wrap(
                        encoders@[k].encode_spec(messages@[k].units as int) + noises@[k],
                    ),
            decreases nb - i,
        {
            let mask = masks[i].clone();
            let c = match LWE::encode_encrypt(sk, messages[i], &encoders[i], mask, noises[i]) {
                Ok(c) => c,
                Err(er) => {
                    return Err(er);
                },
            };
            parts.push(c);
            i = i + 1;
        }
        let out = assemble(parts, sk.dimension);
        proof {
            assert forall|k: int| 0 <= k < nb implies #[trigger] out.slot_phase(k, sk.val@)
                == wrap(encoders@[k].encode_spec(messages@[k].units as int)
                + noises@[k]) by {
                lemma_slot_range(nb as int, sk.dimension as int, k);
                assert(out.ciphertexts@[k * (sk.dimension + 1) + sk.dimension]
                    == parts@[k].ciphertext@[sk.dimension as int]);
            }
        }
        Ok(out)
    }

    /// Multiplies every slot by its own real constant, consuming
    /// `nb_bit_padding` bits of padding in each, exactly as the
    /// single-ciphertext multiplication does per slot. Succeeds exactly
    /// when every slot's multiplication would; on failure the error is the
    /// first failing slot's, in slot order.
    pub fn mul_constant_with_padding(&self, constants: &Vec<Fix>, max_constant: Fix,
        nb_bit_padding: usize) -> (r: Result<VectorLWE, CryptoError>)
        requires
            self.wf(),
            constants@.len() == self.nb_ciphertexts,
            forall|i: int| 0 <= i < constants@.len() ==> (#[trigger] constants@[i]).units > i128::MIN,
            1 <= max_constant.units < crate::encoder::SQ_UNITS,
            forall|i: int|
                0 <= i < self.nb_ciphertexts ==> -crate::encoder::SQ_UNITS <= (
                #[trigger] self.encoders@[i]).o.units && self.encoders@[i].o.units
                    + self.encoders@[i].delta.units <= crate::encoder::SQ_UNITS
                    && self.encoders@[i].delta.units <= crate::encoder::SQ_UNITS,
            1 <= nb_bit_padding,
        ensures
            r is Ok <==> forall|i: int|
                0 <= i < self.nb_ciphertexts ==> crate::lwe::mul_ok(
                    #[trigger] self.encoders@[i],
                    constants@[i],
                    max_constant,
                    nb_bit_padding,
                ),
            r is Err ==> exists|i: int|
                0 <= i < self.nb_ciphertexts && !crate::lwe::mul_ok(
                    #[trigger] self.encoders@[i],
                    constants@[i],
                    max_constant,
                    nb_bit_padding,
                ),
            r matches Ok(v) ==> v.wf() && v.dimension == self.dimension && v.nb_ciphertexts
                == self.nb_ciphertexts && (forall|i: int|
                0 <= i < self.nb_ciphertexts ==> (#[trigger] v.variances@[i])
                    == crate::variance::spec_var_scaled_sq(
                    self.variances@[i],
                    LWE::mul_scal(constants@[i], max_constant, nb_bit_padding),
                )) && forall|i: int|
                0 <= i < self.nb_ciphertexts ==> (#[trigger] v.encoders@[i]) == (
                if constants@[i].units >= 0 {
                    crate::lwe::mul_derived_encoder(
                        self.encoders@[i],
                        vstd::math::abs(constants@[i].units as int) as int,
                        max_constant,
                        nb_bit_padding,
                    )
                } else {
                    Encoder {
                        o: Fix {
                            units: (-(crate::lwe::mul_new_max_units(
                                self.encoders@[i],
                                max_constant,
                            ) - crate::lwe::mul_derived_encoder(
                                self.encoders@[i],
                                vstd::math::abs(constants@[i].units as int) as int,
                                max_constant,
                                nb_bit_padding,
                            ).granularity_units())) as i128,
                        },
                        ..crate::lwe::mul_derived_encoder(
                            self.encoders@[i],
                            vstd::math::abs(constants@[i].units as int) as int,
                            max_constant,
                            nb_bit_padding,
                        )
                    }
                }),
    {
        let nb = self.nb_ciphertexts;
        let mut parts: Vec<LWE> = Vec::new();
        let mut i: usize = 0;
        while i < nb
            invariant
                i <= nb,
                self.wf(),
                nb == self.nb_ciphertexts,
                constants@.len() == nb,
                forall|k: int|
                    0 <= k < nb ==> (#[trigger] constants@[k]).units > i128::MIN,
                1 <= max_constant.units < crate::encoder::SQ_UNITS,
                forall|k: int|
                    0 <= k < nb ==> -crate::encoder::SQ_UNITS <= (
                    #[trigger] self.encoders@[k]).o.units && self.encoders@[k].o.units
                        + self.encoders@[k].delta.units <= crate::encoder::SQ_UNITS
                        && self.encoders@[k].delta.units <= crate::encoder::SQ_UNITS,
                1 <= nb_bit_padding,
                parts@.len() == i,
                forall|k: int|
                    0 <= k < i ==> crate::lwe::mul_ok(
                        #[trigger] self.encoders@[k],
                        constants@[k],
                        max_constant,
                        nb_bit_padding,
                    ),
                forall|k: int|
                    0 <= k < i ==> (#[trigger] parts@[k]).wf() && parts@[k].dimension
                        == self.dimension && parts@[k].variance
                        == crate::variance::spec_var_scaled_sq(
                        self.variances@[k],
                        LWE::mul_scal(constants@[k], max_constant, nb_bit_padding),
                    ) && parts@[k].encoder == (if constants@[k].units >= 0 {
                        crate::lwe::mul_derived_encoder(
                            self.encoders@[k],
                            vstd::math::abs(constants@[k].units as int) as int,
                            max_constant,
                            nb_bit_padding,
                        )
                    } else {
                        Encoder {
                            o: Fix {
                                units: (-(crate::lwe::mul_new_max_units(
                                    self.encoders@[k],
                                    max_constant,
                                ) - crate::lwe::mul_derived_encoder(
                                    self.encoders@[k],
                                    vstd::math::abs(constants@[k].units as int) as int,
                                    max_constant,
                                    nb_bit_padding,
                                ).granularity_units())) as i128,
                            },
                            ..crate::lwe::mul_derived_encoder(
                                self.encoders@[k],
                                vstd::math::abs(constants@[k].units as int) as int,
                                max_constant,
                                nb_bit_padding,
                            )
                        }
                    }),
            decreases nb - i,
        {
            let single = match self.extract_nth(i) {
                Ok(sg) => sg,
                Err(_) => {
                    proof {
                        assert(false);
                    }
                    return Err(CryptoError::IndexError);
                },
            };
            proof {
                assert((i + 1) * (self.dimension + 1) == i * (self.dimension + 1)
                    + self.dimension + 1) by (nonlinear_arith);
                assert(single.ciphertexts@.len() == self.dimension + 1);
            }
            let one = LWE {
                ciphertext: single.ciphertexts,
                variance: self.variances[i],
                dimension: self.dimension,
                encoder: self.encoders[i],
            };
            let c = match one.mul_constant_with_padding(
                constants[i],
                max_constant,
                nb_bit_padding,
            ) {
                Ok(c) => c,
                Err(er) => {
                    return Err(er);
                },
            };
            parts.push(c);
            i = i + 1;
        }
        let len = self.ciphertexts.len();
        proof {
            assert(len == nb * (self.dimension + 1));
        }
        let out = assemble(parts, self.dimension);
        Ok(out)
    }

    /// Bootstraps slot `n` through the given function samples into a fresh
    /// one-slot container; `IndexError` when the slot does not exist, and
    /// otherwise exactly the single-ciphertext bootstrap on that slot.
    pub fn bootstrap_nth_with_function(&self, n: usize, bsk: &crate::lwe_bsk::LWEBSK,
        f_values: &Vec<Fix>, encoder_output: &Encoder, refreshed: Vec<u64>) -> (r: Result<
        VectorLWE,
        CryptoError,
    >)
        requires
            self.wf(),
            bsk.wf(),
            encoder_output.wf(),
            f_values@.len() == bsk.polynomial_size,
            forall|i: int| 0 <= i < f_values@.len() ==> (#[trigger] f_values@[i]).bounded(),
            bsk.polynomial_size < usize::MAX / 2,
            refreshed@.len() == bsk.dimension * bsk.polynomial_size + 1,
            1 <= bsk.dimension * bsk.polynomial_size <= 0xffff_ffffusize,
            bsk.dimension * bsk.polynomial_size < usize::MAX - 1,
            bsk.level <= 0xffff_ffffusize,
            bsk.base_log <= 0xffff_ffffusize,
        ensures
            n >= self.nb_ciphertexts ==> r == Err::<VectorLWE, CryptoError>(
                CryptoError::IndexError,
            ),
            n < self.nb_ciphertexts && self.dimension != bsk.lwe_dimension ==> r == Err::<
                VectorLWE,
                CryptoError,
            >(CryptoError::DimensionError),
            r is Ok <==> n < self.nb_ciphertexts && self.dimension == bsk.lwe_dimension && (
            self.encoders@[n as int]).nb_bit_precision != 0 && (
            self.encoders@[n as int]).nb_bit_padding != 0 && encoder_output.valid(),
            r matches Ok(v) ==> v.wf() && v.nb_ciphertexts == 1 && v.dimension
                == bsk.dimension * bsk.polynomial_size && v.encoders@[0] == *encoder_output
                && v.slot(0) == refreshed@ && v.variances@[0]
                == crate::lwe_ksk::spec_keyswitch_variance(
                bsk.dimension * bsk.polynomial_size as int,
                bsk.level as int,
                bsk.base_log as int,
                bsk.variance,
                Variance { units: 0 },
            ),
    {
        if n >= self.nb_ciphertexts {
            return Err(CryptoError::IndexError);
        }
        let single = match self.extract_nth(n) {
            Ok(sg) => sg,
            Err(_) => {
                proof {
                    assert(false);
                }
                return Err(CryptoError::IndexError);
            },
        };
        proof {
            assert((n + 1) * (self.dimension + 1) == n * (self.dimension + 1)
                + self.dimension + 1) by (nonlinear_arith);
            assert(single.ciphertexts@.len() == self.dimension + 1);
        }
        let one = LWE {
            ciphertext: single.ciphertexts,
            variance: self.variances[n],
            dimension: self.dimension,
            encoder: self.encoders[n],
        };
        let c = match one.bootstrap_with_function(bsk, f_values, encoder_output, refreshed) {
            Ok(c) => c,
            Err(er) => {
                return Err(er);
            },
        };
        let mut parts: Vec<LWE> = Vec::new();
        parts.push(c);
        let out = assemble(parts, bsk.dimension * bsk.polynomial_size);
        Ok(out)
    }
}

impl VectorLWE {
    /// Encodes every message under the one shared encoder and encrypts the
    /// lot under `sk`: every slot of the result carries a copy of the
    /// encoder. The masks and noise samples come from the caller's
    /// randomness source.
    pub fn encode_encrypt(sk: &LWESecretKey, messages: &Vec<Fix>, encoder: &Encoder, masks:
        Vec<Vec<u64>>, noises: Vec<u64>) -> (r: Result<VectorLWE, CryptoError>)
        requires
            sk.wf(),
            1 <= sk.dimension < usize::MAX,
            messages@.len() >= 1,
            masks@.len() == messages@.len(),
            noises@.len() == messages@.len(),
            messages@.len() * (sk.dimension + 1) < usize::MAX,
            encoder.wf(),
            forall|i: int| 0 <= i < messages@.len() ==> (#[trigger] messages@[i]).bounded(),
            forall|i: int|
                0 <= i < masks@.len() ==> (#[trigger] masks@[i])@.len() == sk.dimension,
        ensures
            r is Ok <==> forall|i: int|
                0 <= i < messages@.len() ==> crate::plaintext::encode_err(
                    *encoder,
                    (#[trigger] messages@[i]).units as int,
                ) is None,
            r matches Err(er) ==> exists|i: int|
                0 <= i < messages@.len() && crate::plaintext::encode_err(
                    *encoder,
                    (#[trigger] messages@[i]).units as int,
                ) == Some(er),
            r matches Ok(v) ==> v.wf() && v.dimension == sk.dimension && v.nb_ciphertexts
                == messages@.len() && (forall|i: int|
                0 <= i < messages@.len() ==> (#[trigger] v.encoders@[i]) == *encoder) && (
            forall|i: int|
                0 <= i < messages@.len() ==> (#[trigger] v.variances@[i])
                    == crate::variance::spec_variance_of_log2_std_dev(sk.log2_std_dev as int))
                && forall|i: int|
                0 <= i < messages@.len() ==> #[trigger] v.slot_phase(i, sk.val@) == wrap(
                    encoder.encode_spec(messages@[i].units as int) + noises@[i],
                ),
    {
        let nb = messages.len();
        let mut encoders: Vec<Encoder> = Vec::new();
        let mut i: usize = 0;
        while i < nb
            invariant
                i <= nb,
                encoders@.len() == i,
                forall|k: int| 0 <= k < i ==> (#[trigger] encoders@[k]) == *encoder,
            decreases nb - i,
        {
            encoders.push(*encoder);
            i = i + 1;
        }
        let r = VectorLWE::encode_encrypt_several_encoders(
            sk,
            messages,
            &encoders,
            masks,
            noises,
        );
        proof {
            assert forall|k: int|
                0 <= k < messages@.len() implies (crate::plaintext::encode_err(
                *encoder,
                (#[trigger] messages@[k]).units as int,
            ) is None <==> crate::plaintext::encode_err(
                encoders@[k],
                messages@[k].units as int,
            ) is None) by {
                assert(encoders@[k] == *encoder);
            }
            if r is Err {
                let er = r->Err_0;
                let w = choose|k: int|
                    0 <= k < messages@.len() && crate::plaintext::encode_err(
                        #[trigger] encoders@[k],
                        messages@[k].units as int,
                    ) == Some(er);
                assert(crate::plaintext::encode_err(*encoder, messages@[w].units as int)
                    == Some(er));
            }
        }
        r
    }

    /// Slotwise homomorphic subtraction consuming one bit of padding in
    /// every slot, exactly as the single-ciphertext subtraction does per
    /// slot; on failure the error is the first failing slot's, in slot
    /// order. Both containers must hold the same number of ciphertexts.
    pub fn sub_with_padding(&self, ct: &VectorLWE) -> (r: Result<VectorLWE, CryptoError>)
        requires
            self.wf(),
            ct.wf(),
            self.nb_ciphertexts == ct.nb_ciphertexts,
            forall|i: int|
                0 <= i < self.nb_ciphertexts ==> -crate::fix::MAX_UNITS
                    <= (#[trigger] self.encoders@[i]).o.units - ct.encoders@[i].o.units
                    - ct.encoders@[i].delta.units <= crate::fix::MAX_UNITS,
            forall|i: int|
                0 <= i < self.nb_ciphertexts ==> 2 * (#[trigger] self.encoders@[i]).delta.units
                    <= crate::fix::MAX_UNITS,
        ensures
            self.dimension != ct.dimension ==> r == Err::<VectorLWE, CryptoError>(
                CryptoError::DimensionError,
            ),
            r is Ok <==> self.dimension == ct.dimension && forall|i: int|
                0 <= i < self.nb_ciphertexts ==> pad_pair_err(
                    #[trigger] self.encoders@[i],
                    ct.encoders@[i],
                ) is None,
            r matches Err(er) ==> self.dimension != ct.dimension || exists|i: int|
                0 <= i < self.nb_ciphertexts && pad_pair_err(
                    #[trigger] self.encoders@[i],
                    ct.encoders@[i],
                ) == Some(er),
            r matches Ok(v) ==> v.wf() && v.dimension == self.dimension && v.nb_ciphertexts
                == self.nb_ciphertexts && (forall|i: int, j: int|
                0 <= i < self.nb_ciphertexts && 0 <= j < self.dimension
                    ==> #[trigger] v.word(i, j) == wrap(
                    self.word(i, j) - ct.word(i, j),
                )) && (forall|i: int|
                0 <= i < self.nb_ciphertexts ==> #[trigger] v.word(i, self.dimension as int)
                    == wrap(
                    self.word(i, self.dimension as int) - ct.word(i, self.dimension as int)
                        + crate::lwe::pow2_int(
                        (64 - self.encoders@[i].nb_bit_padding) as nat,
                    ),
                )) && (forall|i: int|
                0 <= i < self.nb_ciphertexts ==> #[trigger] v.encoders@[i] == (Encoder {
                    o: Fix {
                        units: (self.encoders@[i].o.units - ct.encoders@[i].o.units
                            - ct.encoders@[i].delta.units) as i128,
                    },
                    delta: Fix { units: (2 * self.encoders@[i].delta.units) as i128 },
                    nb_bit_precision: if self.encoders@[i].nb_bit_precision
                        <= ct.encoders@[i].nb_bit_precision {
                        self.encoders@[i].nb_bit_precision
                    } else {
                        ct.encoders@[i].nb_bit_precision
                    },
                    nb_bit_padding: (self.encoders@[i].nb_bit_padding - 1) as usize,
                    round: self.encoders@[i].round,
                })) && forall|i: int|
                0 <= i < self.nb_ciphertexts ==> #[trigger] v.variances@[i]
                    == crate::variance::spec_var_sum(self.variances@[i], ct.variances@[i]),
    {
        if self.dimension != ct.dimension {
            return Err(CryptoError::DimensionError);
        }
        let nb = self.nb_ciphertexts;
        let mut parts: Vec<LWE> = Vec::new();
        let mut i: usize = 0;
        while i < nb
            invariant
                i <= nb,
                self.wf(),
                ct.wf(),
                nb == self.nb_ciphertexts,
                self.nb_ciphertexts == ct.nb_ciphertexts,
                self.dimension == ct.dimension,
                forall|k: int|
                    0 <= k < nb ==> -crate::fix::MAX_UNITS
                        <= (#[trigger] self.encoders@[k]).o.units - ct.encoders@[k].o.units
                        - ct.encoders@[k].delta.units <= crate::fix::MAX_UNITS,
                forall|k: int|
                    0 <= k < nb ==> 2 * (#[trigger] self.encoders@[k]).delta.units
                        <= crate::fix::MAX_UNITS,
                parts@.len() == i,
                forall|k: int|
                    0 <= k < i ==> pad_pair_err(
                        #[trigger] self.encoders@[k],
                        ct.encoders@[k],
                    ) is None,
                forall|k: int|
                    0 <= k < i ==> (#[trigger] parts@[k]).wf() && parts@[k].dimension
                        == self.dimension && parts@[k].variance
                        == crate::variance::spec_var_sum(self.variances@[k], ct.variances@[k])
                        && parts@[k].encoder == (Encoder {
                        o: Fix {
                            units: (self.encoders@[k].o.units - ct.encoders@[k].o.units
                                - ct.encoders@[k].delta.units) as i128,
                        },
                        delta: Fix { units: (2 * self.encoders@[k].delta.units) as i128 },
                        nb_bit_precision: if self.encoders@[k].nb_bit_precision
                            <= ct.encoders@[k].nb_bit_precision {
                            self.encoders@[k].nb_bit_precision
                        } else {
                            ct.encoders@[k].nb_bit_precision
                        },
                        nb_bit_padding: (self.encoders@[k].nb_bit_padding - 1) as usize,
                        round: self.encoders@[k].round,
                    }) && parts@[k].ciphertext@.len() == self.dimension + 1 && (forall|j: int|
                        0 <= j < self.dimension ==> #[trigger] parts@[k].ciphertext@[j] as int
                            == wrap(self.word(k, j) - ct.word(k, j)))
                        && parts@[k].body() == wrap(
                        self.word(k, self.dimension as int) - ct.word(
                            k,
                            self.dimension as int,
                        ) + crate::lwe::pow2_int(
                            (64 - self.encoders@[k].nb_bit_padding) as nat,
                        ),
                    ),
            decreases nb - i,
        {
            let a = self.extract_as_lwe(i);
            let b = ct.extract_as_lwe(i);
            let c = match a.sub_with_padding(&b) {
                Ok(c) => c,
                Err(er) => {
                    proof {
                        assert(pad_pair_err(self.encoders@[i as int], ct.encoders@[i as int])
                            == Some(er));
                    }
                    return Err(er);
                },
            };
            parts.push(c);
            i = i + 1;
        }
        let len = self.ciphertexts.len();
        proof {
            assert(len == nb * (self.dimension + 1));
        }
        let out = assemble(parts, self.dimension);
        proof {
            assert forall|k: int, j: int|
                0 <= k < nb && 0 <= j < self.dimension + 1 implies #[trigger] out.word(k, j)
                == out.ciphertexts@[k * (self.dimension + 1) + j] as int by {
            }
        }
        Ok(out)
    }

    /// Slot `n` of this container as a single ciphertext; a checked index
    /// is the caller's responsibility.
    fn extract_as_lwe(&self, n: usize) -> (r: LWE)
        requires
            self.wf(),
            n < self.nb_ciphertexts,
        ensures
            r.wf(),
            r.dimension == self.dimension,
            r.encoder == self.encoders@[n as int],
            r.variance == self.variances@[n as int],
            r.ciphertext@ == self.slot(n as int),
            r.ciphertext@.len() == self.dimension + 1,
            forall|j: int|
                0 <= j < self.dimension + 1 ==> #[trigger] r.ciphertext@[j] == self.word(
                    n as int,
                    j,
                ),
            r.body() == self.word(n as int, self.dimension as int),
            forall|key: Seq<u64>| #[trigger] r.phase(key) == self.slot_phase(n as int, key),
    {
        let single = match self.extract_nth(n) {
            Ok(sg) => sg,
            Err(_) => {
                proof {
                    assert(false);
                }
                VectorLWE {
                    ciphertexts: Vec::new(),
                    variances: Vec::new(),
                    dimension: self.dimension,
                    nb_ciphertexts: 0,
                    encoders: Vec::new(),
                }
            },
        };
        proof {
            assert((n + 1) * (self.dimension + 1) == n * (self.dimension + 1) + self.dimension
                + 1) by (nonlinear_arith);
            lemma_slot_range(self.nb_ciphertexts as int, self.dimension as int, n as int);
        }
        let one = LWE {
            ciphertext: single.ciphertexts,
            variance: self.variances[n],
            dimension: self.dimension,
            encoder: self.encoders[n],
        };
        proof {
            assert(one.ciphertext@.len() == self.dimension + 1);
            assert forall|j: int| 0 <= j < self.dimension + 1 implies #[trigger] one.ciphertext@[j]
                == self.word(n as int, j) by {
                assert(self.slot(n as int)[j] == self.ciphertexts@[n as int
                    * (self.dimension + 1) + j]);
            }
            assert forall|key: Seq<u64>| #[trigger] one.phase(key) == self.slot_phase(
                n as int,
                key,
            ) by {
                assert(one.ciphertext@[self.dimension as int] == self.word(
                    n as int,
                    self.dimension as int,
                ));
            }
        }
        one
    }
}

/// Which error, if any, a new-minimum or centered addition of two slot
/// encoders reports: equal interval lengths, equal positive paddings, and a
/// usable encoder.
pub open spec fn combine_pair_err(a: Encoder, b: Encoder) -> Option<CryptoError> {
    if a.delta != b.delta {
        Some(CryptoError::DeltaError)
    } else if a.nb_bit_padding != b.nb_bit_padding {
        Some(CryptoError::PaddingError)
    } else if a.nb_bit_padding == 0 {
        Some(CryptoError::NotEnoughPaddingError)
    } else if !a.valid() {
        Some(CryptoError::InvalidEncoderError)
    } else {
        None
    }
}

impl VectorLWE {
    /// Negates slot `n` homomorphically, leaving every other slot
    /// untouched; `IndexError` when the slot does not exist,
    /// `InvalidEncoderError` when its encoder is unusable.
    pub fn opposite_nth(&self, n: usize) -> (r: Result<VectorLWE, CryptoError>)
        requires
            self.wf(),
            forall|i: int|
                0 <= i < self.nb_ciphertexts ==> (#[trigger] self.encoders@[i]).o.units
                    + self.encoders@[i].delta.units
                    - self.encoders@[i].granularity_units() <= crate::fix::MAX_UNITS,
        ensures
            n >= self.nb_ciphertexts ==> r == Err::<VectorLWE, CryptoError>(
                CryptoError::IndexError,
            ),
            n < self.nb_ciphertexts && !self.encoders@[n as int].valid() ==> r == Err::<
                VectorLWE,
                CryptoError,
            >(CryptoError::InvalidEncoderError),
            r is Ok <==> n < self.nb_ciphertexts && self.encoders@[n as int].valid(),
            r matches Ok(v) ==> v.wf() && v.dimension == self.dimension && v.nb_ciphertexts
                == self.nb_ciphertexts && (forall|k: int|
                0 <= k < self.nb_ciphertexts && k != n ==> #[trigger] v.slot(k) == self.slot(
                    k,
                ) && v.encoders@[k] == self.encoders@[k] && v.variances@[k]
                    == self.variances@[k]) && v.variances@[n as int]
                == self.variances@[n as int] && v.encoders@[n as int] == (Encoder {
                o: Fix {
                    units: (-(self.encoders@[n as int].o.units
                        + self.encoders@[n as int].delta.units - self.encoders@[
                        n as int
                    ].granularity_units())) as i128,
                },
                ..self.encoders@[n as int]
            }) && (forall|j: int|
                0 <= j < self.dimension ==> #[trigger] v.word(n as int, j) == wrap(
                    -self.word(n as int, j),
                )) && v.word(n as int, self.dimension as int) == wrap(
                -self.word(n as int, self.dimension as int) + LWE::opposite_correction(
                    self.encoders@[n as int],
                ),
            ),
    {
        if n >= self.nb_ciphertexts {
            return Err(CryptoError::IndexError);
        }
        if !self.encoders[n].is_valid() {
            return Err(CryptoError::InvalidEncoderError);
        }
        let nb = self.nb_ciphertexts;
        let mut parts: Vec<LWE> = Vec::new();
        let mut i: usize = 0;
        while i < nb
            invariant
                i <= nb,
                self.wf(),
                n < nb,
                nb == self.nb_ciphertexts,
                forall|k: int|
                    0 <= k < nb ==> (#[trigger] self.encoders@[k]).o.units
                        + self.encoders@[k].delta.units
                        - self.encoders@[k].granularity_units() <= crate::fix::MAX_UNITS,
                self.encoders@[n as int].valid(),
                parts@.len() == i,
                forall|k: int|
                    0 <= k < i ==> (#[trigger] parts@[k]).wf() && parts@[k].dimension
                        == self.dimension,
                forall|k: int|
                    0 <= k < i && k != n ==> (#[trigger] parts@[k]).ciphertext@ == self.slot(k)
                        && parts@[k].encoder == self.encoders@[k] && parts@[k].variance
                        == self.variances@[k],
                i > n ==> parts@[n as int].variance == self.variances@[n as int]
                    && parts@[n as int].encoder == (Encoder {
                    o: Fix {
                        units: (-(self.encoders@[n as int].o.units
                            + self.encoders@[n as int].delta.units - self.encoders@[
                            n as int
                        ].granularity_units())) as i128,
                    },
                    ..self.encoders@[n as int]
                }) && parts@[n as int].ciphertext@.len() == self.dimension + 1 && (forall|
                    j: int,
                |
                    0 <= j < self.dimension ==> #[trigger] parts@[n as int].ciphertext@[j]
                        as int == wrap(-self.word(n as int, j))) && parts@[n as int].body()
                    == wrap(
                    -self.word(n as int, self.dimension as int) + LWE::opposite_correction(
                        self.encoders@[n as int],
                    ),
                ),
            decreases nb - i,
        {
            let one = self.extract_as_lwe(i);
            if i == n {
                let c = match one.opposite() {
                    Ok(c) => c,
                    Err(_) => {
                        // The slot encoder was checked valid above, so the
                        // negation cannot fail.
                        proof {
                            assert(false);
                        }
                        return Err(CryptoError::InvalidEncoderError);
                    },
                };
                parts.push(c);
            } else {
                parts.push(one);
            }
            i = i + 1;
        }
        let len = self.ciphertexts.len();
        proof {
            assert(len == nb * (self.dimension + 1));
        }
        let out = assemble(parts, self.dimension);
        Ok(out)
    }
}

impl VectorLWE {
    /// Slotwise homomorphic addition with one caller-chosen interval start
    /// per slot, exactly as the single-ciphertext form does per slot; on
    /// failure the error is the first failing slot's, in slot order.
    pub fn add_with_new_min(&self, ct: &VectorLWE, new_mins: &Vec<Fix>) -> (r: Result<
        VectorLWE,
        CryptoError,
    >)
        requires
            self.wf(),
            ct.wf(),
            self.nb_ciphertexts == ct.nb_ciphertexts,
            new_mins@.len() == self.nb_ciphertexts,
            forall|i: int| 0 <= i < new_mins@.len() ==> (#[trigger] new_mins@[i]).bounded(),
            forall|i: int|
                0 <= i < self.nb_ciphertexts ==> -crate::fix::MAX_UNITS
                    <= (#[trigger] self.encoders@[i]).o.units + ct.encoders@[i].o.units
                    <= crate::fix::MAX_UNITS,
        ensures
            self.dimension != ct.dimension ==> r == Err::<VectorLWE, CryptoError>(
                CryptoError::DimensionError,
            ),
            r is Ok <==> self.dimension == ct.dimension && forall|i: int|
                0 <= i < self.nb_ciphertexts ==> combine_pair_err(
                    #[trigger] self.encoders@[i],
                    ct.encoders@[i],
                ) is None,
            r matches Err(er) ==> self.dimension != ct.dimension || exists|i: int|
                0 <= i < self.nb_ciphertexts && combine_pair_err(
                    #[trigger] self.encoders@[i],
                    ct.encoders@[i],
                ) == Some(er),
            r matches Ok(v) ==> v.wf() && v.dimension == self.dimension && v.nb_ciphertexts
                == self.nb_ciphertexts && (forall|i: int|
                0 <= i < self.nb_ciphertexts ==> #[trigger] v.encoders@[i] == (Encoder {
                    o: new_mins@[i],
                    ..self.encoders@[i]
                })) && (forall|i: int|
                0 <= i < self.nb_ciphertexts ==> #[trigger] v.variances@[i]
                    == crate::variance::spec_var_sum(self.variances@[i], ct.variances@[i]))
                && (forall|i: int, j: int|
                0 <= i < self.nb_ciphertexts && 0 <= j < self.dimension
                    ==> #[trigger] v.word(i, j) == wrap(self.word(i, j) + ct.word(i, j)))
                && forall|i: int|
                0 <= i < self.nb_ciphertexts ==> #[trigger] v.word(i, self.dimension as int)
                    == wrap(
                    self.word(i, self.dimension as int) + ct.word(i, self.dimension as int)
                        + (Encoder { o: new_mins@[i], ..self.encoders@[i] }).encode_spec(
                        self.encoders@[i].o.units + ct.encoders@[i].o.units,
                    ),
                ),
    {
        if self.dimension != ct.dimension {
            return Err(CryptoError::DimensionError);
        }
        let nb = self.nb_ciphertexts;
        let mut parts: Vec<LWE> = Vec::new();
        let mut i: usize = 0;
        while i < nb
            invariant
                i <= nb,
                self.wf(),
                ct.wf(),
                nb == self.nb_ciphertexts,
                self.nb_ciphertexts == ct.nb_ciphertexts,
                self.dimension == ct.dimension,
                new_mins@.len() == nb,
                forall|k: int| 0 <= k < nb ==> (#[trigger] new_mins@[k]).bounded(),
                forall|k: int|
                    0 <= k < nb ==> -crate::fix::MAX_UNITS
                        <= (#[trigger] self.encoders@[k]).o.units + ct.encoders@[k].o.units
                        <= crate::fix::MAX_UNITS,
                parts@.len() == i,
                forall|k: int|
                    0 <= k < i ==> combine_pair_err(
                        #[trigger] self.encoders@[k],
                        ct.encoders@[k],
                    ) is None,
                forall|k: int|
                    0 <= k < i ==> (#[trigger] parts@[k]).wf() && parts@[k].dimension
                        == self.dimension && parts@[k].encoder == (Encoder {
                        o: new_mins@[k],
                        ..self.encoders@[k]
                    }) && parts@[k].variance == crate::variance::spec_var_sum(
                        self.variances@[k],
                        ct.variances@[k],
                    ) && parts@[k].ciphertext@.len() == self.dimension + 1 && (forall|j: int|
                        0 <= j < self.dimension ==> #[trigger] parts@[k].ciphertext@[j] as int
                            == wrap(self.word(k, j) + ct.word(k, j))) && parts@[k].body()
                        == wrap(
                        self.word(k, self.dimension as int) + ct.word(
                            k,
                            self.dimension as int,
                        ) + (Encoder { o: new_mins@[k], ..self.encoders@[k] }).encode_spec(
                            self.encoders@[k].o.units + ct.encoders@[k].o.units,
                        ),
                    ),
            decreases nb - i,
        {
            let a = self.extract_as_lwe(i);
            let b = ct.extract_as_lwe(i);
            let c = match a.add_with_new_min(&b, new_mins[i]) {
                Ok(c) => c,
                Err(er) => {
                    proof {
                        assert(combine_pair_err(
                            self.encoders@[i as int],
                            ct.encoders@[i as int],
                        ) == Some(er));
                    }
                    return Err(er);
                },
            };
            parts.push(c);
            i = i + 1;
        }
        let len = self.ciphertexts.len();
        proof {
            assert(len == nb * (self.dimension + 1));
        }
        let out = assemble(parts, self.dimension);
        Ok(out)
    }

    /// Slotwise centered homomorphic addition, exactly as the
    /// single-ciphertext form does per slot; on failure the error is the
    /// first failing slot's, in slot order.
    pub fn add_centered(&self, ct: &VectorLWE) -> (r: Result<VectorLWE, CryptoError>)
        requires
            self.wf(),
            ct.wf(),
            self.nb_ciphertexts == ct.nb_ciphertexts,
            forall|i: int|
                0 <= i < self.nb_ciphertexts ==> -crate::fix::MAX_UNITS
                    <= (#[trigger] self.encoders@[i]).o.units + ct.encoders@[i].o.units
                    && self.encoders@[i].o.units + ct.encoders@[i].o.units
                    + self.encoders@[i].delta.units / 2 <= crate::fix::MAX_UNITS,
        ensures
            self.dimension != ct.dimension ==> r == Err::<VectorLWE, CryptoError>(
                CryptoError::DimensionError,
            ),
            r is Ok <==> self.dimension == ct.dimension && forall|i: int|
                0 <= i < self.nb_ciphertexts ==> combine_pair_err(
                    #[trigger] self.encoders@[i],
                    ct.encoders@[i],
                ) is None,
            r matches Err(er) ==> self.dimension != ct.dimension || exists|i: int|
                0 <= i < self.nb_ciphertexts && combine_pair_err(
                    #[trigger] self.encoders@[i],
                    ct.encoders@[i],
                ) == Some(er),
            r matches Ok(v) ==> v.wf() && v.dimension == self.dimension && v.nb_ciphertexts
                == self.nb_ciphertexts && (forall|i: int|
                0 <= i < self.nb_ciphertexts ==> #[trigger] v.encoders@[i] == (Encoder {
                    o: Fix {
                        units: (self.encoders@[i].o.units + ct.encoders@[i].o.units
                            + self.encoders@[i].delta.units / 2) as i128,
                    },
                    ..self.encoders@[i]
                })) && (forall|i: int|
                0 <= i < self.nb_ciphertexts ==> #[trigger] v.variances@[i]
                    == crate::variance::spec_var_sum(self.variances@[i], ct.variances@[i]))
                && (forall|i: int, j: int|
                0 <= i < self.nb_ciphertexts && 0 <= j < self.dimension
                    ==> #[trigger] v.word(i, j) == wrap(self.word(i, j) + ct.word(i, j)))
                && forall|i: int|
                0 <= i < self.nb_ciphertexts ==> #[trigger] v.word(i, self.dimension as int)
                    == wrap(
                    self.word(i, self.dimension as int) + ct.word(i, self.dimension as int)
                        - (Encoder {
                        o: Fix { units: 0 },
                        ..self.encoders@[i]
                    }).encode_spec(self.encoders@[i].delta.units as int / 2),
                ),
    {
        if self.dimension != ct.dimension {
            return Err(CryptoError::DimensionError);
        }
        let nb = self.nb_ciphertexts;
        let mut parts: Vec<LWE> = Vec::new();
        let mut i: usize = 0;
        while i < nb
            invariant
                i <= nb,
                self.wf(),
                ct.wf(),
                nb == self.nb_ciphertexts,
                self.nb_ciphertexts == ct.nb_ciphertexts,
                self.dimension == ct.dimension,
                forall|k: int|
                    0 <= k < nb ==> -crate::fix::MAX_UNITS
                        <= (#[trigger] self.encoders@[k]).o.units + ct.encoders@[k].o.units
                        && self.encoders@[k].o.units + ct.encoders@[k].o.units
                        + self.encoders@[k].delta.units / 2 <= crate::fix::MAX_UNITS,
                parts@.len() == i,
                forall|k: int|
                    0 <= k < i ==> combine_pair_err(
                        #[trigger] self.encoders@[k],
                        ct.encoders@[k],
                    ) is None,
                forall|k: int|
                    0 <= k < i ==> (#[trigger] parts@[k]).wf() && parts@[k].dimension
                        == self.dimension && parts@[k].encoder == (Encoder {
                        o: Fix {
                            units: (self.encoders@[k].o.units + ct.encoders@[k].o.units
                                + self.encoders@[k].delta.units / 2) as i128,
                        },
                        ..self.encoders@[k]
                    }) && parts@[k].variance == crate::variance::spec_var_sum(
                        self.variances@[k],
                        ct.variances@[k],
                    ) && parts@[k].ciphertext@.len() == self.dimension + 1 && (forall|j: int|
                        0 <= j < self.dimension ==> #[trigger] parts@[k].ciphertext@[j] as int
                            == wrap(self.word(k, j) + ct.word(k, j))) && parts@[k].body()
                        == wrap(
                        self.word(k, self.dimension as int) + ct.word(
                            k,
                            self.dimension as int,
                        ) - (Encoder {
                            o: Fix { units: 0 },
                            ..self.encoders@[k]
                        }).encode_spec(self.encoders@[k].delta.units as int / 2),
                    ),
            decreases nb - i,
        {
            let a = self.extract_as_lwe(i);
            let b = ct.extract_as_lwe(i);
            let c = match a.add_centered(&b) {
                Ok(c) => c,
                Err(er) => {
                    proof {
                        assert(combine_pair_err(
                            self.encoders@[i as int],
                            ct.encoders@[i as int],
                        ) == Some(er));
                    }
                    return Err(er);
                },
            };
            parts.push(c);
            i = i + 1;
        }
        let len = self.ciphertexts.len();
        proof {
            assert(len == nb * (self.dimension + 1));
        }
        let out = assemble(parts, self.dimension);
        Ok(out)
    }

    /// Multiplies each slot's phase by its own small signed integer without
    /// changing the encoders, exactly as the single-ciphertext form does
    /// per slot; fails with the first invalid slot encoder.
    pub fn mul_constant_static_encoder(&self, messages: &Vec<i32>) -> (r: Result<
        VectorLWE,
        CryptoError,
    >)
        requires
            self.wf(),
            messages@.len() == self.nb_ciphertexts,
            forall|i: int| 0 <= i < messages@.len() ==> (#[trigger] messages@[i]) > i32::MIN,
        ensures
            r is Ok <==> forall|i: int|
                0 <= i < self.nb_ciphertexts ==> (#[trigger] self.encoders@[i]).valid(),
            r is Err ==> r == Err::<VectorLWE, CryptoError>(CryptoError::InvalidEncoderError),
            r matches Ok(v) ==> v.wf() && v.dimension == self.dimension && v.nb_ciphertexts
                == self.nb_ciphertexts && (forall|i: int|
                0 <= i < self.nb_ciphertexts ==> (#[trigger] v.encoders@[i])
                    == self.encoders@[i]) && (forall|i: int|
                0 <= i < self.nb_ciphertexts ==> (#[trigger] v.variances@[i])
                    == crate::variance::spec_var_scaled_sq(
                    self.variances@[i],
                    vstd::math::abs(messages@[i] as int) as int,
                )) && (forall|i: int, j: int|
                0 <= i < self.nb_ciphertexts && 0 <= j < self.dimension
                    ==> #[trigger] v.word(i, j) == wrap(self.word(i, j) * messages@[i]))
                && forall|i: int|
                0 <= i < self.nb_ciphertexts ==> #[trigger] v.word(i, self.dimension as int)
                    == wrap(
                    self.word(i, self.dimension as int) * messages@[i]
                        - self.encoders@[i].encode_spec(0) * (messages@[i] - 1),
                ),
    {
        let nb = self.nb_ciphertexts;
        let mut parts: Vec<LWE> = Vec::new();
        let mut i: usize = 0;
        while i < nb
            invariant
                i <= nb,
                self.wf(),
                nb == self.nb_ciphertexts,
                messages@.len() == nb,
                forall|k: int| 0 <= k < nb ==> (#[trigger] messages@[k]) > i32::MIN,
                parts@.len() == i,
                forall|k: int| 0 <= k < i ==> (#[trigger] self.encoders@[k]).valid(),
                forall|k: int|
                    0 <= k < i ==> (#[trigger] parts@[k]).wf() && parts@[k].dimension
                        == self.dimension && parts@[k].encoder == self.encoders@[k]
                        && parts@[k].variance == crate::variance::spec_var_scaled_sq(
                        self.variances@[k],
                        vstd::math::abs(messages@[k] as int) as int,
                    ) && parts@[k].ciphertext@.len() == self.dimension + 1 && (forall|j: int|
                        0 <= j < self.dimension ==> #[trigger] parts@[k].ciphertext@[j] as int
                            == wrap(self.word(k, j) * messages@[k])) && parts@[k].body()
                        == wrap(
                        self.word(k, self.dimension as int) * messages@[k]
                            - self.encoders@[k].encode_spec(0) * (messages@[k] - 1),
                    ),
            decreases nb - i,
        {
            let one = self.extract_as_lwe(i);
            let c = match one.mul_constant_static_encoder(messages[i]) {
                Ok(c) => c,
                Err(er) => {
                    return Err(er);
                },
            };
            parts.push(c);
            i = i + 1;
        }
        let len = self.ciphertexts.len();
        proof {
            assert(len == nb * (self.dimension + 1));
        }
        let out = assemble(parts, self.dimension);
        Ok(out)
    }
}

/// The wrapping fold of word `j` across the first `n` slots.
pub open spec fn sum_word(v: VectorLWE, n: int, j: int) -> int
    decreases n,
{
    if n <= 0 {
        0
    } else {
        wrap(sum_word(v, n - 1, j) + v.word(n - 1, j))
    }
}

/// The sum of the first `n` slot interval starts, in units.
pub open spec fn sum_o_units(v: VectorLWE, n: int) -> int
    decreases n,
{
    if n <= 0 {
        0
    } else {
        sum_o_units(v, n - 1) + v.encoders@[n - 1].o.units
    }
}

/// The smallest precision among the first `n` slots, starting from the
/// first slot's.
pub open spec fn min_precision(v: VectorLWE, n: int) -> int
    decreases n,
{
    if n <= 1 {
        v.encoders@[0].nb_bit_precision as int
    } else if (v.encoders@[n - 1].nb_bit_precision as int) < min_precision(v, n - 1) {
        v.encoders@[n - 1].nb_bit_precision as int
    } else {
        min_precision(v, n - 1)
    }
}

/// The saturating sum of the first `n` slot noise estimates.
pub open spec fn sum_variance(v: VectorLWE, n: int) -> Variance
    decreases n,
{
    if n <= 0 {
        Variance { units: 0 }
    } else {
        crate::variance::spec_var_sum(sum_variance(v, n - 1), v.variances@[n - 1])
    }
}

/// The least `c` with `2^c >= nb`, searched from `k` and capped at 64.
pub open spec fn ceil_log2_from(nb: int, k: nat) -> nat
    decreases 64 - k,
{
    if k >= 64 {
        64
    } else if pow2(k) >= nb {
        k
    } else {
        ceil_log2_from(nb, k + 1)
    }
}

/// The least `c` with `2^c >= nb`, capped at 64.
pub fn ceil_log2(nb: usize) -> (r: usize)
    requires
        nb >= 1,
    ensures
        r == ceil_log2_from(nb as int, 0),
        r <= 64,
{
    let mut c: usize = 0;
    let mut cur: u128 = 1;
    proof {
        vstd::arithmetic::power2::lemma2_to64();
    }
    while c < 64 && cur < nb as u128
        invariant
            c <= 64,
            nb >= 1,
            cur as nat == pow2(c as nat),
            cur <= 0x1_0000_0000_0000_0000u128,
            ceil_log2_from(nb as int, 0) == ceil_log2_from(nb as int, c as nat),
        decreases 64 - c,
    {
        proof {
            vstd::arithmetic::power2::lemma_pow2_adds(c as nat, 1);
            vstd::arithmetic::power2::lemma2_to64();
            if c + 1 < 64 {
                vstd::arithmetic::power2::lemma_pow2_strictly_increases((c + 1) as nat, 64);
            }
            crate::arith::lemma_scale_is_pow2();
        }
        cur = cur * 2;
        c = c + 1;
    }
    c
}

impl VectorLWE {
    /// Re-encrypts every slot under the key-switching key's output
    /// dimension; the switched words come from the lattice backend, one
    /// list per slot. The encoders are carried over unchanged and the noise
    /// grows by the decomposition noise model, per slot.
    pub fn keyswitch(&self, ksk: &crate::lwe_ksk::LWEKSK, switched: Vec<Vec<u64>>) -> (r:
        Result<VectorLWE, CryptoError>)
        requires
            self.wf(),
            ksk.wf(),
            1 <= ksk.dimension_after,
            switched@.len() == self.nb_ciphertexts,
            forall|i: int|
                0 <= i < switched@.len() ==> (#[trigger] switched@[i])@.len()
                    == ksk.dimension_after + 1,
            self.nb_ciphertexts * (ksk.dimension_after + 1) <= usize::MAX,
            self.dimension <= 0xffff_ffffusize,
            ksk.level <= 0xffff_ffffusize,
            ksk.base_log <= 0xffff_ffffusize,
        ensures
            self.dimension != ksk.dimension_before ==> r == Err::<VectorLWE, CryptoError>(
                CryptoError::DimensionError,
            ),
            r is Ok <==> self.dimension == ksk.dimension_before,
            r matches Ok(v) ==> v.wf() && v.dimension == ksk.dimension_after
                && v.nb_ciphertexts == self.nb_ciphertexts && (forall|i: int|
                0 <= i < self.nb_ciphertexts ==> (#[trigger] v.encoders@[i])
                    == self.encoders@[i]) && (forall|i: int|
                0 <= i < self.nb_ciphertexts ==> #[trigger] v.slot(i) == switched@[i]@)
                && forall|i: int|
                0 <= i < self.nb_ciphertexts ==> (#[trigger] v.variances@[i])
                    == crate::lwe_ksk::spec_keyswitch_variance(
                    self.dimension as int,
                    ksk.level as int,
                    ksk.base_log as int,
                    ksk.variance,
                    self.variances@[i],
                ),
    {
        if self.dimension != ksk.dimension_before {
            return Err(CryptoError::DimensionError);
        }
        let nb = self.nb_ciphertexts;
        let mut parts: Vec<LWE> = Vec::new();
        let mut i: usize = 0;
        while i < nb
            invariant
                i <= nb,
                self.wf(),
                ksk.wf(),
                1 <= ksk.dimension_after,
                nb == self.nb_ciphertexts,
                self.dimension == ksk.dimension_before,
                switched@.len() == nb,
                forall|k: int|
                    0 <= k < nb ==> (#[trigger] switched@[k])@.len() == ksk.dimension_after
                        + 1,
                self.dimension <= 0xffff_ffffusize,
                ksk.level <= 0xffff_ffffusize,
                ksk.base_log <= 0xffff_ffffusize,
                parts@.len() == i,
                forall|k: int|
                    0 <= k < i ==> (#[trigger] parts@[k]).wf() && parts@[k].dimension
                        == ksk.dimension_after && parts@[k].encoder == self.encoders@[k]
                        && parts@[k].ciphertext@ == switched@[k]@ && parts@[k].variance
                        == crate::lwe_ksk::spec_keyswitch_variance(
                        self.dimension as int,
                        ksk.level as int,
                        ksk.base_log as int,
                        ksk.variance,
                        self.variances@[k],
                    ),
            decreases nb - i,
        {
            let one = self.extract_as_lwe(i);
            let words = switched[i].clone();
            let c = match one.keyswitch(ksk, words) {
                Ok(c) => c,
                Err(_) => {
                    proof {
                        assert(false);
                    }
                    return Err(CryptoError::DimensionError);
                },
            };
            parts.push(c);
            i = i + 1;
        }
        let out = assemble(parts, ksk.dimension_after);
        Ok(out)
    }

    /// Folds every slot into one ciphertext by homomorphic addition,
    /// consuming `ceil(log2(nb_ciphertexts))` bits of padding: all slots
    /// must share the first slot's interval length and padding, and enough
    /// padding must remain for the consumed bits.
    pub fn sum_with_padding(&self) -> (r: Result<VectorLWE, CryptoError>)
        requires
            self.wf(),
            self.nb_ciphertexts <= 0x4000_0000usize,
            -crate::fix::MAX_UNITS <= sum_o_units(*self, self.nb_ciphertexts as int)
                <= crate::fix::MAX_UNITS,
            forall|n: int|
                0 <= n <= self.nb_ciphertexts ==> -crate::fix::MAX_UNITS <= #[trigger] sum_o_units(
                    *self,
                    n,
                ) <= crate::fix::MAX_UNITS,
            self.encoders@[0].delta.units * pow2(
                ceil_log2_from(self.nb_ciphertexts as int, 0),
            ) as int <= crate::fix::MAX_UNITS,
        ensures
            r is Ok <==> (forall|i: int|
                0 <= i < self.nb_ciphertexts ==> (#[trigger] self.encoders@[i]).delta
                    == self.encoders@[0].delta && self.encoders@[i].nb_bit_padding
                    == self.encoders@[0].nb_bit_padding) && self.encoders@[0].nb_bit_padding
                >= ceil_log2_from(self.nb_ciphertexts as int, 0),
            r matches Ok(v) ==> v.wf() && v.dimension == self.dimension && v.nb_ciphertexts
                == 1 && v.encoders@[0] == (Encoder {
                o: Fix { units: sum_o_units(*self, self.nb_ciphertexts as int) as i128 },
                delta: Fix {
                    units: (self.encoders@[0].delta.units * pow2(
                        ceil_log2_from(self.nb_ciphertexts as int, 0),
                    ) as int) as i128,
                },
                nb_bit_precision: min_precision(*self, self.nb_ciphertexts as int) as usize,
                nb_bit_padding: (self.encoders@[0].nb_bit_padding - ceil_log2_from(
                    self.nb_ciphertexts as int,
                    0,
                )) as usize,
                round: self.encoders@[0].round,
            }) && v.variances@[0] == sum_variance(*self, self.nb_ciphertexts as int) && forall|
                j: int,
            |
                0 <= j < self.dimension + 1 ==> #[trigger] v.word(0, j) == sum_word(
                    *self,
                    self.nb_ciphertexts as int,
                    j,
                ),
    {
        let nb = self.nb_ciphertexts;
        let d = self.dimension;
        let len = self.ciphertexts.len();
        proof {
            assert(len == nb * (d + 1));
            lemma_slot_range(nb as int, d as int, 0);
        }
        let consumed = ceil_log2(nb);
        // Check the slots against the first one.
        let mut i: usize = 0;
        while i < nb
            invariant
                i <= nb,
                self.wf(),
                nb == self.nb_ciphertexts,
                forall|k: int|
                    0 <= k < i ==> (#[trigger] self.encoders@[k]).delta
                        == self.encoders@[0].delta && self.encoders@[k].nb_bit_padding
                        == self.encoders@[0].nb_bit_padding,
            decreases nb - i,
        {
            if self.encoders[i].delta != self.encoders[0].delta {
                return Err(CryptoError::DeltaError);
            }
            if self.encoders[i].nb_bit_padding != self.encoders[0].nb_bit_padding {
                return Err(CryptoError::PaddingError);
            }
            i = i + 1;
        }
        if self.encoders[0].nb_bit_padding < consumed {
            return Err(CryptoError::NotEnoughPaddingError);
        }
        // Fold the slot words, noise estimates, offsets and precisions.
        let mut words: Vec<u64> = Vec::new();
        let mut j: usize = 0;
        while j < d + 1
            invariant
                j <= d + 1,
                self.wf(),
                d == self.dimension,
                nb == self.nb_ciphertexts,
                len == self.ciphertexts@.len(),
                len == nb * (d + 1),
                d + 1 <= len,
                words@.len() == j,
                forall|t: int|
                    0 <= t < j ==> #[trigger] words@[t] as int == sum_word(
                        *self,
                        nb as int,
                        t,
                    ),
            decreases d + 1 - j,
        {
            let mut acc: u64 = 0;
            let mut k: usize = 0;
            while k < nb
                invariant
                    k <= nb,
                    j < d + 1,
                    self.wf(),
                    d == self.dimension,
                    nb == self.nb_ciphertexts,
                    len == self.ciphertexts@.len(),
                    len == nb * (d + 1),
                    acc as int == sum_word(*self, k as int, j as int),
                decreases nb - k,
            {
                proof {
                    lemma_slot_range(nb as int, d as int, k as int);
                }
                acc = crate::bodies::wrap_add64(acc, self.ciphertexts[k * (d + 1) + j]);
                k = k + 1;
            }
            words.push(acc);
            j = j + 1;
        }
        let mut variance = Variance::zero();
        let mut o_units: i128 = 0;
        let mut precision = self.encoders[0].nb_bit_precision;
        let mut k: usize = 0;
        while k < nb
            invariant
                k <= nb,
                self.wf(),
                nb == self.nb_ciphertexts,
                forall|n: int|
                    0 <= n <= nb ==> -crate::fix::MAX_UNITS <= #[trigger] sum_o_units(
                        *self,
                        n,
                    ) <= crate::fix::MAX_UNITS,
                variance == sum_variance(*self, k as int),
                variance.wf(),
                o_units as int == sum_o_units(*self, k as int),
                k >= 1 ==> precision as int == min_precision(*self, k as int),
                k == 0 ==> precision == self.encoders@[0].nb_bit_precision,
            decreases nb - k,
        {
            variance = variance.accumulate(self.variances[k]);
            o_units = o_units + self.encoders[k].o.units;
            if k >= 1 && self.encoders[k].nb_bit_precision < precision {
                precision = self.encoders[k].nb_bit_precision;
            }
            k = k + 1;
        }
        proof {
            vstd::arithmetic::power2::lemma_pow2_pos(
                ceil_log2_from(self.nb_ciphertexts as int, 0),
            );
            assert(pow2(consumed as nat) >= 1);
            assert(self.encoders@[0].delta.units * pow2(consumed as nat) as int >= 0)
                by (nonlinear_arith)
                requires
                    self.encoders@[0].delta.units >= 0,
                    pow2(consumed as nat) >= 1,
            ;
        }
        let mult: i128 = if consumed == 64 {
            proof {
                crate::arith::lemma_scale_is_pow2();
            }
            crate::arith::SCALE as i128
        } else {
            proof {
                vstd::bits::lemma_u64_pow2_no_overflow(consumed as nat);
                vstd::bits::lemma_u64_shl_is_mul(1u64, consumed as u64);
            }
            (1u64 << (consumed as u64)) as i128
        };
        let delta = Fix::from_units(self.encoders[0].delta.units * mult);
        let mut encoders: Vec<Encoder> = Vec::new();
        encoders.push(Encoder {
            o: Fix::from_units(o_units),
            delta,
            nb_bit_precision: precision,
            nb_bit_padding: self.encoders[0].nb_bit_padding - consumed,
            round: self.encoders[0].round,
        });
        let mut variances: Vec<Variance> = Vec::new();
        variances.push(variance);
        Ok(VectorLWE {
            ciphertexts: words,
            variances,
            dimension: d,
            nb_ciphertexts: 1,
            encoders,
        })
    }
}

impl VectorLWE {
    /// Folds every slot into one ciphertext by plain wrapping addition,
    /// with a caller-chosen output interval start: the body takes a
    /// correction that re-encodes the sum of the old interval starts under
    /// the new one. The first slot's encoder supplies the grid, and must be
    /// usable.
    pub fn sum_with_new_min(&self, new_min: Fix) -> (r: Result<VectorLWE, CryptoError>)
        requires
            self.wf(),
            new_min.bounded(),
            forall|n: int|
                0 <= n <= self.nb_ciphertexts ==> -crate::fix::MAX_UNITS <= #[trigger] sum_o_units(
                    *self,
                    n,
                ) <= crate::fix::MAX_UNITS,
        ensures
            r is Ok <==> self.encoders@[0].valid(),
            !self.encoders@[0].valid() ==> r == Err::<VectorLWE, CryptoError>(
                CryptoError::InvalidEncoderError,
            ),
            r matches Ok(v) ==> v.wf() && v.dimension == self.dimension && v.nb_ciphertexts
                == 1 && v.encoders@[0] == (Encoder { o: new_min, ..self.encoders@[0] })
                && v.variances@[0] == sum_variance(*self, self.nb_ciphertexts as int) && (
            forall|j: int|
                0 <= j < self.dimension ==> #[trigger] v.word(0, j) == sum_word(
                    *self,
                    self.nb_ciphertexts as int,
                    j,
                )) && v.word(0, self.dimension as int) == wrap(
                sum_word(*self, self.nb_ciphertexts as int, self.dimension as int) + (Encoder {
                    o: new_min,
                    ..self.encoders@[0]
                }).encode_spec(sum_o_units(*self, self.nb_ciphertexts as int)),
            ),
    {
        let nb = self.nb_ciphertexts;
        let d = self.dimension;
        let len = self.ciphertexts.len();
        proof {
            assert(len == nb * (d + 1));
            lemma_slot_range(nb as int, d as int, 0);
        }
        let new_encoder = Encoder { o: new_min, ..self.encoders[0] };
        if !new_encoder.is_valid() {
            return Err(CryptoError::InvalidEncoderError);
        }
        // Fold the slot words, noise estimates and offsets.
        let mut words: Vec<u64> = Vec::new();
        let mut j: usize = 0;
        while j < d + 1
            invariant
                j <= d + 1,
                self.wf(),
                d == self.dimension,
                nb == self.nb_ciphertexts,
                len == self.ciphertexts@.len(),
                len == nb * (d + 1),
                d + 1 <= len,
                words@.len() == j,
                forall|t: int|
                    0 <= t < j ==> #[trigger] words@[t] as int == sum_word(
                        *self,
                        nb as int,
                        t,
                    ),
            decreases d + 1 - j,
        {
            let mut acc: u64 = 0;
            let mut k: usize = 0;
            while k < nb
                invariant
                    k <= nb,
                    j < d + 1,
                    self.wf(),
                    d == self.dimension,
                    nb == self.nb_ciphertexts,
                    len == self.ciphertexts@.len(),
                    len == nb * (d + 1),
                    acc as int == sum_word(*self, k as int, j as int),
                decreases nb - k,
            {
                proof {
                    lemma_slot_range(nb as int, d as int, k as int);
                }
                acc = crate::bodies::wrap_add64(acc, self.ciphertexts[k * (d + 1) + j]);
                k = k + 1;
            }
            words.push(acc);
            j = j + 1;
        }
        let mut variance = Variance::zero();
        let mut o_units: i128 = 0;
        let mut k: usize = 0;
        while k < nb
            invariant
                k <= nb,
                self.wf(),
                nb == self.nb_ciphertexts,
                forall|n: int|
                    0 <= n <= nb ==> -crate::fix::MAX_UNITS <= #[trigger] sum_o_units(
                        *self,
                        n,
                    ) <= crate::fix::MAX_UNITS,
                variance == sum_variance(*self, k as int),
                variance.wf(),
                o_units as int == sum_o_units(*self, k as int),
            decreases nb - k,
        {
            variance = variance.accumulate(self.variances[k]);
            o_units = o_units + self.encoders[k].o.units;
            k = k + 1;
        }
        let correction = match new_encoder.encode_outside_interval_operators(
            Fix::from_units(o_units),
        ) {
            Ok(t) => t,
            Err(_) => {
                proof {
                    assert(false);
                }
                return Err(CryptoError::InvalidEncoderError);
            },
        };
        let body = crate::bodies::wrap_add64(words[d], correction);
        let mut out_words = words;
        out_words.set(d, body);
        let mut encoders: Vec<Encoder> = Vec::new();
        encoders.push(new_encoder);
        let mut variances: Vec<Variance> = Vec::new();
        variances.push(variance);
        Ok(VectorLWE {
            ciphertexts: out_words,
            variances,
            dimension: d,
            nb_ciphertexts: 1,
            encoders,
        })
    }

    /// Bootstraps slot `n` through the identity function: the lookup table
    /// is built from the slot encoder's own grid values, so the refreshed
    /// ciphertext re-encodes the same value under the same encoder.
    pub fn bootstrap_nth(&self, n: usize, bsk: &crate::lwe_bsk::LWEBSK, refreshed: Vec<
        u64,
    >) -> (r: Result<VectorLWE, CryptoError>)
        requires
            self.wf(),
            bsk.wf(),
            bsk.polynomial_size < usize::MAX / 2,
            refreshed@.len() == bsk.dimension * bsk.polynomial_size + 1,
            1 <= bsk.dimension * bsk.polynomial_size <= 0xffff_ffffusize,
            bsk.dimension * bsk.polynomial_size < usize::MAX - 1,
            bsk.level <= 0xffff_ffffusize,
            bsk.base_log <= 0xffff_ffffusize,
            n < self.nb_ciphertexts ==> (#[trigger] self.encoders@[n as int]).nb_bit_precision
                <= 63 && self.encoders@[n as int].o.units
                + self.encoders@[n as int].delta.units <= crate::fix::MAX_UNITS,
            crate::lwe::log2_ratio_from(1, bsk.polynomial_size as int, 0) <= 62,
        ensures
            n >= self.nb_ciphertexts ==> r == Err::<VectorLWE, CryptoError>(
                CryptoError::IndexError,
            ),
            n < self.nb_ciphertexts && !self.encoders@[n as int].valid() ==> r == Err::<
                VectorLWE,
                CryptoError,
            >(CryptoError::InvalidEncoderError),
            r is Ok ==> n < self.nb_ciphertexts && self.dimension == bsk.lwe_dimension
                && self.encoders@[n as int].valid() && self.encoders@[n as int].nb_bit_padding
                != 0,
            r matches Ok(v) ==> v.wf() && v.nb_ciphertexts == 1 && v.dimension
                == bsk.dimension * bsk.polynomial_size && v.encoders@[0]
                == self.encoders@[n as int] && v.slot(0) == refreshed@,
    {
        if n >= self.nb_ciphertexts {
            return Err(CryptoError::IndexError);
        }
        let enc = self.encoders[n];
        let values = match bsk.bootstrap_input_values(&enc) {
            Ok(v) => v,
            Err(er) => {
                return Err(er);
            },
        };
        self.bootstrap_nth_with_function(n, bsk, &values, &enc, refreshed)
    }
}

impl VectorLWE {
    /// Fills a container with encryptions of raw torus values under `sk`,
    /// one per slot, leaving the slot encoders as they are; the masks and
    /// noise samples come from the caller's randomness source.
    pub fn encrypt_raw(&mut self, sk: &LWESecretKey, plaintexts: &Vec<u64>, masks: Vec<
        Vec<u64>,
    >, noises: Vec<u64>) -> (r: Result<(), CryptoError>)
        requires
            old(self).wf(),
            sk.wf(),
            old(self).dimension == sk.dimension,
            plaintexts@.len() == old(self).nb_ciphertexts,
            masks@.len() == old(self).nb_ciphertexts,
            noises@.len() == old(self).nb_ciphertexts,
            forall|i: int|
                0 <= i < masks@.len() ==> (#[trigger] masks@[i])@.len() == sk.dimension,
        ensures
            r is Ok,
            final(self).wf(),
            final(self).dimension == old(self).dimension,
            final(self).nb_ciphertexts == old(self).nb_ciphertexts,
            forall|i: int|
                0 <= i < old(self).nb_ciphertexts ==> (#[trigger] final(self).encoders@[i])
                    == old(self).encoders@[i],
            forall|i: int|
                0 <= i < old(self).nb_ciphertexts ==> (#[trigger] final(self).variances@[i])
                    == crate::variance::spec_variance_of_log2_std_dev(sk.log2_std_dev as int),
            forall|i: int|
                0 <= i < old(self).nb_ciphertexts ==> #[trigger] final(self).slot_phase(
                    i,
                    sk.val@,
                ) == wrap(plaintexts@[i] + noises@[i]),
    {
        let nb = self.nb_ciphertexts;
        let d = self.dimension;
        let mut parts: Vec<LWE> = Vec::new();
        let mut i: usize = 0;
        while i < nb
            invariant
                i <= nb,
                old(self).wf(),
                self == old(self),
                sk.wf(),
                d == old(self).dimension,
                d == sk.dimension,
                nb == old(self).nb_ciphertexts,
                plaintexts@.len() == nb,
                masks@.len() == nb,
                noises@.len() == nb,
                forall|k: int|
                    0 <= k < nb ==> (#[trigger] masks@[k])@.len() == sk.dimension,
                parts@.len() == i,
                forall|k: int|
                    0 <= k < i ==> (#[trigger] parts@[k]).wf() && parts@[k].dimension == d
                        && parts@[k].encoder == old(self).encoders@[k] && parts@[k].variance
                        == crate::variance::spec_variance_of_log2_std_dev(
                        sk.log2_std_dev as int,
                    ) && parts@[k].phase(sk.val@) == wrap(plaintexts@[k] + noises@[k]),
            decreases nb - i,
        {
            let mut one = self.extract_as_lwe(i);
            let mask = masks[i].clone();
            let res = one.encrypt_raw(sk, plaintexts[i], mask, noises[i]);
            proof {
                assert(res is Ok);
            }
            parts.push(one);
            i = i + 1;
        }
        let len = self.ciphertexts.len();
        proof {
            assert(len == nb * (d + 1));
        }
        let out = assemble(parts, d);
        proof {
            assert forall|k: int| 0 <= k < nb implies #[trigger] out.slot_phase(k, sk.val@)
                == wrap(plaintexts@[k] + noises@[k]) by {
                lemma_slot_range(nb as int, d as int, k);
                assert(out.ciphertexts@[k * (d + 1) + d] == parts@[k].ciphertext@[d as int]);
            }
        }
        *self = out;
        Ok(())
    }
}

} // verus!
