//! A single LWE ciphertext: `dimension` mask words and one body word, a
//! noise-variance estimate, and the encoder its phase is to be decoded
//! under.
//!
//! The lattice backend's contribution to encryption is randomness: the
//! uniform mask and the gaussian noise sample arrive as arguments, and
//! every contract here is exact for any choice of them. The homomorphic
//! operations themselves are ordinary wrapping integer arithmetic and are
//! computed, and verified, here.

use vstd::arithmetic::power2::pow2;
use vstd::math::abs;
use vstd::prelude::*;

use crate::bodies::{dot, dot_spec, wrap, wrap_add64, wrap_add_vec, wrap_mul64, wrap_neg_vec,
    wrap_scalar_mul_vec, wrap_sub64, wrap_sub_vec};
use crate::encoder::Encoder;
use crate::error::CryptoError;
use crate::fix::{Fix, MAX_UNITS};
use crate::lwe_secret_key::LWESecretKey;
use crate::variance::{spec_var_scaled_sq, spec_var_sum, Variance};

verus! {

/// One LWE ciphertext: the mask occupies entries `0 .. dimension` of
/// `ciphertext` and the body is the final entry.
#[derive(Clone, Debug, PartialEq)]
pub struct LWE {
    pub ciphertext: Vec<u64>,
    pub variance: Variance,
    pub dimension: usize,
    pub encoder: Encoder,
}

impl LWE {
    /// A positive mask length, one body word after the mask, a saturating
    /// variance estimate and a well-formed encoder.
    pub open spec fn wf(self) -> bool {
        &&& self.dimension >= 1
        &&& self.ciphertext@.len() == self.dimension + 1
        &&& self.variance.wf()
        &&& self.encoder.wf()
    }

    /// The body word.
    pub open spec fn body(self) -> int {
        self.ciphertext@[self.dimension as int] as int
    }

    /// The phase of the ciphertext under a key: the body minus the mask-key
    /// inner product, on the torus. Decryption decodes this value.
    pub open spec fn phase(self, key: Seq<u64>) -> int {
        wrap(self.body() - dot_spec(self.ciphertext@, key, self.dimension as int))
    }

    /// A zero-filled ciphertext of the given mask length, with a zeroed
    /// (invalid) encoder; `ZeroCiphertextsInStructureError` for an empty
    /// mask.
    pub fn zero(dimension: usize) -> (r: Result<LWE, CryptoError>)
        requires
            dimension < usize::MAX,
        ensures
            r is Ok <==> dimension >= 1,
            dimension == 0 ==> r == Err::<LWE, CryptoError>(
                CryptoError::ZeroCiphertextsInStructureError,
            ),
            r matches Ok(c) ==> c.wf() && c.dimension == dimension && c.variance.units == 0
                && c.encoder == (Encoder {
                o: Fix { units: 0 },
                delta: Fix { units: 0 },
                nb_bit_precision: 0,
                nb_bit_padding: 0,
                round: false,
            }) && !c.encoder.valid() && c.ciphertext@.len() == dimension + 1 && forall|i: int|
                0 <= i < c.ciphertext@.len() ==> #[trigger] c.ciphertext@[i] == 0u64,
    {
        if dimension == 0 {
            return Err(CryptoError::ZeroCiphertextsInStructureError);
        }
        let mut ciphertext: Vec<u64> = Vec::new();
        let mut i: usize = 0;
        while i < dimension + 1
            invariant
                i <= dimension + 1,
                dimension < usize::MAX,
                ciphertext@.len() == i,
                forall|j: int| 0 <= j < i ==> #[trigger] ciphertext@[j] == 0u64,
            decreases dimension + 1 - i,
        {
            ciphertext.push(0u64);
            i = i + 1;
        }
        Ok(LWE {
            ciphertext,
            variance: Variance::zero(),
            dimension,
            encoder: Encoder::zero(),
        })
    }

    /// The number of words one ciphertext occupies: the mask plus the body.
    pub fn get_ciphertext_size(&self) -> (r: usize)
        requires
            self.dimension < usize::MAX,
        ensures
            r == self.dimension + 1,
    {
        self.dimension + 1
    }

    /// Fills this ciphertext with an encryption of the raw torus value
    /// `plaintext` under `sk`: the body becomes the mask-key inner product
    /// plus the plaintext plus the noise sample, and the variance becomes
    /// the key's fresh-noise variance. The uniform `mask` and gaussian
    /// `noise` come from the caller's randomness source.
    pub fn encrypt_raw(&mut self, sk: &LWESecretKey, plaintext: u64, mask: Vec<u64>, noise:
        u64) -> (r: Result<(), CryptoError>)
        requires
            old(self).wf(),
            sk.wf(),
            old(self).dimension == sk.dimension,
            mask@.len() == sk.dimension,
        ensures
            r is Ok,
            final(self).wf(),
            final(self).dimension == old(self).dimension,
            final(self).encoder == old(self).encoder,
            final(self).variance == crate::variance::spec_variance_of_log2_std_dev(
                sk.log2_std_dev as int,
            ),
            final(self).ciphertext@.len() == old(self).dimension + 1,
            forall|i: int|
                0 <= i < old(self).dimension ==> #[trigger] final(self).ciphertext@[i]
                    == mask@[i],
            final(self).body() == wrap(
                dot_spec(mask@, sk.val@, sk.dimension as int) + plaintext + noise,
            ),
            final(self).phase(sk.val@) == wrap(plaintext as int + noise as int),
    {
        let d = sk.dimension;
        let prod = dot(&mask, &sk.val, d);
        let body = wrap_add64(wrap_add64(prod, plaintext), noise);
        let mut ciphertext = mask;
        ciphertext.push(body);
        self.ciphertext = ciphertext;
        self.variance = sk.get_variance();
        proof {
            let dd = sk.dimension as int;
            let prodv = dot_spec(mask@, sk.val@, dd);
            crate::bodies::lemma_wrap_add_absorb(noise as int, prodv + plaintext as int);
            lemma_dot_ignores_tail(self.ciphertext@, mask@, sk.val@, dd);
            lemma_phase_of_fresh(prodv, plaintext as int, noise as int);
        }
        Ok(())
    }

    /// Encodes a message under `encoder` and encrypts it under `sk`, in one
    /// step; fails exactly as the strict encode does. The uniform `mask`
    /// and gaussian `noise` come from the caller's randomness source.
    pub fn encode_encrypt(sk: &LWESecretKey, message: Fix, encoder: &Encoder, mask: Vec<u64>,
        noise: u64) -> (r: Result<LWE, CryptoError>)
        requires
            sk.wf(),
            1 <= sk.dimension < usize::MAX,
            encoder.wf(),
            message.bounded(),
            mask@.len() == sk.dimension,
        ensures
            r is Ok <==> crate::plaintext::encode_err(*encoder, message.units as int) is None,
            r matches Err(er) ==> crate::plaintext::encode_err(*encoder, message.units as int)
                == Some(er),
            r matches Ok(c) ==> c.wf() && c.dimension == sk.dimension && c.encoder == *encoder
                && c.variance == crate::variance::spec_variance_of_log2_std_dev(
                sk.log2_std_dev as int,
            ) && c.phase(sk.val@) == wrap(
                encoder.encode_spec(message.units as int) + noise as int,
            ),
    {
        let plaintext = match encoder.encode_core(message) {
            Ok(t) => t,
            Err(er) => {
                return Err(er);
            },
        };
        let mut c = match LWE::zero(sk.dimension) {
            Ok(c) => c,
            Err(er) => {
                return Err(er);
            },
        };
        c.encoder = *encoder;
        let res = c.encrypt_raw(sk, plaintext, mask, noise);
        proof {
            crate::bodies::lemma_wrap_add_absorb(
                noise as int,
                encoder.encode_spec(message.units as int),
            );
        }
        match res {
            Ok(()) => Ok(c),
            Err(er) => Err(er),
        }
    }

    /// Computes the phase under `sk` and decodes it with this ciphertext's
    /// encoder; `DimensionError` when the key does not fit the mask.
    pub fn decrypt_decode(&self, sk: &LWESecretKey) -> (r: Result<Fix, CryptoError>)
        requires
            self.wf(),
            sk.wf(),
        ensures
            self.dimension != sk.dimension ==> r == Err::<Fix, CryptoError>(
                CryptoError::DimensionError,
            ),
            self.dimension == sk.dimension && !self.encoder.valid() ==> r == Err::<
                Fix,
                CryptoError,
            >(CryptoError::InvalidEncoderError),
            r is Ok <==> self.dimension == sk.dimension && self.encoder.valid(),
            r matches Ok(v) ==> v.units == self.encoder.decode_spec(self.phase(sk.val@)),
    {
        if self.dimension != sk.dimension {
            return Err(CryptoError::DimensionError);
        }
        let prod = dot(&self.ciphertext, &sk.val, self.dimension);
        let phase = wrap_sub64(self.ciphertext[self.dimension], prod);
        self.encoder.decode_core(phase)
    }

    /// Like [`LWE::decrypt_decode`], but decodes in a rounding context
    /// regardless of the encoder's own mode.
    pub fn decrypt_decode_round(&self, sk: &LWESecretKey) -> (r: Result<Fix, CryptoError>)
        requires
            self.wf(),
            sk.wf(),
        ensures
            self.dimension != sk.dimension ==> r == Err::<Fix, CryptoError>(
                CryptoError::DimensionError,
            ),
            r is Ok <==> self.dimension == sk.dimension && self.encoder.valid(),
            r matches Ok(v) ==> v.units == (Encoder { round: true, ..self.encoder }).decode_spec(
                self.phase(sk.val@),
            ),
    {
        if self.dimension != sk.dimension {
            return Err(CryptoError::DimensionError);
        }
        let prod = dot(&self.ciphertext, &sk.val, self.dimension);
        let phase = wrap_sub64(self.ciphertext[self.dimension], prod);
        let enc_round = Encoder { round: true, ..self.encoder };
        enc_round.decode_core(phase)
    }

    /// Adds a plaintext-domain constant into the body without touching the
    /// encoder. No range check is made beyond what the padding absorbs:
    /// keeping the sum representable is the caller's responsibility.
    pub fn add_constant_static_encoder(&self, message: Fix) -> (r: Result<LWE, CryptoError>)
        requires
            self.wf(),
            message.bounded(),
        ensures
            r is Ok <==> self.encoder.valid(),
            !self.encoder.valid() ==> r == Err::<LWE, CryptoError>(
                CryptoError::InvalidEncoderError,
            ),
            r matches Ok(c) ==> c.wf() && c.dimension == self.dimension && c.encoder
                == self.encoder && c.variance == self.variance && c.ciphertext@.len()
                == self.ciphertext@.len() && (forall|i: int|
                0 <= i < self.dimension ==> #[trigger] c.ciphertext@[i] == self.ciphertext@[i])
                && c.body() == wrap(
                self.body() + (Encoder { o: Fix { units: 0 }, ..self.encoder }).encode_spec(
                    message.units as int,
                ),
            ),
    {
        let tmp_enc = Encoder { o: Fix::zero(), ..self.encoder };
        let t = match tmp_enc.encode_outside_interval_operators(message) {
            Ok(t) => t,
            Err(er) => {
                return Err(er);
            },
        };
        let mut out = self.clone_ciphertext();
        let body = wrap_add64(out.ciphertext[out.dimension], t);
        let d = out.dimension;
        out.ciphertext.set(d, body);
        Ok(out)
    }

    /// In-place form of [`LWE::add_constant_static_encoder`]; on failure
    /// the ciphertext is unchanged.
    pub fn add_constant_static_encoder_inplace(&mut self, message: Fix) -> (r: Result<
        (),
        CryptoError,
    >)
        requires
            old(self).wf(),
            message.bounded(),
        ensures
            r is Ok <==> old(self).encoder.valid(),
            r is Err ==> *final(self) == *old(self) && r == Err::<(), CryptoError>(
                CryptoError::InvalidEncoderError,
            ),
            r is Ok ==> final(self).wf() && final(self).dimension == old(self).dimension
                && final(self).encoder == old(self).encoder && final(self).variance == old(
                self,
            ).variance && final(self).ciphertext@.len() == old(self).ciphertext@.len() && (
            forall|i: int|
                0 <= i < old(self).dimension ==> #[trigger] final(self).ciphertext@[i] == old(
                    self,
                ).ciphertext@[i]) && final(self).body() == wrap(
                old(self).body() + (Encoder { o: Fix { units: 0 }, ..old(self).encoder
                }).encode_spec(message.units as int),
            ),
    {
        match self.add_constant_static_encoder(message) {
            Ok(c) => {
                *self = c;
                Ok(())
            },
            Err(er) => Err(er),
        }
    }

    /// Adds a constant by translating the encoder's interval: the body is
    /// untouched and the offset moves by the message.
    pub fn add_constant_dynamic_encoder(&self, message: Fix) -> (r: Result<LWE, CryptoError>)
        requires
            self.wf(),
            -MAX_UNITS <= self.encoder.o.units + message.units <= MAX_UNITS,
        ensures
            r is Ok <==> self.encoder.valid(),
            !self.encoder.valid() ==> r == Err::<LWE, CryptoError>(
                CryptoError::InvalidEncoderError,
            ),
            r matches Ok(c) ==> c.wf() && c.dimension == self.dimension && c.variance
                == self.variance && c.ciphertext@ == self.ciphertext@ && c.encoder == (Encoder {
                o: Fix { units: (self.encoder.o.units + message.units) as i128 },
                ..self.encoder
            }),
    {
        if !self.encoder.is_valid() {
            return Err(CryptoError::InvalidEncoderError);
        }
        let mut out = self.clone_ciphertext();
        out.encoder.o = Fix::from_units(self.encoder.o.units + message.units);
        Ok(out)
    }

    /// In-place form of [`LWE::add_constant_dynamic_encoder`]; on failure
    /// the ciphertext is unchanged.
    pub fn add_constant_dynamic_encoder_inplace(&mut self, message: Fix) -> (r: Result<
        (),
        CryptoError,
    >)
        requires
            old(self).wf(),
            -MAX_UNITS <= old(self).encoder.o.units + message.units <= MAX_UNITS,
        ensures
            r is Ok <==> old(self).encoder.valid(),
            r is Err ==> *final(self) == *old(self) && r == Err::<(), CryptoError>(
                CryptoError::InvalidEncoderError,
            ),
            r is Ok ==> final(self).wf() && final(self).dimension == old(self).dimension
                && final(self).variance == old(self).variance && final(self).ciphertext@ == old(
                self,
            ).ciphertext@ && final(self).encoder == (Encoder {
                o: Fix { units: (old(self).encoder.o.units + message.units) as i128 },
                ..old(self).encoder
            }),
    {
        match self.add_constant_dynamic_encoder(message) {
            Ok(c) => {
                *self = c;
                Ok(())
            },
            Err(er) => Err(er),
        }
    }

    /// An exact copy with a fresh ciphertext vector.
    fn clone_ciphertext(&self) -> (r: LWE)
        ensures
            r.ciphertext@ == self.ciphertext@,
            r.variance == self.variance,
            r.dimension == self.dimension,
            r.encoder == self.encoder,
    {
        let mut ciphertext: Vec<u64> = Vec::new();
        let mut i: usize = 0;
        while i < self.ciphertext.len()
            invariant
                i <= self.ciphertext@.len(),
                ciphertext@.len() == i,
                forall|j: int| 0 <= j < i ==> #[trigger] ciphertext@[j] == self.ciphertext@[j],
            decreases self.ciphertext@.len() - i,
        {
            ciphertext.push(self.ciphertext[i]);
            i = i + 1;
        }
        proof {
            assert(ciphertext@ =~= self.ciphertext@);
        }
        LWE {
            ciphertext,
            variance: self.variance,
            dimension: self.dimension,
            encoder: self.encoder,
        }
    }
}

/// The inner product over the first `n` entries does not read anything past
/// them: two vectors agreeing there have the same product.
proof fn lemma_dot_ignores_tail(a: Seq<u64>, b: Seq<u64>, key: Seq<u64>, n: int)
    requires
        0 <= n <= a.len(),
        n <= b.len(),
        forall|i: int| 0 <= i < n ==> a[i] == b[i],
    ensures
        dot_spec(a, key, n) == dot_spec(b, key, n),
    decreases n,
{
    if n > 0 {
        lemma_dot_ignores_tail(a, b, key, n - 1);
    }
}

/// The phase of a fresh encryption is the plaintext plus the noise: the
/// mask-key product cancels.
proof fn lemma_phase_of_fresh(prod: int, plaintext: int, noise: int)
    ensures
        wrap(wrap(wrap(prod + plaintext) + noise) - prod) == wrap(plaintext + noise),
{
    vstd::arithmetic::power2::lemma_pow2_pos(64);
    let p = vstd::arithmetic::power2::pow2(64) as int;
    crate::bodies::lemma_wrap_add_absorb(noise, wrap(prod + plaintext));
    crate::bodies::lemma_wrap_add_absorb(noise, prod + plaintext);
    // wrap(wrap(prod + plaintext + noise) - prod) == wrap(plaintext + noise)
    vstd::arithmetic::div_mod::lemma_sub_mod_noop(prod + plaintext + noise, prod, p);
    vstd::arithmetic::div_mod::lemma_mod_twice(prod + plaintext + noise, p);
    vstd::arithmetic::div_mod::lemma_sub_mod_noop(
        (prod + plaintext + noise) % p,
        prod,
        p,
    );
}

impl LWE {
    /// Homomorphic addition with a caller-chosen output interval start: the
    /// bodies are added, and a correction re-encodes the sum of the two old
    /// offsets under the new one so the same phase stays meaningful.
    pub fn add_with_new_min(&self, ct: &LWE, new_min: Fix) -> (r: Result<LWE, CryptoError>)
        requires
            self.wf(),
            ct.wf(),
            new_min.bounded(),
            -MAX_UNITS <= self.encoder.o.units + ct.encoder.o.units <= MAX_UNITS,
        ensures
            self.dimension != ct.dimension ==> r == Err::<LWE, CryptoError>(
                CryptoError::DimensionError,
            ),
            self.dimension == ct.dimension && self.encoder.delta != ct.encoder.delta ==> r
                == Err::<LWE, CryptoError>(CryptoError::DeltaError),
            self.dimension == ct.dimension && self.encoder.delta == ct.encoder.delta
                && self.encoder.nb_bit_padding != ct.encoder.nb_bit_padding ==> r == Err::<
                LWE,
                CryptoError,
            >(CryptoError::PaddingError),
            self.dimension == ct.dimension && self.encoder.delta == ct.encoder.delta
                && self.encoder.nb_bit_padding == ct.encoder.nb_bit_padding
                && self.encoder.nb_bit_padding == 0 ==> r == Err::<LWE, CryptoError>(
                CryptoError::NotEnoughPaddingError,
            ),
            self.dimension == ct.dimension && self.encoder.delta == ct.encoder.delta
                && self.encoder.nb_bit_padding == ct.encoder.nb_bit_padding
                && self.encoder.nb_bit_padding >= 1 && !self.encoder.valid() ==> r == Err::<
                LWE,
                CryptoError,
            >(CryptoError::InvalidEncoderError),
            r is Ok <==> self.dimension == ct.dimension && self.encoder.delta
                == ct.encoder.delta && self.encoder.nb_bit_padding == ct.encoder.nb_bit_padding
                && self.encoder.nb_bit_padding >= 1 && self.encoder.valid(),
            r matches Ok(c) ==> c.wf() && c.dimension == self.dimension && c.encoder == (Encoder {
                o: new_min,
                ..self.encoder
            }) && c.variance == spec_var_sum(self.variance, ct.variance)
                && c.ciphertext@.len() == self.dimension + 1 && (forall|i: int|
                0 <= i < self.dimension ==> #[trigger] c.ciphertext@[i] == wrap(
                    self.ciphertext@[i] + ct.ciphertext@[i],
                )) && c.body() == wrap(
                self.body() + ct.body() + (Encoder { o: new_min, ..self.encoder }).encode_spec(
                    self.encoder.o.units + ct.encoder.o.units,
                ),
            ),
    {
        if self.dimension != ct.dimension {
            return Err(CryptoError::DimensionError);
        }
        if self.encoder.delta.units != ct.encoder.delta.units
            || self.encoder.delta != ct.encoder.delta {
            return Err(CryptoError::DeltaError);
        }
        if self.encoder.nb_bit_padding != ct.encoder.nb_bit_padding {
            return Err(CryptoError::PaddingError);
        }
        if self.encoder.nb_bit_padding == 0 {
            return Err(CryptoError::NotEnoughPaddingError);
        }
        let tmp_enc = Encoder { o: new_min, ..self.encoder };
        let sum_o = Fix::from_units(self.encoder.o.units + ct.encoder.o.units);
        let t = match tmp_enc.encode_outside_interval_operators(sum_o) {
            Ok(t) => t,
            Err(er) => {
                return Err(er);
            },
        };
        let mut added = wrap_add_vec(&self.ciphertext, &ct.ciphertext);
        let d = self.dimension;
        let body = wrap_add64(added[d], t);
        added.set(d, body);
        proof {
            crate::bodies::lemma_wrap_add_absorb(
                t as int,
                self.body() + ct.body(),
            );
        }
        Ok(LWE {
            ciphertext: added,
            variance: self.variance.accumulate(ct.variance),
            dimension: self.dimension,
            encoder: tmp_enc,
        })
    }

    /// In-place form of [`LWE::add_with_new_min`]; on failure the
    /// ciphertext is unchanged.
    pub fn add_with_new_min_inplace(&mut self, ct: &LWE, new_min: Fix) -> (r: Result<
        (),
        CryptoError,
    >)
        requires
            old(self).wf(),
            ct.wf(),
            new_min.bounded(),
            -MAX_UNITS <= old(self).encoder.o.units + ct.encoder.o.units <= MAX_UNITS,
        ensures
            r is Ok <==> old(self).dimension == ct.dimension && old(self).encoder.delta
                == ct.encoder.delta && old(self).encoder.nb_bit_padding
                == ct.encoder.nb_bit_padding && old(self).encoder.nb_bit_padding >= 1 && old(
                self,
            ).encoder.valid(),
            r is Err ==> *final(self) == *old(self),
            r is Ok ==> final(self).wf() && final(self).dimension == old(self).dimension
                && final(self).encoder == (Encoder { o: new_min, ..old(self).encoder })
                && final(self).variance == spec_var_sum(old(self).variance, ct.variance) && (
            forall|i: int|
                0 <= i < old(self).dimension ==> #[trigger] final(self).ciphertext@[i] == wrap(
                    old(self).ciphertext@[i] + ct.ciphertext@[i],
                )) && final(self).body() == wrap(
                old(self).body() + ct.body() + (Encoder {
                    o: new_min,
                    ..old(self).encoder
                }).encode_spec(old(self).encoder.o.units + ct.encoder.o.units),
            ),
    {
        match self.add_with_new_min(ct, new_min) {
            Ok(c) => {
                *self = c;
                Ok(())
            },
            Err(er) => Err(er),
        }
    }

    /// Homomorphic addition whose output interval is centered at the sum of
    /// the two input centers: a correction recenters the phase by half the
    /// interval length.
    pub fn add_centered(&self, ct: &LWE) -> (r: Result<LWE, CryptoError>)
        requires
            self.wf(),
            ct.wf(),
            -MAX_UNITS <= self.encoder.o.units + ct.encoder.o.units,
            self.encoder.o.units + ct.encoder.o.units + self.encoder.delta.units / 2
                <= MAX_UNITS,
        ensures
            self.dimension != ct.dimension ==> r == Err::<LWE, CryptoError>(
                CryptoError::DimensionError,
            ),
            self.dimension == ct.dimension && self.encoder.delta != ct.encoder.delta ==> r
                == Err::<LWE, CryptoError>(CryptoError::DeltaError),
            self.dimension == ct.dimension && self.encoder.delta == ct.encoder.delta
                && self.encoder.nb_bit_padding != ct.encoder.nb_bit_padding ==> r == Err::<
                LWE,
                CryptoError,
            >(CryptoError::PaddingError),
            self.dimension == ct.dimension && self.encoder.delta == ct.encoder.delta
                && self.encoder.nb_bit_padding == ct.encoder.nb_bit_padding
                && self.encoder.nb_bit_padding == 0 ==> r == Err::<LWE, CryptoError>(
                CryptoError::NotEnoughPaddingError,
            ),
            self.dimension == ct.dimension && self.encoder.delta == ct.encoder.delta
                && self.encoder.nb_bit_padding == ct.encoder.nb_bit_padding
                && self.encoder.nb_bit_padding >= 1 && !self.encoder.valid() ==> r == Err::<
                LWE,
                CryptoError,
            >(CryptoError::InvalidEncoderError),
            r is Ok <==> self.dimension == ct.dimension && self.encoder.delta
                == ct.encoder.delta && self.encoder.nb_bit_padding == ct.encoder.nb_bit_padding
                && self.encoder.nb_bit_padding >= 1 && self.encoder.valid(),
            r matches Ok(c) ==> c.wf() && c.dimension == self.dimension && c.encoder == (Encoder {
                o: Fix {
                    units: (self.encoder.o.units + ct.encoder.o.units
                        + self.encoder.delta.units / 2) as i128,
                },
                ..self.encoder
            }) && c.variance == spec_var_sum(self.variance, ct.variance)
                && c.ciphertext@.len() == self.dimension + 1 && (forall|i: int|
                0 <= i < self.dimension ==> #[trigger] c.ciphertext@[i] == wrap(
                    self.ciphertext@[i] + ct.ciphertext@[i],
                )) && c.body() == wrap(
                self.body() + ct.body() - (Encoder {
                    o: Fix { units: 0 },
                    ..self.encoder
                }).encode_spec(self.encoder.delta.units as int / 2),
            ),
    {
        if self.dimension != ct.dimension {
            return Err(CryptoError::DimensionError);
        }
        if self.encoder.delta != ct.encoder.delta {
            return Err(CryptoError::DeltaError);
        }
        if self.encoder.nb_bit_padding != ct.encoder.nb_bit_padding {
            return Err(CryptoError::PaddingError);
        }
        if self.encoder.nb_bit_padding == 0 {
            return Err(CryptoError::NotEnoughPaddingError);
        }
        if !self.encoder.is_valid() {
            return Err(CryptoError::InvalidEncoderError);
        }
        let tmp_enc = Encoder { o: Fix::zero(), ..self.encoder };
        let half_delta = self.encoder.delta.half();
        let t = match tmp_enc.encode_core(half_delta) {
            Ok(t) => t,
            Err(er) => {
                return Err(er);
            },
        };
        let mut added = wrap_add_vec(&self.ciphertext, &ct.ciphertext);
        let d = self.dimension;
        let body = wrap_sub64(added[d], t);
        added.set(d, body);
        proof {
            lemma_wrap_sub_absorb(t as int, self.body() + ct.body());
        }
        Ok(LWE {
            ciphertext: added,
            variance: self.variance.accumulate(ct.variance),
            dimension: self.dimension,
            encoder: Encoder {
                o: Fix::from_units(
                    self.encoder.o.units + ct.encoder.o.units + half_delta.units,
                ),
                ..self.encoder
            },
        })
    }

    /// In-place form of [`LWE::add_centered`]; on failure the ciphertext is
    /// unchanged.
    pub fn add_centered_inplace(&mut self, ct: &LWE) -> (r: Result<(), CryptoError>)
        requires
            old(self).wf(),
            ct.wf(),
            -MAX_UNITS <= old(self).encoder.o.units + ct.encoder.o.units,
            old(self).encoder.o.units + ct.encoder.o.units + old(self).encoder.delta.units / 2
                <= MAX_UNITS,
        ensures
            r is Ok <==> old(self).dimension == ct.dimension && old(self).encoder.delta
                == ct.encoder.delta && old(self).encoder.nb_bit_padding
                == ct.encoder.nb_bit_padding && old(self).encoder.nb_bit_padding >= 1 && old(
                self,
            ).encoder.valid(),
            r is Err ==> *final(self) == *old(self),
            r is Ok ==> final(self).wf() && final(self).dimension == old(self).dimension
                && final(self).encoder == (Encoder {
                o: Fix {
                    units: (old(self).encoder.o.units + ct.encoder.o.units + old(
                        self,
                    ).encoder.delta.units / 2) as i128,
                },
                ..old(self).encoder
            }) && final(self).variance == spec_var_sum(old(self).variance, ct.variance) && (
            forall|i: int|
                0 <= i < old(self).dimension ==> #[trigger] final(self).ciphertext@[i] == wrap(
                    old(self).ciphertext@[i] + ct.ciphertext@[i],
                )) && final(self).body() == wrap(
                old(self).body() + ct.body() - (Encoder {
                    o: Fix { units: 0 },
                    ..old(self).encoder
                }).encode_spec(old(self).encoder.delta.units as int / 2),
            ),
    {
        match self.add_centered(ct) {
            Ok(c) => {
                *self = c;
                Ok(())
            },
            Err(er) => Err(er),
        }
    }
}

/// Subtracting a value already reduced modulo 2^64 gives the same result as
/// subtracting the value itself.
pub proof fn lemma_wrap_sub_absorb(t: int, a: int)
    ensures
        wrap(wrap(a) - t) == wrap(a - t),
{
    vstd::arithmetic::power2::lemma_pow2_pos(64);
    let p = vstd::arithmetic::power2::pow2(64) as int;
    vstd::arithmetic::div_mod::lemma_sub_mod_noop(a, t, p);
    vstd::arithmetic::div_mod::lemma_mod_twice(a, p);
    vstd::arithmetic::div_mod::lemma_sub_mod_noop(a % p, t, p);
}

impl LWE {
    /// Homomorphic addition that consumes one bit of padding from both
    /// operands; the result keeps the smaller precision. The output
    /// interval is `[o1 + o2, o1 + o2 + 2 * delta)`.
    pub fn add_with_padding(&self, ct: &LWE) -> (r: Result<LWE, CryptoError>)
        requires
            self.wf(),
            ct.wf(),
            -MAX_UNITS <= self.encoder.o.units + ct.encoder.o.units <= MAX_UNITS,
            2 * self.encoder.delta.units <= MAX_UNITS,
        ensures
            self.encoder.nb_bit_padding != ct.encoder.nb_bit_padding ==> r == Err::<
                LWE,
                CryptoError,
            >(CryptoError::PaddingError),
            self.encoder.nb_bit_padding == ct.encoder.nb_bit_padding
                && self.encoder.nb_bit_padding == 0 ==> r == Err::<LWE, CryptoError>(
                CryptoError::NotEnoughPaddingError,
            ),
            self.encoder.nb_bit_padding == ct.encoder.nb_bit_padding
                && self.encoder.nb_bit_padding >= 1 && self.encoder.delta != ct.encoder.delta
                ==> r == Err::<LWE, CryptoError>(CryptoError::DeltaError),
            self.encoder.nb_bit_padding == ct.encoder.nb_bit_padding
                && self.encoder.nb_bit_padding >= 1 && self.encoder.delta == ct.encoder.delta
                && self.dimension != ct.dimension ==> r == Err::<LWE, CryptoError>(
                CryptoError::DimensionError,
            ),
            r is Ok <==> self.encoder.nb_bit_padding == ct.encoder.nb_bit_padding
                && self.encoder.nb_bit_padding >= 1 && self.encoder.delta == ct.encoder.delta
                && self.dimension == ct.dimension,
            r matches Ok(c) ==> c.wf() && c.dimension == self.dimension && c.encoder == (Encoder {
                o: Fix { units: (self.encoder.o.units + ct.encoder.o.units) as i128 },
                delta: Fix { units: (2 * self.encoder.delta.units) as i128 },
                nb_bit_precision: if self.encoder.nb_bit_precision
                    <= ct.encoder.nb_bit_precision {
                    self.encoder.nb_bit_precision
                } else {
                    ct.encoder.nb_bit_precision
                },
                nb_bit_padding: (self.encoder.nb_bit_padding - 1) as usize,
                round: self.encoder.round,
            }) && c.variance == spec_var_sum(self.variance, ct.variance)
                && c.ciphertext@.len() == self.dimension + 1 && forall|i: int|
                0 <= i <= self.dimension ==> #[trigger] c.ciphertext@[i] == wrap(
                    self.ciphertext@[i] + ct.ciphertext@[i],
                ),
    {
        if self.encoder.nb_bit_padding != ct.encoder.nb_bit_padding {
            return Err(CryptoError::PaddingError);
        }
        if self.encoder.nb_bit_padding == 0 {
            return Err(CryptoError::NotEnoughPaddingError);
        }
        if self.encoder.delta != ct.encoder.delta {
            return Err(CryptoError::DeltaError);
        }
        if self.dimension != ct.dimension {
            return Err(CryptoError::DimensionError);
        }
        let added = wrap_add_vec(&self.ciphertext, &ct.ciphertext);
        let precision = if self.encoder.nb_bit_precision <= ct.encoder.nb_bit_precision {
            self.encoder.nb_bit_precision
        } else {
            ct.encoder.nb_bit_precision
        };
        Ok(LWE {
            ciphertext: added,
            variance: self.variance.accumulate(ct.variance),
            dimension: self.dimension,
            encoder: Encoder {
                o: Fix::from_units(self.encoder.o.units + ct.encoder.o.units),
                delta: Fix::from_units(2 * self.encoder.delta.units),
                nb_bit_precision: precision,
                nb_bit_padding: self.encoder.nb_bit_padding - 1,
                round: self.encoder.round,
            },
        })
    }

    /// Like [`LWE::add_with_padding`], but the result precision grows to
    /// the larger input precision plus one, trading padding for precision.
    pub fn add_with_padding_exact(&self, ct: &LWE) -> (r: Result<LWE, CryptoError>)
        requires
            self.wf(),
            ct.wf(),
            -MAX_UNITS <= self.encoder.o.units + ct.encoder.o.units <= MAX_UNITS,
            2 * self.encoder.delta.units <= MAX_UNITS,
        ensures
            self.encoder.nb_bit_padding != ct.encoder.nb_bit_padding ==> r == Err::<
                LWE,
                CryptoError,
            >(CryptoError::PaddingError),
            self.encoder.nb_bit_padding == ct.encoder.nb_bit_padding
                && self.encoder.nb_bit_padding == 0 ==> r == Err::<LWE, CryptoError>(
                CryptoError::NotEnoughPaddingError,
            ),
            self.encoder.nb_bit_padding == ct.encoder.nb_bit_padding
                && self.encoder.nb_bit_padding >= 1 && self.encoder.delta != ct.encoder.delta
                ==> r == Err::<LWE, CryptoError>(CryptoError::DeltaError),
            self.encoder.nb_bit_padding == ct.encoder.nb_bit_padding
                && self.encoder.nb_bit_padding >= 1 && self.encoder.delta == ct.encoder.delta
                && self.dimension != ct.dimension ==> r == Err::<LWE, CryptoError>(
                CryptoError::DimensionError,
            ),
            r is Ok <==> self.encoder.nb_bit_padding == ct.encoder.nb_bit_padding
                && self.encoder.nb_bit_padding >= 1 && self.encoder.delta == ct.encoder.delta
                && self.dimension == ct.dimension,
            r matches Ok(c) ==> c.wf() && c.dimension == self.dimension && c.encoder == (Encoder {
                o: Fix { units: (self.encoder.o.units + ct.encoder.o.units) as i128 },
                delta: Fix { units: (2 * self.encoder.delta.units) as i128 },
                nb_bit_precision: (if self.encoder.nb_bit_precision
                    >= ct.encoder.nb_bit_precision {
                    self.encoder.nb_bit_precision + 1
                } else {
                    ct.encoder.nb_bit_precision + 1
                }) as usize,
                nb_bit_padding: (self.encoder.nb_bit_padding - 1) as usize,
                round: self.encoder.round,
            }) && c.variance == spec_var_sum(self.variance, ct.variance)
                && c.ciphertext@.len() == self.dimension + 1 && forall|i: int|
                0 <= i <= self.dimension ==> #[trigger] c.ciphertext@[i] == wrap(
                    self.ciphertext@[i] + ct.ciphertext@[i],
                ),
    {
        if self.encoder.nb_bit_padding != ct.encoder.nb_bit_padding {
            return Err(CryptoError::PaddingError);
        }
        if self.encoder.nb_bit_padding == 0 {
            return Err(CryptoError::NotEnoughPaddingError);
        }
        if self.encoder.delta != ct.encoder.delta {
            return Err(CryptoError::DeltaError);
        }
        if self.dimension != ct.dimension {
            return Err(CryptoError::DimensionError);
        }
        let added = wrap_add_vec(&self.ciphertext, &ct.ciphertext);
        let precision = if self.encoder.nb_bit_precision >= ct.encoder.nb_bit_precision {
            self.encoder.nb_bit_precision + 1
        } else {
            ct.encoder.nb_bit_precision + 1
        };
        Ok(LWE {
            ciphertext: added,
            variance: self.variance.accumulate(ct.variance),
            dimension: self.dimension,
            encoder: Encoder {
                o: Fix::from_units(self.encoder.o.units + ct.encoder.o.units),
                delta: Fix::from_units(2 * self.encoder.delta.units),
                nb_bit_precision: precision,
                nb_bit_padding: self.encoder.nb_bit_padding - 1,
                round: self.encoder.round,
            },
        })
    }

    /// Homomorphic subtraction that consumes one bit of padding; the body
    /// takes a `2^(64 - padding)` correction so the difference lands in the
    /// interval `[o1 - o2 - delta, o1 - o2 + delta)`. The result keeps the
    /// smaller precision.
    pub fn sub_with_padding(&self, ct: &LWE) -> (r: Result<LWE, CryptoError>)
        requires
            self.wf(),
            ct.wf(),
            -MAX_UNITS <= self.encoder.o.units - ct.encoder.o.units - ct.encoder.delta.units
                <= MAX_UNITS,
            2 * self.encoder.delta.units <= MAX_UNITS,
        ensures
            self.encoder.nb_bit_padding != ct.encoder.nb_bit_padding ==> r == Err::<
                LWE,
                CryptoError,
            >(CryptoError::PaddingError),
            self.encoder.nb_bit_padding == ct.encoder.nb_bit_padding
                && self.encoder.nb_bit_padding == 0 ==> r == Err::<LWE, CryptoError>(
                CryptoError::NotEnoughPaddingError,
            ),
            self.encoder.nb_bit_padding == ct.encoder.nb_bit_padding
                && self.encoder.nb_bit_padding >= 1 && self.encoder.delta != ct.encoder.delta
                ==> r == Err::<LWE, CryptoError>(CryptoError::DeltaError),
            self.encoder.nb_bit_padding == ct.encoder.nb_bit_padding
                && self.encoder.nb_bit_padding >= 1 && self.encoder.delta == ct.encoder.delta
                && self.dimension != ct.dimension ==> r == Err::<LWE, CryptoError>(
                CryptoError::DimensionError,
            ),
            r is Ok <==> self.encoder.nb_bit_padding == ct.encoder.nb_bit_padding
                && self.encoder.nb_bit_padding >= 1 && self.encoder.delta == ct.encoder.delta
                && self.dimension == ct.dimension,
            r matches Ok(c) ==> c.wf() && c.dimension == self.dimension && c.encoder == (Encoder {
                o: Fix {
                    units: (self.encoder.o.units - ct.encoder.o.units
                        - ct.encoder.delta.units) as i128,
                },
                delta: Fix { units: (2 * self.encoder.delta.units) as i128 },
                nb_bit_precision: if self.encoder.nb_bit_precision
                    <= ct.encoder.nb_bit_precision {
                    self.encoder.nb_bit_precision
                } else {
                    ct.encoder.nb_bit_precision
                },
                nb_bit_padding: (self.encoder.nb_bit_padding - 1) as usize,
                round: self.encoder.round,
            }) && c.variance == spec_var_sum(self.variance, ct.variance)
                && c.ciphertext@.len() == self.dimension + 1 && (forall|i: int|
                0 <= i < self.dimension ==> #[trigger] c.ciphertext@[i] == wrap(
                    self.ciphertext@[i] - ct.ciphertext@[i],
                )) && c.body() == wrap(
                self.body() - ct.body() + pow2_int((64 - self.encoder.nb_bit_padding) as nat),
            ),
    {
        if self.encoder.nb_bit_padding != ct.encoder.nb_bit_padding {
            return Err(CryptoError::PaddingError);
        }
        if self.encoder.nb_bit_padding == 0 {
            return Err(CryptoError::NotEnoughPaddingError);
        }
        if self.encoder.delta != ct.encoder.delta {
            return Err(CryptoError::DeltaError);
        }
        if self.dimension != ct.dimension {
            return Err(CryptoError::DimensionError);
        }
        let mut subbed = wrap_sub_vec(&self.ciphertext, &ct.ciphertext);
        proof {
            vstd::bits::lemma_u64_pow2_no_overflow(
                (64 - self.encoder.nb_bit_padding) as nat,
            );
            vstd::bits::lemma_u64_shl_is_mul(
                1u64,
                (64 - self.encoder.nb_bit_padding) as u64,
            );
        }
        let correction: u64 = 1u64 << ((64 - self.encoder.nb_bit_padding) as u64);
        let d = self.dimension;
        let body = wrap_add64(subbed[d], correction);
        subbed.set(d, body);
        let precision = if self.encoder.nb_bit_precision <= ct.encoder.nb_bit_precision {
            self.encoder.nb_bit_precision
        } else {
            ct.encoder.nb_bit_precision
        };
        proof {
            crate::bodies::lemma_wrap_add_absorb(
                correction as int,
                self.body() - ct.body(),
            );
        }
        Ok(LWE {
            ciphertext: subbed,
            variance: self.variance.accumulate(ct.variance),
            dimension: self.dimension,
            encoder: Encoder {
                o: Fix::from_units(
                    self.encoder.o.units - ct.encoder.o.units - ct.encoder.delta.units,
                ),
                delta: Fix::from_units(2 * self.encoder.delta.units),
                nb_bit_precision: precision,
                nb_bit_padding: self.encoder.nb_bit_padding - 1,
                round: self.encoder.round,
            },
        })
    }

    /// Like [`LWE::sub_with_padding`], but the result precision grows to
    /// the larger input precision plus one.
    pub fn sub_with_padding_exact(&self, ct: &LWE) -> (r: Result<LWE, CryptoError>)
        requires
            self.wf(),
            ct.wf(),
            -MAX_UNITS <= self.encoder.o.units - ct.encoder.o.units - ct.encoder.delta.units
                <= MAX_UNITS,
            2 * self.encoder.delta.units <= MAX_UNITS,
        ensures
            self.encoder.nb_bit_padding != ct.encoder.nb_bit_padding ==> r == Err::<
                LWE,
                CryptoError,
            >(CryptoError::PaddingError),
            self.encoder.nb_bit_padding == ct.encoder.nb_bit_padding
                && self.encoder.nb_bit_padding == 0 ==> r == Err::<LWE, CryptoError>(
                CryptoError::NotEnoughPaddingError,
            ),
            self.encoder.nb_bit_padding == ct.encoder.nb_bit_padding
                && self.encoder.nb_bit_padding >= 1 && self.encoder.delta != ct.encoder.delta
                ==> r == Err::<LWE, CryptoError>(CryptoError::DeltaError),
            self.encoder.nb_bit_padding == ct.encoder.nb_bit_padding
                && self.encoder.nb_bit_padding >= 1 && self.encoder.delta == ct.encoder.delta
                && self.dimension != ct.dimension ==> r == Err::<LWE, CryptoError>(
                CryptoError::DimensionError,
            ),
            r is Ok <==> self.encoder.nb_bit_padding == ct.encoder.nb_bit_padding
                && self.encoder.nb_bit_padding >= 1 && self.encoder.delta == ct.encoder.delta
                && self.dimension == ct.dimension,
            r matches Ok(c) ==> c.wf() && c.dimension == self.dimension && c.encoder == (Encoder {
                o: Fix {
                    units: (self.encoder.o.units - ct.encoder.o.units
                        - ct.encoder.delta.units) as i128,
                },
                delta: Fix { units: (2 * self.encoder.delta.units) as i128 },
                nb_bit_precision: (if self.encoder.nb_bit_precision
                    >= ct.encoder.nb_bit_precision {
                    self.encoder.nb_bit_precision + 1
                } else {
                    ct.encoder.nb_bit_precision + 1
                }) as usize,
                nb_bit_padding: (self.encoder.nb_bit_padding - 1) as usize,
                round: self.encoder.round,
            }) && c.variance == spec_var_sum(self.variance, ct.variance)
                && c.ciphertext@.len() == self.dimension + 1 && (forall|i: int|
                0 <= i < self.dimension ==> #[trigger] c.ciphertext@[i] == wrap(
                    self.ciphertext@[i] - ct.ciphertext@[i],
                )) && c.body() == wrap(
                self.body() - ct.body() + pow2_int((64 - self.encoder.nb_bit_padding) as nat),
            ),
    {
        if self.encoder.nb_bit_padding != ct.encoder.nb_bit_padding {
            return Err(CryptoError::PaddingError);
        }
        if self.encoder.nb_bit_padding == 0 {
            return Err(CryptoError::NotEnoughPaddingError);
        }
        if self.encoder.delta != ct.encoder.delta {
            return Err(CryptoError::DeltaError);
        }
        if self.dimension != ct.dimension {
            return Err(CryptoError::DimensionError);
        }
        let mut subbed = wrap_sub_vec(&self.ciphertext, &ct.ciphertext);
        proof {
            vstd::bits::lemma_u64_pow2_no_overflow(
                (64 - self.encoder.nb_bit_padding) as nat,
            );
            vstd::bits::lemma_u64_shl_is_mul(
                1u64,
                (64 - self.encoder.nb_bit_padding) as u64,
            );
        }
        let correction: u64 = 1u64 << ((64 - self.encoder.nb_bit_padding) as u64);
        let d = self.dimension;
        let body = wrap_add64(subbed[d], correction);
        subbed.set(d, body);
        let precision = if self.encoder.nb_bit_precision >= ct.encoder.nb_bit_precision {
            self.encoder.nb_bit_precision + 1
        } else {
            ct.encoder.nb_bit_precision + 1
        };
        proof {
            crate::bodies::lemma_wrap_add_absorb(
                correction as int,
                self.body() - ct.body(),
            );
        }
        Ok(LWE {
            ciphertext: subbed,
            variance: self.variance.accumulate(ct.variance),
            dimension: self.dimension,
            encoder: Encoder {
                o: Fix::from_units(
                    self.encoder.o.units - ct.encoder.o.units - ct.encoder.delta.units,
                ),
                delta: Fix::from_units(2 * self.encoder.delta.units),
                nb_bit_precision: precision,
                nb_bit_padding: self.encoder.nb_bit_padding - 1,
                round: self.encoder.round,
            },
        })
    }
}

impl LWE {
    /// Multiplies the phase by a small signed integer without changing the
    /// encoder: the whole ciphertext is scaled and the body corrected by
    /// the encoding of zero times the scalar less one, so the encoded value
    /// scales in place. Overflow beyond the padding headroom is the
    /// caller's responsibility.
    pub fn mul_constant_static_encoder(&self, message: i32) -> (r: Result<LWE, CryptoError>)
        requires
            self.wf(),
            message > i32::MIN,
        ensures
            r is Ok <==> self.encoder.valid(),
            !self.encoder.valid() ==> r == Err::<LWE, CryptoError>(
                CryptoError::InvalidEncoderError,
            ),
            r matches Ok(c) ==> c.wf() && c.dimension == self.dimension && c.encoder
                == self.encoder && c.variance == spec_var_scaled_sq(
                self.variance,
                abs(message as int) as int,
            ) && c.ciphertext@.len() == self.dimension + 1 && (forall|i: int|
                0 <= i < self.dimension ==> #[trigger] c.ciphertext@[i] == wrap(
                    self.ciphertext@[i] * message,
                )) && c.body() == wrap(
                self.body() * message - self.encoder.encode_spec(0) * (message - 1),
            ),
    {
        let z = match self.encoder.encode_outside_interval_operators(Fix::zero()) {
            Ok(z) => z,
            Err(er) => {
                return Err(er);
            },
        };
        let m64: i64 = message as i64;
        let mw: u64 = if m64 >= 0 {
            m64 as u64
        } else {
            crate::bodies::wrap_neg64((-m64) as u64)
        };
        let mw1: u64 = if m64 - 1 >= 0 {
            (m64 - 1) as u64
        } else {
            crate::bodies::wrap_neg64((1 - m64) as u64)
        };
        proof {
            crate::arith::lemma_scale_is_pow2();
            if m64 >= 0 {
                vstd::arithmetic::div_mod::lemma_small_mod(m64 as nat, pow2(64));
            }
            if m64 - 1 >= 0 {
                vstd::arithmetic::div_mod::lemma_small_mod((m64 - 1) as nat, pow2(64));
            }
            assert(mw as int == (message as int) % pow2_int(64));
            assert(mw1 as int == (message as int - 1) % pow2_int(64));
        }
        let m_abs: u64 = if message < 0 {
            (-m64) as u64
        } else {
            m64 as u64
        };
        let scaled = wrap_scalar_mul_vec(&self.ciphertext, mw);
        let cor = wrap_mul64(z, mw1);
        let d = self.dimension;
        let body = wrap_sub64(scaled[d], cor);
        let mut out_vec = scaled;
        out_vec.set(d, body);
        proof {
            let p = pow2_int(64);
            let zz = self.encoder.encode_spec(0);
            let mm = message as int;
            // Scaling by the truncated scalar equals scaling by the scalar.
            assert forall|i: int| 0 <= i < self.dimension implies #[trigger] out_vec@[i]
                == wrap(self.ciphertext@[i] * mm) by {
                vstd::arithmetic::div_mod::lemma_mul_mod_noop_right(
                    self.ciphertext@[i] as int,
                    mm,
                    p,
                );
            }
            vstd::arithmetic::div_mod::lemma_mul_mod_noop_right(self.body(), mm, p);
            vstd::arithmetic::div_mod::lemma_mul_mod_noop_right(zz, mm - 1, p);
            // The wrapped correction subtracts congruently.
            vstd::arithmetic::div_mod::lemma_sub_mod_noop(
                self.body() * mm,
                zz * (mm - 1),
                p,
            );
            vstd::arithmetic::div_mod::lemma_sub_mod_noop(
                (self.body() * mm) % p,
                (zz * (mm - 1)) % p,
                p,
            );
            vstd::arithmetic::div_mod::lemma_mod_twice(self.body() * mm, p);
            vstd::arithmetic::div_mod::lemma_mod_twice(zz * (mm - 1), p);
            vstd::arithmetic::div_mod::lemma_mod_twice(
                self.body() * mm - zz * (mm - 1),
                p,
            );
        }
        Ok(LWE {
            ciphertext: out_vec,
            variance: self.variance.scaled_by_sq(m_abs),
            dimension: self.dimension,
            encoder: self.encoder,
        })
    }

    /// In-place form of [`LWE::mul_constant_static_encoder`]; on failure
    /// the ciphertext is unchanged.
    pub fn mul_constant_static_encoder_inplace(&mut self, message: i32) -> (r: Result<
        (),
        CryptoError,
    >)
        requires
            old(self).wf(),
            message > i32::MIN,
        ensures
            r is Ok <==> old(self).encoder.valid(),
            r is Err ==> *final(self) == *old(self) && r == Err::<(), CryptoError>(
                CryptoError::InvalidEncoderError,
            ),
            r is Ok ==> final(self).wf() && final(self).dimension == old(self).dimension
                && final(self).encoder == old(self).encoder && final(self).variance
                == spec_var_scaled_sq(old(self).variance, abs(message as int) as int) && (forall|i: int|
                0 <= i < old(self).dimension ==> #[trigger] final(self).ciphertext@[i] == wrap(
                    old(self).ciphertext@[i] * message,
                )) && final(self).body() == wrap(
                old(self).body() * message - old(self).encoder.encode_spec(0) * (message - 1),
            ),
    {
        match self.mul_constant_static_encoder(message) {
            Ok(c) => {
                *self = c;
                Ok(())
            },
            Err(er) => Err(er),
        }
    }

    /// The body correction a homomorphic negation needs so the negated
    /// phase still decodes under the transformed encoder.
    pub open spec fn opposite_correction(e: Encoder) -> int {
        if e.nb_bit_padding >= 1 {
            pow2_int((64 - e.nb_bit_padding) as nat) - pow2_int(
                (64 - e.nb_bit_padding - e.nb_bit_precision) as nat,
            )
        } else {
            wrap(-pow2_int((64 - e.nb_bit_precision) as nat))
        }
    }

    /// Homomorphic negation: every word is negated and the body corrected,
    /// while the encoder's interval moves to `[-old_max, -old_max + delta)`.
    pub fn opposite(&self) -> (r: Result<LWE, CryptoError>)
        requires
            self.wf(),
            self.encoder.o.units + self.encoder.delta.units - self.encoder.granularity_units()
                <= MAX_UNITS,
        ensures
            r is Ok <==> self.encoder.valid(),
            !self.encoder.valid() ==> r == Err::<LWE, CryptoError>(
                CryptoError::InvalidEncoderError,
            ),
            r matches Ok(c) ==> c.wf() && c.dimension == self.dimension && c.variance
                == self.variance && c.encoder == (Encoder {
                o: Fix {
                    units: (-(self.encoder.o.units + self.encoder.delta.units
                        - self.encoder.granularity_units())) as i128,
                },
                ..self.encoder
            }) && c.ciphertext@.len() == self.dimension + 1 && (forall|i: int|
                0 <= i < self.dimension ==> #[trigger] c.ciphertext@[i] == wrap(
                    -self.ciphertext@[i],
                )) && c.body() == wrap(-self.body() + LWE::opposite_correction(self.encoder)),
    {
        if !self.encoder.is_valid() {
            return Err(CryptoError::InvalidEncoderError);
        }
        let negged = wrap_neg_vec(&self.ciphertext);
        let p = self.encoder.nb_bit_precision;
        let pad = self.encoder.nb_bit_padding;
        proof {
            crate::arith::lemma_scale_is_pow2();
            vstd::bits::lemma_u64_pow2_no_overflow((64 - pad - p) as nat);
            vstd::bits::lemma_u64_shl_is_mul(1u64, (64 - pad - p) as u64);
            if pad >= 1 {
                vstd::bits::lemma_u64_pow2_no_overflow((64 - pad) as nat);
                vstd::bits::lemma_u64_shl_is_mul(1u64, (64 - pad) as u64);
                vstd::arithmetic::power2::lemma_pow2_strictly_increases(
                    (64 - pad - p) as nat,
                    (64 - pad) as nat,
                );
            }
        }
        let cor: u64 = if pad >= 1 {
            (1u64 << ((64 - pad) as u64)) - (1u64 << ((64 - pad - p) as u64))
        } else {
            crate::bodies::wrap_neg64(1u64 << ((64 - p) as u64))
        };
        let d = self.dimension;
        let body = wrap_add64(negged[d], cor);
        let mut out_vec = negged;
        out_vec.set(d, body);
        let mut encoder = self.encoder;
        let res = encoder.opposite_inplace();
        proof {
            crate::bodies::lemma_wrap_add_absorb(cor as int, -self.body());
            crate::arith::lemma_scale_is_pow2();
            if pad >= 1 {
                vstd::arithmetic::div_mod::lemma_small_mod(cor as nat, pow2(64));
            } else {
                crate::bodies::lemma_wrap_add_congruent(
                    -self.body(),
                    cor as int,
                    -pow2_int((64 - p) as nat),
                );
            }
        }
        Ok(LWE {
            ciphertext: out_vec,
            variance: self.variance,
            dimension: self.dimension,
            encoder,
        })
    }

    /// In-place form of [`LWE::opposite`]; on failure the ciphertext is
    /// unchanged.
    pub fn opposite_inplace(&mut self) -> (r: Result<(), CryptoError>)
        requires
            old(self).wf(),
            old(self).encoder.o.units + old(self).encoder.delta.units - old(
                self,
            ).encoder.granularity_units() <= MAX_UNITS,
        ensures
            r is Ok <==> old(self).encoder.valid(),
            r is Err ==> *final(self) == *old(self) && r == Err::<(), CryptoError>(
                CryptoError::InvalidEncoderError,
            ),
            r is Ok ==> final(self).wf() && final(self).dimension == old(self).dimension
                && final(self).variance == old(self).variance && final(self).encoder == (Encoder {
                o: Fix {
                    units: (-(old(self).encoder.o.units + old(self).encoder.delta.units - old(
                        self,
                    ).encoder.granularity_units())) as i128,
                },
                ..old(self).encoder
            }) && (forall|i: int|
                0 <= i < old(self).dimension ==> #[trigger] final(self).ciphertext@[i] == wrap(
                    -old(self).ciphertext@[i],
                )) && final(self).body() == wrap(
                -old(self).body() + LWE::opposite_correction(old(self).encoder),
            ),
    {
        match self.opposite() {
            Ok(c) => {
                *self = c;
                Ok(())
            },
            Err(er) => Err(er),
        }
    }

    /// Gives up `nb` bits of padding: every word is shifted left, shrinking
    /// future headroom without changing what the ciphertext encodes.
    pub fn remove_padding_inplace(&mut self, nb: usize) -> (r: Result<(), CryptoError>)
        requires
            old(self).wf(),
            nb < 64,
        ensures
            old(self).encoder.nb_bit_padding < nb ==> r == Err::<(), CryptoError>(
                CryptoError::NotEnoughPaddingError,
            ) && *final(self) == *old(self),
            r is Ok <==> old(self).encoder.nb_bit_padding >= nb,
            r is Ok ==> final(self).wf() && final(self).dimension == old(self).dimension
                && final(self).encoder == (Encoder {
                nb_bit_padding: (old(self).encoder.nb_bit_padding - nb) as usize,
                ..old(self).encoder
            }) && final(self).variance == spec_var_scaled_sq(
                old(self).variance,
                pow2_int(nb as nat),
            ) && final(self).ciphertext@.len() == old(self).ciphertext@.len() && forall|i: int|
                0 <= i <= old(self).dimension ==> #[trigger] final(self).ciphertext@[i] == wrap(
                    old(self).ciphertext@[i] * pow2_int(nb as nat),
                ),
    {
        if self.encoder.nb_bit_padding < nb {
            return Err(CryptoError::NotEnoughPaddingError);
        }
        proof {
            vstd::bits::lemma_u64_pow2_no_overflow(nb as nat);
            vstd::bits::lemma_u64_shl_is_mul(1u64, nb as u64);
        }
        let mult: u64 = 1u64 << (nb as u64);
        let scaled = wrap_scalar_mul_vec(&self.ciphertext, mult);
        self.ciphertext = scaled;
        self.encoder.nb_bit_padding = self.encoder.nb_bit_padding - nb;
        self.variance = self.variance.scaled_by_sq(mult);
        Ok(())
    }
}

impl LWE {
    /// In-place form of [`LWE::add_with_padding`]; on failure the
    /// ciphertext is unchanged.
    pub fn add_with_padding_inplace(&mut self, ct: &LWE) -> (r: Result<(), CryptoError>)
        requires
            old(self).wf(),
            ct.wf(),
            -MAX_UNITS <= old(self).encoder.o.units + ct.encoder.o.units <= MAX_UNITS,
            2 * old(self).encoder.delta.units <= MAX_UNITS,
        ensures
            r is Err ==> *final(self) == *old(self),
            r is Ok <==> old(self).encoder.nb_bit_padding == ct.encoder.nb_bit_padding && old(
                self,
            ).encoder.nb_bit_padding >= 1 && old(self).encoder.delta == ct.encoder.delta && old(
                self,
            ).dimension == ct.dimension,
            r is Ok ==> final(self).wf() && final(self).dimension == old(self).dimension
                && final(self).encoder == (Encoder {
                o: Fix { units: (old(self).encoder.o.units + ct.encoder.o.units) as i128 },
                delta: Fix { units: (2 * old(self).encoder.delta.units) as i128 },
                nb_bit_precision: if old(self).encoder.nb_bit_precision
                    <= ct.encoder.nb_bit_precision {
                    old(self).encoder.nb_bit_precision
                } else {
                    ct.encoder.nb_bit_precision
                },
                nb_bit_padding: (old(self).encoder.nb_bit_padding - 1) as usize,
                round: old(self).encoder.round,
            }) && final(self).variance == spec_var_sum(old(self).variance, ct.variance)
                && forall|i: int|
                0 <= i <= old(self).dimension ==> #[trigger] final(self).ciphertext@[i] == wrap(
                    old(self).ciphertext@[i] + ct.ciphertext@[i],
                ),
    {
        match self.add_with_padding(ct) {
            Ok(c) => {
                *self = c;
                Ok(())
            },
            Err(er) => Err(er),
        }
    }

    /// In-place form of [`LWE::add_with_padding_exact`]; on failure the
    /// ciphertext is unchanged.
    pub fn add_with_padding_exact_inplace(&mut self, ct: &LWE) -> (r: Result<(), CryptoError>)
        requires
            old(self).wf(),
            ct.wf(),
            -MAX_UNITS <= old(self).encoder.o.units + ct.encoder.o.units <= MAX_UNITS,
            2 * old(self).encoder.delta.units <= MAX_UNITS,
        ensures
            r is Err ==> *final(self) == *old(self),
            r is Ok <==> old(self).encoder.nb_bit_padding == ct.encoder.nb_bit_padding && old(
                self,
            ).encoder.nb_bit_padding >= 1 && old(self).encoder.delta == ct.encoder.delta && old(
                self,
            ).dimension == ct.dimension,
            r is Ok ==> final(self).wf() && final(self).dimension == old(self).dimension
                && final(self).encoder == (Encoder {
                o: Fix { units: (old(self).encoder.o.units + ct.encoder.o.units) as i128 },
                delta: Fix { units: (2 * old(self).encoder.delta.units) as i128 },
                nb_bit_precision: (if old(self).encoder.nb_bit_precision
                    >= ct.encoder.nb_bit_precision {
                    old(self).encoder.nb_bit_precision + 1
                } else {
                    ct.encoder.nb_bit_precision + 1
                }) as usize,
                nb_bit_padding: (old(self).encoder.nb_bit_padding - 1) as usize,
                round: old(self).encoder.round,
            }) && final(self).variance == spec_var_sum(old(self).variance, ct.variance)
                && forall|i: int|
                0 <= i <= old(self).dimension ==> #[trigger] final(self).ciphertext@[i] == wrap(
                    old(self).ciphertext@[i] + ct.ciphertext@[i],
                ),
    {
        match self.add_with_padding_exact(ct) {
            Ok(c) => {
                *self = c;
                Ok(())
            },
            Err(er) => Err(er),
        }
    }

    /// In-place form of [`LWE::sub_with_padding`]; on failure the
    /// ciphertext is unchanged.
    pub fn sub_with_padding_inplace(&mut self, ct: &LWE) -> (r: Result<(), CryptoError>)
        requires
            old(self).wf(),
            ct.wf(),
            -MAX_UNITS <= old(self).encoder.o.units - ct.encoder.o.units
                - ct.encoder.delta.units <= MAX_UNITS,
            2 * old(self).encoder.delta.units <= MAX_UNITS,
        ensures
            r is Err ==> *final(self) == *old(self),
            r is Ok <==> old(self).encoder.nb_bit_padding == ct.encoder.nb_bit_padding && old(
                self,
            ).encoder.nb_bit_padding >= 1 && old(self).encoder.delta == ct.encoder.delta && old(
                self,
            ).dimension == ct.dimension,
            r is Ok ==> final(self).wf() && final(self).dimension == old(self).dimension
                && final(self).encoder == (Encoder {
                o: Fix {
                    units: (old(self).encoder.o.units - ct.encoder.o.units
                        - ct.encoder.delta.units) as i128,
                },
                delta: Fix { units: (2 * old(self).encoder.delta.units) as i128 },
                nb_bit_precision: if old(self).encoder.nb_bit_precision
                    <= ct.encoder.nb_bit_precision {
                    old(self).encoder.nb_bit_precision
                } else {
                    ct.encoder.nb_bit_precision
                },
                nb_bit_padding: (old(self).encoder.nb_bit_padding - 1) as usize,
                round: old(self).encoder.round,
            }) && final(self).variance == spec_var_sum(old(self).variance, ct.variance) && (
            forall|i: int|
                0 <= i < old(self).dimension ==> #[trigger] final(self).ciphertext@[i] == wrap(
                    old(self).ciphertext@[i] - ct.ciphertext@[i],
                )) && final(self).body() == wrap(
                old(self).body() - ct.body() + pow2_int(
                    (64 - old(self).encoder.nb_bit_padding) as nat,
                ),
            ),
    {
        match self.sub_with_padding(ct) {
            Ok(c) => {
                *self = c;
                Ok(())
            },
            Err(er) => Err(er),
        }
    }

    /// In-place form of [`LWE::sub_with_padding_exact`]; on failure the
    /// ciphertext is unchanged.
    pub fn sub_with_padding_exact_inplace(&mut self, ct: &LWE) -> (r: Result<(), CryptoError>)
        requires
            old(self).wf(),
            ct.wf(),
            -MAX_UNITS <= old(self).encoder.o.units - ct.encoder.o.units
                - ct.encoder.delta.units <= MAX_UNITS,
            2 * old(self).encoder.delta.units <= MAX_UNITS,
        ensures
            r is Err ==> *final(self) == *old(self),
            r is Ok <==> old(self).encoder.nb_bit_padding == ct.encoder.nb_bit_padding && old(
                self,
            ).encoder.nb_bit_padding >= 1 && old(self).encoder.delta == ct.encoder.delta && old(
                self,
            ).dimension == ct.dimension,
            r is Ok ==> final(self).wf() && final(self).dimension == old(self).dimension
                && final(self).encoder == (Encoder {
                o: Fix {
                    units: (old(self).encoder.o.units - ct.encoder.o.units
                        - ct.encoder.delta.units) as i128,
                },
                delta: Fix { units: (2 * old(self).encoder.delta.units) as i128 },
                nb_bit_precision: (if old(self).encoder.nb_bit_precision
                    >= ct.encoder.nb_bit_precision {
                    old(self).encoder.nb_bit_precision + 1
                } else {
                    ct.encoder.nb_bit_precision + 1
                }) as usize,
                nb_bit_padding: (old(self).encoder.nb_bit_padding - 1) as usize,
                round: old(self).encoder.round,
            }) && final(self).variance == spec_var_sum(old(self).variance, ct.variance) && (
            forall|i: int|
                0 <= i < old(self).dimension ==> #[trigger] final(self).ciphertext@[i] == wrap(
                    old(self).ciphertext@[i] - ct.ciphertext@[i],
                )) && final(self).body() == wrap(
                old(self).body() - ct.body() + pow2_int(
                    (64 - old(self).encoder.nb_bit_padding) as nat,
                ),
            ),
    {
        match self.sub_with_padding_exact(ct) {
            Ok(c) => {
                *self = c;
                Ok(())
            },
            Err(er) => Err(er),
        }
    }
}

/// `pow2` as an `int`, for use inside arithmetic expressions.
pub open spec fn pow2_int(e: nat) -> int {
    vstd::arithmetic::power2::pow2(e) as int
}

/// The number of doublings of `ng` that stay at or below `nd`, starting
/// the count at `k` and capped at 64: the floor base-two logarithm of
/// `nd / ng`, saturated.
pub open spec fn log2_ratio_from(ng: int, nd: int, k: nat) -> nat
    decreases 64 - k,
{
    if k >= 64 {
        64
    } else if ng * pow2((k + 1) as nat) as int > nd {
        k
    } else {
        log2_ratio_from(ng, nd, k + 1)
    }
}

/// Floor base-two logarithm of `nd / ng`, capped at 64.
pub fn log2_ratio(ng: i128, nd: i128) -> (r: usize)
    requires
        1 <= ng,
        0 <= nd,
    ensures
        r == log2_ratio_from(ng as int, nd as int, 0),
        r <= 64,
{
    let mut cur: i128 = ng;
    let mut k: usize = 0;
    proof {
        vstd::arithmetic::power2::lemma2_to64();
    }
    while k < 64 && cur <= nd / 2
        invariant
            0 <= k <= 64,
            1 <= ng,
            0 <= nd,
            cur == ng * pow2(k as nat),
            cur <= nd || k == 0,
            log2_ratio_from(ng as int, nd as int, 0) == log2_ratio_from(
                ng as int,
                nd as int,
                k as nat,
            ),
        decreases 64 - k,
    {
        proof {
            vstd::arithmetic::power2::lemma_pow2_adds(k as nat, 1);
            vstd::arithmetic::power2::lemma2_to64();
            assert(ng * pow2((k + 1) as nat) as int == cur * 2) by (nonlinear_arith)
                requires
                    cur == ng * pow2(k as nat),
                    pow2((k + 1) as nat) == pow2(k as nat) * 2,
            ;
            vstd::arithmetic::div_mod::lemma_fundamental_div_mod(nd as int, 2);
        }
        cur = cur * 2;
        k = k + 1;
    }
    proof {
        if k < 64 {
            vstd::arithmetic::power2::lemma_pow2_adds(k as nat, 1);
            assert(ng * pow2((k + 1) as nat) as int == cur * 2) by (nonlinear_arith)
                requires
                    cur == ng * pow2(k as nat),
                    pow2((k + 1) as nat) == pow2(k as nat) * 2,
            ;
            vstd::arithmetic::div_mod::lemma_fundamental_div_mod(nd as int, 2);
        }
    }
    k
}

/// The saturated floor logarithm is tight from above: when it stops below
/// the cap, one more doubling exceeds the numerator.
pub proof fn lemma_log2_ratio_upper(ng: int, nd: int, k: nat)
    requires
        1 <= ng,
        0 <= nd,
        log2_ratio_from(ng, nd, k) < 64,
        k <= 64,
    ensures
        ng * pow2((log2_ratio_from(ng, nd, k) + 1) as nat) as int > nd,
    decreases 64 - k,
{
    if k >= 64 {
    } else if ng * pow2((k + 1) as nat) as int > nd {
    } else {
        lemma_log2_ratio_upper(ng, nd, k + 1);
    }
}

/// The top grid point of an encoder's interval, in units.
pub open spec fn mul_old_max_units(e: Encoder) -> int {
    e.o.units + e.delta.units - e.granularity_units()
}

/// The derived interval start of a real-constant multiplication: the old
/// start scaled by the maximum constant, on the unit grid.
pub open spec fn mul_new_o_units(e: Encoder, max_constant: Fix) -> int {
    (e.o.units * max_constant.units) / (crate::arith::SCALE as int)
}

/// The derived interval top of a real-constant multiplication.
pub open spec fn mul_new_max_units(e: Encoder, max_constant: Fix) -> int {
    (mul_old_max_units(e) * max_constant.units) / (crate::arith::SCALE as int)
}

/// The discretized scalar: the constant's magnitude scaled to
/// `nb_bit_padding` bits of the maximum, rounded to nearest.
pub open spec fn mul_scal_of(c_abs: int, max_constant: Fix, nb_bit_padding: usize) -> int {
    crate::arith::round_div(
        c_abs * pow2(nb_bit_padding as nat) as int,
        max_constant.units as int,
    )
}

/// The real magnitude actually applied after discretization:
/// `scal * max_constant / 2^nb_bit_padding` on the unit grid.
pub open spec fn mul_ds_units(c_abs: int, max_constant: Fix, nb_bit_padding: usize) -> int {
    (mul_scal_of(c_abs, max_constant, nb_bit_padding) * max_constant.units) / pow2(
        nb_bit_padding as nat,
    ) as int
}

/// The discretization defect of the constant's magnitude.
pub open spec fn mul_err_units(c_abs: int, max_constant: Fix, nb_bit_padding: usize) -> int {
    abs(mul_ds_units(c_abs, max_constant, nb_bit_padding) - c_abs) as int
}

/// The larger endpoint magnitude of the input interval.
pub open spec fn mul_max_abs_units(e: Encoder) -> int {
    if mul_old_max_units(e) >= -e.o.units {
        mul_old_max_units(e)
    } else {
        -e.o.units
    }
}

/// The granularity the discretization noise leaves in the derived interval.
pub open spec fn mul_new_gran_units(e: Encoder, c_abs: int, max_constant: Fix,
    nb_bit_padding: usize) -> int {
    let sc = crate::arith::SCALE as int;
    let g = e.granularity_units();
    let ds = mul_ds_units(c_abs, max_constant, nb_bit_padding);
    let err = mul_err_units(c_abs, max_constant, nb_bit_padding);
    2 * (((g * err) / sc) / 2 + ((g / 2) * ds) / sc + (err * mul_max_abs_units(e)) / sc)
}

/// The effective precision of the derived encoder: the padding budget,
/// capped by the input precision and by the bits the discretization noise
/// leaves in the derived interval.
pub open spec fn mul_new_precision(e: Encoder, c_abs: int, max_constant: Fix,
    nb_bit_padding: usize) -> int {
    let pin = if nb_bit_padding <= e.nb_bit_precision {
        nb_bit_padding as int
    } else {
        e.nb_bit_precision as int
    };
    let ng = mul_new_gran_units(e, c_abs, max_constant, nb_bit_padding);
    let nd = mul_new_max_units(e, max_constant) - mul_new_o_units(e, max_constant);
    if ng <= 0 {
        pin
    } else {
        let lg = log2_ratio_from(ng, nd, 0) as int;
        if lg <= pin {
            lg
        } else {
            pin
        }
    }
}

/// The derived encoder of a real-constant multiplication, before the
/// negative-constant interval flip.
pub open spec fn mul_derived_encoder(e: Encoder, c_abs: int, max_constant: Fix,
    nb_bit_padding: usize) -> Encoder {
    Encoder {
        o: Fix { units: mul_new_o_units(e, max_constant) as i128 },
        delta: Fix {
            units: (mul_new_max_units(e, max_constant) - mul_new_o_units(
                e,
                max_constant,
            )) as i128,
        },
        nb_bit_precision: mul_new_precision(e, c_abs, max_constant, nb_bit_padding) as usize,
        nb_bit_padding: (e.nb_bit_padding - nb_bit_padding) as usize,
        round: e.round,
    }
}

/// When a real-constant multiplication succeeds: constant within bound,
/// zero inside the interval (strictly below the top), enough padding, a
/// usable input encoder, a nondegenerate derived interval that still
/// contains zero, and at least one message bit surviving the
/// discretization noise.
pub open spec fn mul_ok(e: Encoder, constant: Fix, max_constant: Fix, nb_bit_padding:
    usize) -> bool {
    &&& -max_constant.units <= constant.units <= max_constant.units
    &&& e.o.units <= 0
    &&& e.o.units + e.delta.units > 0
    &&& nb_bit_padding <= e.nb_bit_padding
    &&& e.nb_bit_precision >= 1
    &&& mul_new_o_units(e, max_constant) < mul_new_max_units(e, max_constant)
    &&& mul_new_max_units(e, max_constant) >= 1
    &&& mul_new_precision(e, abs(constant.units as int) as int, max_constant, nb_bit_padding) >= 1
}

impl LWE {
    /// The discretized scalar of a real-constant multiplication: the
    /// magnitude of the constant, scaled to `nb_bit_padding` bits of the
    /// maximum and rounded to nearest.
    pub open spec fn mul_scal(constant: Fix, max_constant: Fix, nb_bit_padding: usize) -> int {
        mul_scal_of(abs(constant.units as int) as int, max_constant, nb_bit_padding)
    }

    /// Multiplies by a real constant, consuming `nb_bit_padding` bits of
    /// padding to carry the widened result. Zero must lie inside the input
    /// interval, the constant within `[-max_constant, max_constant]`, and
    /// enough padding must remain. The phase is recentered on zero, scaled
    /// by the discretized constant, recentered in the derived interval, and
    /// negated (with correction and the interval flip) for a negative
    /// constant.
    #[verifier::rlimit(100)]
    #[verifier::spinoff_prover]
    pub fn mul_constant_with_padding(&self, constant: Fix, max_constant: Fix, nb_bit_padding:
        usize) -> (r: Result<LWE, CryptoError>)
        requires
            self.wf(),
            constant.units > i128::MIN,
            1 <= max_constant.units < crate::encoder::SQ_UNITS,
            -crate::encoder::SQ_UNITS <= self.encoder.o.units,
            self.encoder.o.units + self.encoder.delta.units <= crate::encoder::SQ_UNITS,
            self.encoder.delta.units <= crate::encoder::SQ_UNITS,
            1 <= nb_bit_padding,
        ensures
            r is Ok <==> mul_ok(self.encoder, constant, max_constant, nb_bit_padding),
            (constant.units > max_constant.units || constant.units < -max_constant.units) ==> r
                == Err::<LWE, CryptoError>(CryptoError::ConstantMaximumError),
            (-max_constant.units <= constant.units <= max_constant.units) && (
            self.encoder.o.units > 0 || self.encoder.o.units + self.encoder.delta.units < 0)
                ==> r == Err::<LWE, CryptoError>(CryptoError::ZeroInIntervalError),
            (-max_constant.units <= constant.units <= max_constant.units)
                && self.encoder.o.units <= 0 <= self.encoder.o.units
                + self.encoder.delta.units && self.encoder.nb_bit_padding < nb_bit_padding ==> r
                == Err::<LWE, CryptoError>(CryptoError::NotEnoughPaddingError),
            (-max_constant.units <= constant.units <= max_constant.units)
                && self.encoder.o.units <= 0 && self.encoder.o.units
                + self.encoder.delta.units == 0 && self.encoder.nb_bit_padding
                >= nb_bit_padding ==> r == Err::<LWE, CryptoError>(
                CryptoError::MessageOutsideIntervalError,
            ),
            (-max_constant.units <= constant.units <= max_constant.units)
                && self.encoder.o.units <= 0 && self.encoder.o.units
                + self.encoder.delta.units > 0 && self.encoder.nb_bit_padding
                >= nb_bit_padding && self.encoder.nb_bit_precision == 0 ==> r == Err::<
                LWE,
                CryptoError,
            >(CryptoError::InvalidEncoderError),
            (-max_constant.units <= constant.units <= max_constant.units)
                && self.encoder.o.units <= 0 && self.encoder.o.units
                + self.encoder.delta.units > 0 && self.encoder.nb_bit_padding
                >= nb_bit_padding && self.encoder.nb_bit_precision >= 1 && mul_new_max_units(
                self.encoder,
                max_constant,
            ) <= mul_new_o_units(self.encoder, max_constant) ==> r == Err::<LWE, CryptoError>(
                CryptoError::InvalidIntervalError,
            ),
            (-max_constant.units <= constant.units <= max_constant.units)
                && self.encoder.o.units <= 0 && self.encoder.o.units
                + self.encoder.delta.units > 0 && self.encoder.nb_bit_padding
                >= nb_bit_padding && self.encoder.nb_bit_precision >= 1 && mul_new_o_units(
                self.encoder,
                max_constant,
            ) < mul_new_max_units(self.encoder, max_constant) && mul_new_max_units(
                self.encoder,
                max_constant,
            ) <= 0 ==> r == Err::<LWE, CryptoError>(CryptoError::MessageOutsideIntervalError),
            (-max_constant.units <= constant.units <= max_constant.units)
                && self.encoder.o.units <= 0 && self.encoder.o.units
                + self.encoder.delta.units > 0 && self.encoder.nb_bit_padding
                >= nb_bit_padding && self.encoder.nb_bit_precision >= 1 && mul_new_o_units(
                self.encoder,
                max_constant,
            ) < mul_new_max_units(self.encoder, max_constant) && mul_new_max_units(
                self.encoder,
                max_constant,
            ) >= 1 && mul_new_precision(
                self.encoder,
                abs(constant.units as int) as int,
                max_constant,
                nb_bit_padding,
            ) == 0 ==> r == Err::<LWE, CryptoError>(CryptoError::InvalidEncoderError),
            r matches Ok(c) ==> c.wf() && c.dimension == self.dimension
                && c.ciphertext@.len() == self.dimension + 1 && c.variance
                == spec_var_scaled_sq(
                self.variance,
                LWE::mul_scal(constant, max_constant, nb_bit_padding),
            ),
            r matches Ok(c) ==> constant.units < 0 || c.encoder == mul_derived_encoder(
                self.encoder,
                abs(constant.units as int) as int,
                max_constant,
                nb_bit_padding,
            ) && (forall|i: int|
                0 <= i < self.dimension ==> #[trigger] c.ciphertext@[i] == wrap(
                    self.ciphertext@[i] * LWE::mul_scal(constant, max_constant, nb_bit_padding),
                )) && c.body() == wrap(
                (self.body() - self.encoder.encode_spec(0)) * LWE::mul_scal(
                    constant,
                    max_constant,
                    nb_bit_padding,
                ) + mul_derived_encoder(
                    self.encoder,
                    abs(constant.units as int) as int,
                    max_constant,
                    nb_bit_padding,
                ).encode_spec(0),
            ),
            r matches Ok(c) ==> constant.units >= 0 || c.encoder == (Encoder {
                o: Fix {
                    units: (-(mul_new_max_units(self.encoder, max_constant)
                        - mul_derived_encoder(
                        self.encoder,
                        abs(constant.units as int) as int,
                        max_constant,
                        nb_bit_padding,
                    ).granularity_units())) as i128,
                },
                ..mul_derived_encoder(
                    self.encoder,
                    abs(constant.units as int) as int,
                    max_constant,
                    nb_bit_padding,
                )
            }) && (forall|i: int|
                0 <= i < self.dimension ==> #[trigger] c.ciphertext@[i] == wrap(
                    -(self.ciphertext@[i] * LWE::mul_scal(
                        constant,
                        max_constant,
                        nb_bit_padding,
                    )),
                )) && c.body() == wrap(
                -((self.body() - self.encoder.encode_spec(0)) * LWE::mul_scal(
                    constant,
                    max_constant,
                    nb_bit_padding,
                ) + mul_derived_encoder(
                    self.encoder,
                    abs(constant.units as int) as int,
                    max_constant,
                    nb_bit_padding,
                ).encode_spec(0)) + LWE::opposite_correction(
                    mul_derived_encoder(
                        self.encoder,
                        abs(constant.units as int) as int,
                        max_constant,
                        nb_bit_padding,
                    ),
                ),
            ),
    {
        if constant.units > max_constant.units || constant.units < -max_constant.units {
            return Err(CryptoError::ConstantMaximumError);
        }
        if self.encoder.o.units > 0
            || self.encoder.o.units + self.encoder.delta.units < 0 {
            return Err(CryptoError::ZeroInIntervalError);
        }
        if self.encoder.nb_bit_padding < nb_bit_padding {
            return Err(CryptoError::NotEnoughPaddingError);
        }
        let negative: bool = constant.units < 0;
        let c_abs = constant.magnitude();

        // Recenter the phase on zero under the input encoder; this also
        // establishes that the encoder is valid, so at most 63 padding bits
        // are consumed.
        let tmp_sub = match self.encoder.encode_core(Fix::zero()) {
            Ok(t) => t,
            Err(er) => {
                return Err(er);
            },
        };
        // Discretize the constant against the maximum on the padding grid.
        let scal128 = crate::arith::div_round_shift(
            c_abs.units as u128,
            max_constant.units as u128,
            nb_bit_padding as u64,
        );
        proof {
            vstd::arithmetic::power2::lemma2_to64();
            vstd::arithmetic::power2::lemma2_to64_rest();
            if nb_bit_padding < 63 {
                vstd::arithmetic::power2::lemma_pow2_strictly_increases(
                    nb_bit_padding as nat,
                    63,
                );
            }
        }
        let scal: u64 = scal128 as u64;
        let ghost scv = LWE::mul_scal(constant, max_constant, nb_bit_padding);
        proof {
            assert(scal as int == scv);
        }
        let d = self.dimension;
        let mut words = self.clone_ciphertext().ciphertext;
        let b0 = wrap_sub64(words[d], tmp_sub);
        words.set(d, b0);
        // Scale every word by the discretized constant.
        let scaled = wrap_scalar_mul_vec(&words, scal);
        proof {
            let p = pow2_int(64);
            let z = self.encoder.encode_spec(0);
            // Scaling the wrapped recentred body equals scaling the exact one.
            vstd::arithmetic::div_mod::lemma_mul_mod_noop_left(self.body() - z, scv, p);
            vstd::arithmetic::div_mod::lemma_mod_twice(self.body() - z, p);
        }

        let mut encoder = match derive_mul_encoder(
            &self.encoder,
            c_abs,
            max_constant,
            nb_bit_padding,
            scal,
        ) {
            Ok(e) => e,
            Err(er) => {
                return Err(er);
            },
        };

        // Recenter in the new interval; fails when the derived interval no
        // longer reaches past zero or no message bit survives.
        proof {
            assert(encoder.o.units <= 0) by {
                assert(self.encoder.o.units * max_constant.units <= 0) by (nonlinear_arith)
                    requires
                        self.encoder.o.units <= 0,
                        max_constant.units >= 1,
                ;
                vstd::arithmetic::div_mod::lemma_div_is_ordered(
                    self.encoder.o.units * max_constant.units,
                    0,
                    crate::arith::SCALE as int,
                );
                vstd::arithmetic::div_mod::lemma_fundamental_div_mod_converse(
                    0,
                    crate::arith::SCALE as int,
                    0,
                    0,
                );
            }
        }
        let tmp_add = match encoder.encode_core(Fix::zero()) {
            Ok(t) => t,
            Err(er) => {
                return Err(er);
            },
        };
        let mut out_vec = scaled;
        let b1 = wrap_add64(out_vec[d], tmp_add);
        out_vec.set(d, b1);
        let variance = self.variance.scaled_by_sq(scal);
        proof {
            let z = self.encoder.encode_spec(0);
            let z2 = encoder.encode_spec(0);
            crate::bodies::lemma_wrap_add_absorb(z2, (self.body() - z) * scv);
        }

        if negative {
            let negged = crate::bodies::wrap_neg_vec(&out_vec);
            let p = encoder.nb_bit_precision;
            let pad = encoder.nb_bit_padding;
            proof {
                vstd::bits::lemma_u64_pow2_no_overflow((64 - pad - p) as nat);
                vstd::bits::lemma_u64_shl_is_mul(1u64, (64 - pad - p) as u64);
                if pad >= 1 {
                    vstd::bits::lemma_u64_pow2_no_overflow((64 - pad) as nat);
                    vstd::bits::lemma_u64_shl_is_mul(1u64, (64 - pad) as u64);
                    vstd::arithmetic::power2::lemma_pow2_strictly_increases(
                        (64 - pad - p) as nat,
                        (64 - pad) as nat,
                    );
                }
            }
            let cor: u64 = if pad >= 1 {
                (1u64 << ((64 - pad) as u64)) - (1u64 << ((64 - pad - p) as u64))
            } else {
                crate::bodies::wrap_neg64(1u64 << ((64 - p) as u64))
            };
            proof {
                crate::arith::lemma_scale_is_pow2();
                if pad >= 1 {
                    vstd::arithmetic::div_mod::lemma_small_mod(cor as nat, pow2(64));
                } else {
                    crate::bodies::lemma_wrap_add_congruent(
                        0,
                        cor as int,
                        -pow2_int((64 - p) as nat),
                    );
                    vstd::arithmetic::div_mod::lemma_mod_twice(
                        -pow2_int((64 - p) as nat),
                        pow2_int(64),
                    );
                }
                assert(cor as int == wrap(LWE::opposite_correction(encoder)) && wrap(
                    cor as int,
                ) == wrap(LWE::opposite_correction(encoder)));
            }
            let mut fin = negged;
            let b2 = wrap_add64(fin[d], cor);
            fin.set(d, b2);
            proof {
                let z = self.encoder.encode_spec(0);
                let z2 = encoder.encode_spec(0);
                let body1 = (self.body() - z) * scv + z2;
                // Negating the wrapped body and adding the wrapped
                // correction equals the exact negated, corrected body.
                lemma_neg_wrap(body1);
                crate::bodies::lemma_wrap_add_absorb(cor as int, -body1);
                crate::bodies::lemma_wrap_add_congruent(
                    -body1,
                    cor as int,
                    LWE::opposite_correction(encoder),
                );
                // The mask words likewise.
                assert forall|i: int| 0 <= i < d implies #[trigger] fin@[i] as int == wrap(
                    -(self.ciphertext@[i] * scv),
                ) by {
                    lemma_neg_wrap(self.ciphertext@[i] * scv);
                }
            }
            let res = encoder.opposite_inplace();
            proof {
                assert(res is Ok);
            }
            Ok(LWE { ciphertext: fin, variance, dimension: d, encoder })
        } else {
            Ok(LWE { ciphertext: out_vec, variance, dimension: d, encoder })
        }
    }

    /// In-place form of [`LWE::mul_constant_with_padding`]; on failure the
    /// ciphertext is unchanged.
    pub fn mul_constant_with_padding_inplace(&mut self, constant: Fix, max_constant: Fix,
        nb_bit_padding: usize) -> (r: Result<(), CryptoError>)
        requires
            old(self).wf(),
            constant.units > i128::MIN,
            1 <= max_constant.units < crate::encoder::SQ_UNITS,
            -crate::encoder::SQ_UNITS <= old(self).encoder.o.units,
            old(self).encoder.o.units + old(self).encoder.delta.units
                <= crate::encoder::SQ_UNITS,
            old(self).encoder.delta.units <= crate::encoder::SQ_UNITS,
            1 <= nb_bit_padding,
        ensures
            r is Ok <==> mul_ok(old(self).encoder, constant, max_constant, nb_bit_padding),
            r is Err ==> *final(self) == *old(self),
            r is Ok ==> final(self).wf() && final(self).dimension == old(self).dimension
                && final(self).variance == spec_var_scaled_sq(
                old(self).variance,
                LWE::mul_scal(constant, max_constant, nb_bit_padding),
            ),
    {
        match self.mul_constant_with_padding(constant, max_constant, nb_bit_padding) {
            Ok(c) => {
                *self = c;
                Ok(())
            },
            Err(er) => Err(er),
        }
    }
}

/// Difference of quotients: `x/d - y/d <= (x - y)/d + 1` for a positive
/// divisor.
proof fn lemma_div_diff_le(x: int, y: int, d: int)
    requires
        d > 0,
    ensures
        x / d - y / d <= (x - y) / d + 1,
{
    vstd::arithmetic::div_mod::lemma_fundamental_div_mod(x, d);
    vstd::arithmetic::div_mod::lemma_fundamental_div_mod(y, d);
    vstd::arithmetic::div_mod::lemma_mod_bound(x, d);
    vstd::arithmetic::div_mod::lemma_mod_bound(y, d);
    let q = x / d - y / d;
    let rm = x % d - y % d;
    assert(x - y == q * d + rm) by (nonlinear_arith)
        requires
            x == d * (x / d) + x % d,
            y == d * (y / d) + y % d,
            q == x / d - y / d,
            rm == x % d - y % d,
    ;
    if rm >= 0 {
        vstd::arithmetic::div_mod::lemma_fundamental_div_mod_converse(x - y, d, q, rm);
    } else {
        assert(x - y == (q - 1) * d + (rm + d)) by (nonlinear_arith)
            requires
                x - y == q * d + rm,
        ;
        vstd::arithmetic::div_mod::lemma_fundamental_div_mod_converse(
            x - y,
            d,
            q - 1,
            rm + d,
        );
    }
}


/// Derives the output encoder of a real-constant multiplication: interval
/// endpoints scaled by the maximum, padding reduced by the consumed bits,
/// and precision capped by the discretization noise.
#[verifier::rlimit(100)]
#[verifier::spinoff_prover]
fn derive_mul_encoder(enc: &Encoder, c_abs: Fix, max_constant: Fix, nb_bit_padding: usize,
    scal: u64) -> (r: Result<Encoder, CryptoError>)
    requires
        enc.wf(),
        enc.valid(),
        1 <= max_constant.units < crate::encoder::SQ_UNITS,
        0 <= c_abs.units <= max_constant.units,
        -crate::encoder::SQ_UNITS <= enc.o.units,
        enc.o.units + enc.delta.units <= crate::encoder::SQ_UNITS,
        enc.delta.units <= crate::encoder::SQ_UNITS,
        1 <= nb_bit_padding <= enc.nb_bit_padding,
        scal as int == mul_scal_of(c_abs.units as int, max_constant, nb_bit_padding),
        scal as int <= pow2(nb_bit_padding as nat),
        nb_bit_padding <= 63,
    ensures
        r is Ok <==> (mul_new_o_units(*enc, max_constant) < mul_new_max_units(
            *enc,
            max_constant,
        )),
        r is Err ==> r == Err::<Encoder, CryptoError>(CryptoError::InvalidIntervalError),
        r matches Ok(e2) ==> e2 == mul_derived_encoder(
            *enc,
            c_abs.units as int,
            max_constant,
            nb_bit_padding,
        ) && e2.wf() && e2.o.units as int == mul_new_o_units(*enc, max_constant)
            && e2.o.units + e2.delta.units == mul_new_max_units(*enc, max_constant)
            && e2.nb_bit_precision as int == mul_new_precision(
            *enc,
            c_abs.units as int,
            max_constant,
            nb_bit_padding,
        ),
{
    // Derive the output interval from the input endpoints.
        let old_max = enc.get_max();
        proof {
            let sq = crate::encoder::SQ_UNITS as int;
            assert(sq * sq == (MAX_UNITS as int) * (crate::arith::SCALE as int));
            assert(-sq <= old_max.units <= sq && -sq <= enc.o.units <= sq);
            assert(-(sq * sq) <= enc.o.units * max_constant.units <= sq * sq
                && -(sq * sq) <= old_max.units * max_constant.units <= sq * sq)
                by (nonlinear_arith)
                requires
                    -sq <= enc.o.units <= sq,
                    -sq <= old_max.units <= sq,
                    0 <= max_constant.units <= sq,
                    sq > 0,
            ;
        }
        let new_o = enc.o.times(max_constant);
        let new_max = old_max.times(max_constant);
        proof {
            crate::arith::lemma_scale_is_pow2();
            lemma_div_diff_le(
                old_max.units * max_constant.units,
                enc.o.units * max_constant.units,
                crate::arith::SCALE as int,
            );
            assert(old_max.units * max_constant.units - enc.o.units
                * max_constant.units == (old_max.units - enc.o.units)
                * max_constant.units) by (nonlinear_arith);
            assert((old_max.units - enc.o.units) * max_constant.units
                <= crate::encoder::SQ_UNITS * (crate::encoder::SQ_UNITS - 1))
                by (nonlinear_arith)
                requires
                    0 <= old_max.units - enc.o.units <= crate::encoder::SQ_UNITS,
                    0 <= max_constant.units <= crate::encoder::SQ_UNITS - 1,
            ;
            vstd::arithmetic::div_mod::lemma_div_is_ordered(
                (old_max.units - enc.o.units) * max_constant.units,
                crate::encoder::SQ_UNITS * (crate::encoder::SQ_UNITS - 1),
                crate::arith::SCALE as int,
            );
            vstd::arithmetic::div_mod::lemma_fundamental_div_mod_converse(
                crate::encoder::SQ_UNITS * (crate::encoder::SQ_UNITS - 1),
                crate::arith::SCALE as int,
                0xffff_ffff_ffff_ffff_ffff_0000i128 as int,
                0,
            );
        }
        let prec_in = if nb_bit_padding <= enc.nb_bit_precision {
            nb_bit_padding
        } else {
            enc.nb_bit_precision
        };
        let tmp_encoder = match Encoder::new(
            new_o,
            new_max,
            prec_in,
            enc.nb_bit_padding - nb_bit_padding,
        ) {
            Ok(e) => e,
            Err(er) => {
                return Err(er);
            },
        };
        // The effective precision cannot exceed what the discretization
        // noise leaves: min with the log of interval over new granularity.
        proof {
            vstd::arithmetic::power2::lemma2_to64();
            vstd::arithmetic::power2::lemma2_to64_rest();
        }
        let ds = discretized_magnitude(scal, max_constant, nb_bit_padding);
        let err = ds.minus(c_abs).magnitude();
        let g = enc.get_granularity();
        let neg_o = Fix::from_units(-enc.o.units);
        let max_abs = if old_max.units >= neg_o.units {
            old_max
        } else {
            neg_o
        };
        proof {
            let sq = crate::encoder::SQ_UNITS as int;
            assert(sq * sq == (MAX_UNITS as int) * (crate::arith::SCALE as int));
            assert(0 <= g.units <= sq);
            assert(0 <= err.units <= sq);
            assert(-sq <= max_abs.units <= sq);
            assert(0 <= g.units * err.units <= sq * sq && 0 <= g.units / 2 * ds.units <= sq
                * sq && -(sq * sq) <= err.units * max_abs.units <= sq * sq)
                by (nonlinear_arith)
                requires
                    0 <= g.units <= sq,
                    0 <= err.units <= sq,
                    0 <= ds.units <= sq,
                    -sq <= max_abs.units <= sq,
                    0 <= g.units / 2 <= sq,
            ;
        }
        let t1 = g.times(err).half();
        let t2 = g.half().times(ds);
        let t3 = err.times(max_abs);
        let new_gran = Fix::from_units(2 * (t1.units + t2.units + t3.units));
        let new_delta = new_max.minus(new_o);
        let new_precision = if new_gran.units <= 0 {
            tmp_encoder.nb_bit_precision
        } else {
            let lg = log2_ratio(new_gran.units, new_delta.units);
            if lg <= tmp_encoder.nb_bit_precision {
                lg
            } else {
                tmp_encoder.nb_bit_precision
            }
        };
        let mut encoder = Encoder { round: enc.round, ..tmp_encoder };
        encoder.nb_bit_precision = new_precision;
        proof {
            assert(ds.units == mul_ds_units(c_abs.units as int, max_constant, nb_bit_padding));
            assert(err.units == mul_err_units(
                c_abs.units as int,
                max_constant,
                nb_bit_padding,
            ));
            assert(new_gran.units == mul_new_gran_units(
                *enc,
                c_abs.units as int,
                max_constant,
                nb_bit_padding,
            ));
            assert(new_precision as int == mul_new_precision(
                *enc,
                c_abs.units as int,
                max_constant,
                nb_bit_padding,
            ));
            assert(encoder == mul_derived_encoder(
                *enc,
                c_abs.units as int,
                max_constant,
                nb_bit_padding,
            ));
        }
    Ok(encoder)
}

/// `scal * max_constant / 2^nb_bit_padding`: the real constant actually
/// applied after discretization.
fn discretized_magnitude(scal: u64, max_constant: Fix, nb_bit_padding: usize) -> (r: Fix)
    requires
        1 <= max_constant.units <= crate::encoder::SQ_UNITS,
        1 <= nb_bit_padding <= 63,
        scal as int <= pow2(nb_bit_padding as nat),
    ensures
        r.units == (scal as int * max_constant.units) / pow2(nb_bit_padding as nat) as int,
        0 <= r.units <= max_constant.units,
{
    proof {
        vstd::bits::lemma_u64_pow2_no_overflow((64 - nb_bit_padding) as nat);
        vstd::bits::lemma_u64_shl_is_mul(1u64, (64 - nb_bit_padding) as u64);
        vstd::arithmetic::power2::lemma_pow2_adds(
            nb_bit_padding as nat,
            (64 - nb_bit_padding) as nat,
        );
        crate::arith::lemma_scale_is_pow2();
        assert((scal as int) * pow2((64 - nb_bit_padding) as nat) as int <= pow2(64))
            by (nonlinear_arith)
            requires
                scal as int <= pow2(nb_bit_padding as nat),
                pow2(nb_bit_padding as nat) * pow2((64 - nb_bit_padding) as nat) == pow2(64),
                pow2((64 - nb_bit_padding) as nat) > 0,
        ;
        vstd::arithmetic::power2::lemma_pow2_pos((64 - nb_bit_padding) as nat);
        assert((max_constant.units as int) * (pow2(64) as int) <= (MAX_UNITS as int) * (
        crate::arith::SCALE as int)) by (nonlinear_arith)
            requires
                max_constant.units <= crate::encoder::SQ_UNITS,
                crate::arith::SCALE as int == pow2(64),
        ;
    }
    let shifted = Fix::from_units(((scal as i128) * ((1u64 << ((64 - nb_bit_padding) as u64))
        as i128)) as i128);
    proof {
        assert(0 <= max_constant.units * shifted.units) by (nonlinear_arith)
            requires
                max_constant.units >= 0,
                shifted.units >= 0,
        ;
        assert(max_constant.units * shifted.units <= (MAX_UNITS as int) * (crate::arith::SCALE
            as int)) by (nonlinear_arith)
            requires
                0 <= shifted.units <= pow2(64),
                0 <= max_constant.units,
                (max_constant.units as int) * (pow2(64) as int) <= (MAX_UNITS as int) * (
                crate::arith::SCALE as int),
        ;
    }
    let r = max_constant.times(shifted);
    proof {
        crate::arith::lemma_scale_is_pow2();
        vstd::arithmetic::power2::lemma_pow2_adds(
            (64 - nb_bit_padding) as nat,
            nb_bit_padding as nat,
        );
        let sm = scal as int * pow2((64 - nb_bit_padding) as nat) as int;
        assert(max_constant.units * sm == (scal as int * max_constant.units) * pow2(
            (64 - nb_bit_padding) as nat,
        ) as int) by (nonlinear_arith)
            requires
                sm == scal as int * pow2((64 - nb_bit_padding) as nat) as int,
        ;
        vstd::arithmetic::div_mod::lemma_div_denominator(
            max_constant.units * sm,
            pow2((64 - nb_bit_padding) as nat) as int,
            pow2(nb_bit_padding as nat) as int,
        );
        vstd::arithmetic::div_mod::lemma_div_by_multiple(
            scal as int * max_constant.units,
            pow2((64 - nb_bit_padding) as nat) as int,
        );
        vstd::arithmetic::power2::lemma_pow2_pos((64 - nb_bit_padding) as nat);
        vstd::arithmetic::power2::lemma_pow2_pos(nb_bit_padding as nat);
        assert((scal as int * max_constant.units) * pow2((64 - nb_bit_padding) as nat) as int
            == pow2((64 - nb_bit_padding) as nat) as int * (scal as int
            * max_constant.units)) by (nonlinear_arith);
        assert(scal as int * max_constant.units >= 0) by (nonlinear_arith)
            requires
                scal >= 0,
                max_constant.units >= 1,
        ;
        vstd::arithmetic::div_mod::lemma_div_pos_is_pos(
            max_constant.units * sm,
            pow2(64) as int,
        );
        assert(max_constant.units * sm >= 0) by (nonlinear_arith)
            requires
                max_constant.units >= 1,
                sm >= 0,
        ;
        // The discretized magnitude stays at or below the maximum.
        assert(scal as int * max_constant.units <= pow2(nb_bit_padding as nat) as int
            * max_constant.units) by (nonlinear_arith)
            requires
                scal as int <= pow2(nb_bit_padding as nat),
                max_constant.units >= 0,
        ;
        vstd::arithmetic::div_mod::lemma_div_is_ordered(
            scal as int * max_constant.units,
            pow2(nb_bit_padding as nat) as int * max_constant.units,
            pow2(nb_bit_padding as nat) as int,
        );
        vstd::arithmetic::div_mod::lemma_div_by_multiple(
            max_constant.units as int,
            pow2(nb_bit_padding as nat) as int,
        );
        assert(pow2(nb_bit_padding as nat) as int * max_constant.units == max_constant.units
            * pow2(nb_bit_padding as nat) as int) by (nonlinear_arith);
    }
    r
}

impl LWE {
    /// Refreshes the ciphertext through a bootstrap that evaluates the
    /// identity: the lookup table is built from this encoder's own grid
    /// values, so the refreshed ciphertext re-encodes the same value under
    /// the same encoder.
    pub fn bootstrap(&self, bsk: &crate::lwe_bsk::LWEBSK, refreshed: Vec<u64>) -> (r: Result<
        LWE,
        CryptoError,
    >)
        requires
            self.wf(),
            bsk.wf(),
            bsk.polynomial_size < usize::MAX / 2,
            refreshed@.len() == bsk.dimension * bsk.polynomial_size + 1,
            1 <= bsk.dimension * bsk.polynomial_size <= 0xffff_ffffusize,
            bsk.level <= 0xffff_ffffusize,
            bsk.base_log <= 0xffff_ffffusize,
            self.encoder.nb_bit_precision <= 63,
            self.encoder.o.units + self.encoder.delta.units <= MAX_UNITS,
            crate::lwe::log2_ratio_from(1, bsk.polynomial_size as int, 0) <= 62,
        ensures
            !self.encoder.valid() ==> r == Err::<LWE, CryptoError>(
                CryptoError::InvalidEncoderError,
            ),
            r is Ok ==> self.dimension == bsk.lwe_dimension && self.encoder.valid()
                && self.encoder.nb_bit_padding != 0,
            r matches Ok(c) ==> c.wf() && c.dimension == bsk.dimension * bsk.polynomial_size
                && c.ciphertext@ == refreshed@ && c.encoder == self.encoder && c.variance
                == crate::lwe_ksk::spec_keyswitch_variance(
                bsk.dimension * bsk.polynomial_size as int,
                bsk.level as int,
                bsk.base_log as int,
                bsk.variance,
                Variance { units: 0 },
            ),
    {
        let values = match bsk.bootstrap_input_values(&self.encoder) {
            Ok(v) => v,
            Err(er) => {
                return Err(er);
            },
        };
        self.bootstrap_with_function(bsk, &values, &self.encoder, refreshed)
    }
}

impl LWE {
    /// Re-encrypts under the key-switching key's output dimension. The
    /// switched words come from the lattice backend, which decomposes the
    /// mask against the key material; the library checks the dimensions,
    /// carries the encoder over, and grows the noise estimate by the
    /// decomposition noise model.
    pub fn keyswitch(&self, ksk: &crate::lwe_ksk::LWEKSK, switched: Vec<u64>) -> (r: Result<
        LWE,
        CryptoError,
    >)
        requires
            self.wf(),
            ksk.wf(),
            1 <= ksk.dimension_after,
            switched@.len() == ksk.dimension_after + 1,
            self.dimension <= 0xffff_ffffusize,
            ksk.level <= 0xffff_ffffusize,
            ksk.base_log <= 0xffff_ffffusize,
        ensures
            self.dimension != ksk.dimension_before ==> r == Err::<LWE, CryptoError>(
                CryptoError::DimensionError,
            ),
            r is Ok <==> self.dimension == ksk.dimension_before,
            r matches Ok(c) ==> c.wf() && c.dimension == ksk.dimension_after && c.ciphertext@
                == switched@ && c.encoder == self.encoder
                && c.variance == crate::lwe_ksk::spec_keyswitch_variance(
                self.dimension as int,
                ksk.level as int,
                ksk.base_log as int,
                ksk.variance,
                self.variance,
            ),
    {
        if self.dimension != ksk.dimension_before {
            return Err(CryptoError::DimensionError);
        }
        let variance = crate::lwe_ksk::keyswitch_variance(
            self.dimension,
            ksk.level,
            ksk.base_log,
            ksk.variance,
            self.variance,
        );
        Ok(LWE {
            ciphertext: switched,
            variance,
            dimension: ksk.dimension_after,
            encoder: self.encoder,
        })
    }

    /// Evaluates a function homomorphically through a programmable
    /// bootstrap. The function arrives as its sampled values on the grid of
    /// [`crate::lwe_bsk::LWEBSK::bootstrap_input_values`]; the library
    /// builds and checks the lookup table, and the backend's refreshed
    /// words arrive as an argument. The noise estimate is rebuilt from the
    /// bootstrapping key's decomposition noise model, and the output
    /// encoder is taken as given: noise-driven precision loss stays
    /// advisory, as everywhere in this library.
    pub fn bootstrap_with_function(&self, bsk: &crate::lwe_bsk::LWEBSK, f_values: &Vec<Fix>,
        encoder_output: &Encoder, refreshed: Vec<u64>) -> (r: Result<LWE, CryptoError>)
        requires
            self.wf(),
            bsk.wf(),
            encoder_output.wf(),
            f_values@.len() == bsk.polynomial_size,
            forall|i: int| 0 <= i < f_values@.len() ==> (#[trigger] f_values@[i]).bounded(),
            bsk.polynomial_size < usize::MAX / 2,
            refreshed@.len() == bsk.dimension * bsk.polynomial_size + 1,
            1 <= bsk.dimension * bsk.polynomial_size <= 0xffff_ffffusize,
            bsk.level <= 0xffff_ffffusize,
            bsk.base_log <= 0xffff_ffffusize,
        ensures
            self.dimension != bsk.lwe_dimension ==> r == Err::<LWE, CryptoError>(
                CryptoError::DimensionError,
            ),
            self.dimension == bsk.lwe_dimension && self.encoder.nb_bit_precision == 0 ==> r
                == Err::<LWE, CryptoError>(CryptoError::InvalidPrecisionError),
            self.dimension == bsk.lwe_dimension && self.encoder.nb_bit_precision != 0
                && self.encoder.nb_bit_padding == 0 ==> r == Err::<LWE, CryptoError>(
                CryptoError::NotEnoughPaddingError,
            ),
            self.dimension == bsk.lwe_dimension && self.encoder.nb_bit_precision != 0
                && self.encoder.nb_bit_padding != 0 && !encoder_output.valid() ==> r == Err::<
                LWE,
                CryptoError,
            >(CryptoError::InvalidEncoderError),
            r is Ok <==> self.dimension == bsk.lwe_dimension && self.encoder.nb_bit_precision
                != 0 && self.encoder.nb_bit_padding != 0 && encoder_output.valid(),
            r matches Ok(c) ==> c.wf() && c.dimension == bsk.dimension * bsk.polynomial_size
                && c.ciphertext@ == refreshed@ && c.encoder == *encoder_output && c.variance
                == crate::lwe_ksk::spec_keyswitch_variance(
                bsk.dimension * bsk.polynomial_size as int,
                bsk.level as int,
                bsk.base_log as int,
                bsk.variance,
                Variance { units: 0 },
            ),
    {
        if self.dimension != bsk.lwe_dimension {
            return Err(CryptoError::DimensionError);
        }
        // Build the lookup table; its construction performs the precision,
        // padding and output-encoder checks.
        let lut = match bsk.generate_functional_look_up_table(
            &self.encoder,
            encoder_output,
            f_values,
        ) {
            Ok(l) => l,
            Err(er) => {
                return Err(er);
            },
        };
        let out_dim = bsk.dimension * bsk.polynomial_size;
        let variance = crate::lwe_ksk::keyswitch_variance(
            out_dim,
            bsk.level,
            bsk.base_log,
            bsk.variance,
            Variance::zero(),
        );
        Ok(LWE {
            ciphertext: refreshed,
            variance,
            dimension: out_dim,
            encoder: *encoder_output,
        })
    }
}

/// Slotwise wrapping sums add up under the inner product: if every entry of
/// `c` is the wrapping sum of the entries of `a` and `b`, the inner product
/// of `c` with any key is the wrapping sum of the two inner products.
proof fn lemma_dot_add(a: Seq<u64>, b: Seq<u64>, c: Seq<u64>, key: Seq<u64>, n: int)
    requires
        0 <= n <= a.len(),
        n <= b.len(),
        n <= c.len(),
        forall|i: int| 0 <= i < n ==> #[trigger] c[i] as int == wrap(a[i] + b[i]),
    ensures
        dot_spec(c, key, n) == wrap(dot_spec(a, key, n) + dot_spec(b, key, n)),
    decreases n,
{
    vstd::arithmetic::power2::lemma_pow2_pos(64);
    let p = pow2(64) as int;
    if n == 0 {
        vstd::arithmetic::div_mod::lemma_small_mod(0, p as nat);
    } else {
        lemma_dot_add(a, b, c, key, n - 1);
        let da = dot_spec(a, key, n - 1);
        let db = dot_spec(b, key, n - 1);
        let an = a[n - 1] as int;
        let bn = b[n - 1] as int;
        let k = key[n - 1] as int;
        let s = an + bn;
        // dot_c(n) = wrap(wrap(da + db) + c_n * k) = wrap(da + db + c_n * k)
        crate::bodies::lemma_wrap_add_absorb(c[n - 1] as int * k, da + db);
        // c_n * k is congruent to s * k
        vstd::arithmetic::div_mod::lemma_mul_mod_noop_left(s, k, p);
        crate::bodies::lemma_wrap_add_congruent(da + db, c[n - 1] as int * k, s * k);
        assert(s * k == an * k + bn * k) by (nonlinear_arith)
            requires
                s == an + bn,
        ;
        // the target: wrap(wrap(da + an k) + wrap(db + bn k)) == wrap(da + an k + db + bn k)
        crate::bodies::lemma_wrap_add_absorb(wrap(da + an * k), db + bn * k);
        crate::bodies::lemma_wrap_add_absorb(db + bn * k, da + an * k);
    }
}

/// Slotwise wrapping negation negates the inner product, modulo 2^64.
proof fn lemma_dot_neg(a: Seq<u64>, c: Seq<u64>, key: Seq<u64>, n: int)
    requires
        0 <= n <= a.len(),
        n <= c.len(),
        forall|i: int| 0 <= i < n ==> #[trigger] c[i] as int == wrap(-a[i]),
    ensures
        dot_spec(c, key, n) == wrap(-dot_spec(a, key, n)),
    decreases n,
{
    vstd::arithmetic::power2::lemma_pow2_pos(64);
    let p = pow2(64) as int;
    if n == 0 {
        vstd::arithmetic::div_mod::lemma_small_mod(0, p as nat);
    } else {
        lemma_dot_neg(a, c, key, n - 1);
        let da = dot_spec(a, key, n - 1);
        let an = a[n - 1] as int;
        let k = key[n - 1] as int;
        // dot_c(n) = wrap(wrap(-da) + c_n * k) = wrap(-da + c_n * k)
        crate::bodies::lemma_wrap_add_absorb(c[n - 1] as int * k, -da);
        // c_n * k is congruent to (-an) * k
        vstd::arithmetic::div_mod::lemma_mul_mod_noop_left(-an, k, p);
        crate::bodies::lemma_wrap_add_congruent(-da, c[n - 1] as int * k, (-an) * k);
        assert((-an) * k == -(an * k)) by (nonlinear_arith);
        // wrap(-(da + an k)) == wrap(-wrap(da + an k))
        lemma_neg_wrap(da + an * k);
    }
}

/// `wrap(-wrap(x)) == wrap(-x)`.
proof fn lemma_neg_wrap(x: int)
    ensures
        wrap(-wrap(x)) == wrap(-x),
{
    vstd::arithmetic::power2::lemma_pow2_pos(64);
    let p = pow2(64) as int;
    vstd::arithmetic::div_mod::lemma_sub_mod_noop(0, x, p);
    vstd::arithmetic::div_mod::lemma_sub_mod_noop(0, x % p, p);
    vstd::arithmetic::div_mod::lemma_mod_twice(x, p);
    vstd::arithmetic::div_mod::lemma_small_mod(0, p as nat);
}

/// `wrap(a - wrap(b)) == wrap(a - b)`.
proof fn lemma_wrap_sub_absorb_right(a: int, b: int)
    ensures
        wrap(a - wrap(b)) == wrap(a - b),
{
    vstd::arithmetic::power2::lemma_pow2_pos(64);
    let p = pow2(64) as int;
    vstd::arithmetic::div_mod::lemma_sub_mod_noop(a, b, p);
    vstd::arithmetic::div_mod::lemma_sub_mod_noop(a, b % p, p);
    vstd::arithmetic::div_mod::lemma_mod_twice(b, p);
    vstd::arithmetic::div_mod::lemma_mod_twice(a, p);
}

/// Additive phase homomorphism: a ciphertext whose every word is the
/// wrapping sum of the words of two others carries, under any key, the
/// wrapping sum of their phases. This is what makes the padding-consuming
/// additions homomorphic.
pub proof fn lemma_add_phase_homomorphic(a: LWE, b: LWE, c: LWE, key: Seq<u64>)
    requires
        a.wf(),
        b.wf(),
        c.wf(),
        a.dimension == b.dimension,
        c.dimension == a.dimension,
        forall|i: int|
            0 <= i <= a.dimension ==> #[trigger] c.ciphertext@[i] as int == wrap(
                a.ciphertext@[i] + b.ciphertext@[i],
            ),
    ensures
        c.phase(key) == wrap(a.phase(key) + b.phase(key)),
{
    let n = a.dimension as int;
    lemma_dot_add(a.ciphertext@, b.ciphertext@, c.ciphertext@, key, n);
    let da = dot_spec(a.ciphertext@, key, n);
    let db = dot_spec(b.ciphertext@, key, n);
    let ba = a.body();
    let bb = b.body();
    // c.phase = wrap(wrap(ba + bb) - wrap(da + db)) = wrap(ba + bb - da - db)
    lemma_wrap_sub_absorb_right(wrap(ba + bb), da + db);
    crate::lwe::lemma_wrap_sub_shift(ba + bb, da + db);
    // target: wrap(wrap(ba - da) + wrap(bb - db)) = wrap(ba - da + bb - db)
    crate::bodies::lemma_wrap_add_absorb(wrap(ba - da), bb - db);
    crate::bodies::lemma_wrap_add_absorb(bb - db, ba - da);
}

/// `wrap(wrap(x) - y) == wrap(x - y)`.
pub proof fn lemma_wrap_sub_shift(x: int, y: int)
    ensures
        wrap(wrap(x) - y) == wrap(x - y),
{
    vstd::arithmetic::power2::lemma_pow2_pos(64);
    let p = pow2(64) as int;
    vstd::arithmetic::div_mod::lemma_sub_mod_noop(x, y, p);
    vstd::arithmetic::div_mod::lemma_sub_mod_noop(x % p, y, p);
    vstd::arithmetic::div_mod::lemma_mod_twice(x, p);
    vstd::arithmetic::div_mod::lemma_mod_twice(y, p);
}

/// Negation phase law: a ciphertext whose mask words are wrapping negations
/// of another's and whose body is the negated body plus a correction
/// carries, under any key, the negated phase plus that correction.
pub proof fn lemma_opposite_phase(a: LWE, c: LWE, key: Seq<u64>, cor: int)
    requires
        a.wf(),
        c.wf(),
        c.dimension == a.dimension,
        forall|i: int|
            0 <= i < a.dimension ==> #[trigger] c.ciphertext@[i] as int == wrap(
                -a.ciphertext@[i],
            ),
        c.body() == wrap(-a.body() + cor),
    ensures
        c.phase(key) == wrap(-a.phase(key) + cor),
{
    let n = a.dimension as int;
    lemma_dot_neg(a.ciphertext@, c.ciphertext@, key, n);
    let da = dot_spec(a.ciphertext@, key, n);
    let ba = a.body();
    // c.phase = wrap(wrap(-ba + cor) - wrap(-da)) = wrap(-ba + cor + da)
    lemma_wrap_sub_absorb_right(wrap(-ba + cor), -da);
    lemma_wrap_sub_shift(-ba + cor, -da);
    // target: wrap(-wrap(ba - da) + cor) = wrap(-(ba - da) + cor)
    lemma_neg_wrap(ba - da);
    crate::bodies::lemma_wrap_add_congruent(cor, -wrap(ba - da), -(ba - da));
}

} // verus!
