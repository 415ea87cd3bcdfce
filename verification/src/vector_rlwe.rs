//! A vector of packed RLWE ciphertexts: polynomial-coefficient slots, one
//! encoder per coefficient, where an invalid encoder marks an unused slot.
//! The polynomial arithmetic itself belongs to the lattice backend; this
//! module carries the container, its invariants, and the count of slots
//! that hold a genuine value.

use vstd::prelude::*;

use crate::bodies::wrap;
use crate::lwe_secret_key::LWESecretKey;
use crate::vector_lwe::VectorLWE;

use crate::encoder::Encoder;
use crate::error::CryptoError;
use crate::fix::Fix;
use crate::rlwe_params::spec_is_power_of_two;
use crate::variance::Variance;

verus! {

/// The number of valid encoders among the first `n` of a sequence.
pub open spec fn count_valid(encoders: Seq<Encoder>, n: int) -> int
    decreases n,
{
    if n <= 0 {
        0
    } else {
        count_valid(encoders, n - 1) + if encoders[n - 1].valid() {
            1int
        } else {
            0int
        }
    }
}

/// A list of packed RLWE ciphertexts: `nb_ciphertexts` bodies of
/// `(dimension + 1) * polynomial_size` words each, and one encoder and one
/// noise estimate per coefficient slot.
#[derive(Clone, Debug, PartialEq)]
pub struct VectorRLWE {
    pub ciphertexts: Vec<u64>,
    pub variances: Vec<Variance>,
    pub dimension: usize,
    pub polynomial_size: usize,
    pub nb_ciphertexts: usize,
    pub encoders: Vec<Encoder>,
}

impl VectorRLWE {
    /// Container well-formedness: a power-of-two polynomial size, one body
    /// per ciphertext, and one encoder and estimate per coefficient slot.
    pub open spec fn wf(self) -> bool {
        &&& self.dimension >= 1
        &&& self.nb_ciphertexts >= 1
        &&& spec_is_power_of_two(self.polynomial_size as nat)
        &&& self.ciphertexts@.len() == self.nb_ciphertexts * ((self.dimension + 1)
            * self.polynomial_size)
        &&& self.variances@.len() == self.nb_ciphertexts * self.polynomial_size
        &&& self.encoders@.len() == self.nb_ciphertexts * self.polynomial_size
        &&& forall|i: int|
            0 <= i < self.encoders@.len() ==> (#[trigger] self.encoders@[i]).wf()
        &&& forall|i: int|
            0 <= i < self.variances@.len() ==> (#[trigger] self.variances@[i]).wf()
    }

    /// A container of zero-filled bodies with zeroed (invalid, unused)
    /// coefficient encoders. Fails with `ZeroCiphertextsInStructureError`
    /// for an empty container and `NotPowerOfTwoError` for a polynomial
    /// size that is not a power of two.
    pub fn zero(polynomial_size: usize, dimension: usize, nb_ciphertexts: usize) -> (r: Result<
        VectorRLWE,
        CryptoError,
    >)
        requires
            dimension < usize::MAX - 1,
            nb_ciphertexts * ((dimension + 1) * polynomial_size) < usize::MAX,
            nb_ciphertexts * polynomial_size < usize::MAX,
        ensures
            nb_ciphertexts == 0 || dimension == 0 ==> r == Err::<VectorRLWE, CryptoError>(
                CryptoError::ZeroCiphertextsInStructureError,
            ),
            nb_ciphertexts >= 1 && dimension >= 1 && !spec_is_power_of_two(
                polynomial_size as nat,
            ) ==> r == Err::<VectorRLWE, CryptoError>(CryptoError::NotPowerOfTwoError),
            r is Ok <==> nb_ciphertexts >= 1 && dimension >= 1 && spec_is_power_of_two(
                polynomial_size as nat,
            ),
            r matches Ok(v) ==> v.wf() && v.dimension == dimension && v.polynomial_size
                == polynomial_size && v.nb_ciphertexts == nb_ciphertexts && (forall|i: int|
                0 <= i < v.ciphertexts@.len() ==> #[trigger] v.ciphertexts@[i] == 0u64) && (
            forall|i: int|
                0 <= i < v.variances@.len() ==> (#[trigger] v.variances@[i]).units == 0)
                && forall|i: int|
                0 <= i < v.encoders@.len() ==> (#[trigger] v.encoders@[i]) == (Encoder {
                    o: Fix { units: 0 },
                    delta: Fix { units: 0 },
                    nb_bit_precision: 0,
                    nb_bit_padding: 0,
                    round: false,
                }),
    {
        if nb_ciphertexts == 0 || dimension == 0 {
            return Err(CryptoError::ZeroCiphertextsInStructureError);
        }
        if !crate::rlwe_params::is_power_of_two(polynomial_size) {
            return Err(CryptoError::NotPowerOfTwoError);
        }
        proof {
            lemma_body_size_fits(
                nb_ciphertexts as int,
                dimension as int,
                polynomial_size as int,
            );
            assert(nb_ciphertexts * polynomial_size <= nb_ciphertexts * ((dimension + 1)
                * polynomial_size)) by (nonlinear_arith)
                requires
                    nb_ciphertexts >= 1,
                    dimension >= 0,
                    polynomial_size >= 0,
            ;
        }
        let total = nb_ciphertexts * ((dimension + 1) * polynomial_size);
        let slots = nb_ciphertexts * polynomial_size;
        let mut ciphertexts: Vec<u64> = Vec::new();
        let mut i: usize = 0;
        while i < total
            invariant
                i <= total,
                ciphertexts@.len() == i,
                forall|j: int| 0 <= j < i ==> #[trigger] ciphertexts@[j] == 0u64,
            decreases total - i,
        {
            ciphertexts.push(0u64);
            i = i + 1;
        }
        let mut variances: Vec<Variance> = Vec::new();
        let mut encoders: Vec<Encoder> = Vec::new();
        let mut k: usize = 0;
        while k < slots
            invariant
                k <= slots,
                variances@.len() == k,
                encoders@.len() == k,
                forall|j: int| 0 <= j < k ==> (#[trigger] variances@[j]).units == 0,
                forall|j: int|
                    0 <= j < k ==> (#[trigger] encoders@[j]) == (Encoder {
                        o: Fix { units: 0 },
                        delta: Fix { units: 0 },
                        nb_bit_precision: 0,
                        nb_bit_padding: 0,
                        round: false,
                    }),
            decreases slots - k,
        {
            variances.push(Variance::zero());
            encoders.push(Encoder::zero());
            k = k + 1;
        }
        Ok(VectorRLWE {
            ciphertexts,
            variances,
            dimension,
            polynomial_size,
            nb_ciphertexts,
            encoders,
        })
    }

    /// How many coefficient slots carry a genuine (valid-encoder) value.
    pub fn nb_valid(&self) -> (r: usize)
        requires
            self.wf(),
        ensures
            r == count_valid(self.encoders@, self.encoders@.len() as int),
    {
        let mut count: usize = 0;
        let mut i: usize = 0;
        let n = self.encoders.len();
        while i < n
            invariant
                i <= n,
                n == self.encoders@.len(),
                count == count_valid(self.encoders@, i as int),
                count <= i,
            decreases n - i,
        {
            if self.encoders[i].is_valid() {
                count = count + 1;
            }
            i = i + 1;
        }
        count
    }

    /// The number of words one packed ciphertext occupies.
    pub fn get_ciphertext_size(&self) -> (r: usize)
        requires
            self.wf(),
        ensures
            r == (self.dimension + 1) * self.polynomial_size,
    {
        let len = self.ciphertexts.len();
        proof {
            lemma_body_size_fits(
                self.nb_ciphertexts as int,
                self.dimension as int,
                self.polynomial_size as int,
            );
            assert(len == self.nb_ciphertexts * ((self.dimension + 1)
                * self.polynomial_size));
            assert(self.polynomial_size >= 1);
            assert(self.dimension + 1 <= (self.dimension + 1) * self.polynomial_size)
                by (nonlinear_arith)
                requires
                    self.polynomial_size >= 1,
                    self.dimension >= 0,
            ;
        }
        (self.dimension + 1) * self.polynomial_size
    }
}

/// One body's word count is at most the whole buffer's.
proof fn lemma_body_size_fits(nb: int, dim: int, poly: int)
    requires
        nb >= 1,
        dim >= 0,
        poly >= 0,
    ensures
        (dim + 1) * poly <= nb * ((dim + 1) * poly),
        0 <= (dim + 1) * poly,
{
    assert((dim + 1) * poly <= nb * ((dim + 1) * poly) && 0 <= (dim + 1) * poly)
        by (nonlinear_arith)
        requires
            nb >= 1,
            dim >= 0,
            poly >= 0,
    ;
}

impl VectorRLWE {
    /// The flat index of the first word of ciphertext `n_ct`.
    pub open spec fn body_base(self, n_ct: int) -> int {
        n_ct * ((self.dimension + 1) * self.polynomial_size)
    }

    /// The mask word that sample extraction places at position
    /// `q * polynomial_size + j` of the extracted LWE: the coefficient read
    /// backwards from the rotation point, negated on the wrapped-around
    /// stretch.
    pub open spec fn extracted_mask_word(self, n_coeff: int, n_ct: int, q: int, j: int) -> int {
        let np = self.polynomial_size as int;
        let rot = np - 1 - n_coeff;
        let idx = (j + rot) % np;
        let w = self.ciphertexts@[self.body_base(n_ct) + q * np + (np - 1 - idx)] as int;
        if idx < rot {
            wrap(-w)
        } else {
            w
        }
    }

    /// Projects one coefficient slot out into a single LWE ciphertext of
    /// dimension `dimension * polynomial_size` (sample extraction); the
    /// indices are checked, out-of-range ones give `IndexError`.
    pub fn extract_1_lwe(&self, n_coeff: usize, n_ciphertext: usize) -> (r: Result<
        VectorLWE,
        CryptoError,
    >)
        requires
            self.wf(),
        ensures
            n_ciphertext >= self.nb_ciphertexts ==> r == Err::<VectorLWE, CryptoError>(
                CryptoError::IndexError,
            ),
            n_ciphertext < self.nb_ciphertexts && n_coeff >= self.polynomial_size ==> r
                == Err::<VectorLWE, CryptoError>(CryptoError::IndexError),
            r is Ok <==> n_ciphertext < self.nb_ciphertexts && n_coeff
                < self.polynomial_size,
            r matches Ok(v) ==> v.wf() && v.nb_ciphertexts == 1 && v.dimension
                == self.dimension * self.polynomial_size && v.encoders@[0] == self.encoders@[
                n_ciphertext * self.polynomial_size + n_coeff
            ] && v.variances@[0] == self.variances@[n_ciphertext * self.polynomial_size
                + n_coeff] && v.word(0, (self.dimension * self.polynomial_size) as int)
                == self.ciphertexts@[self.body_base(n_ciphertext as int) + self.dimension
                * self.polynomial_size + n_coeff] as int && forall|q: int, j: int|
                0 <= q < self.dimension && 0 <= j < self.polynomial_size ==> #[trigger] v.word(
                    0,
                    q * self.polynomial_size + j,
                ) == self.extracted_mask_word(n_coeff as int, n_ciphertext as int, q, j),
    {
        if n_ciphertext >= self.nb_ciphertexts {
            return Err(CryptoError::IndexError);
        }
        if n_coeff >= self.polynomial_size {
            return Err(CryptoError::IndexError);
        }
        let np = self.polynomial_size;
        let dim = self.dimension;
        let len = self.ciphertexts.len();
        let slots = self.encoders.len();
        proof {
            assert(len == self.nb_ciphertexts * ((dim + 1) * np));
            assert(slots == self.nb_ciphertexts * np);
            lemma_extract_bounds(
                self.nb_ciphertexts as int,
                dim as int,
                np as int,
                n_ciphertext as int,
            );
        }
        let base = n_ciphertext * ((dim + 1) * np);
        let rot = np - 1 - n_coeff;
        let mut words: Vec<u64> = Vec::new();
        let mut q: usize = 0;
        while q < dim
            invariant
                q <= dim,
                self.wf(),
                n_ciphertext < self.nb_ciphertexts,
                n_coeff < np,
                np == self.polynomial_size,
                dim == self.dimension,
                len == self.ciphertexts@.len(),
                len == self.nb_ciphertexts * ((dim + 1) * np),
                base == n_ciphertext * ((dim + 1) * np),
                base + (dim + 1) * np <= len,
                2 * np <= (dim + 1) * np,
                rot == np - 1 - n_coeff,
                words@.len() == q * np,
                forall|qq: int, jj: int|
                    0 <= qq < q && 0 <= jj < np ==> #[trigger] words@[qq * np + jj] as int
                        == self.extracted_mask_word(
                        n_coeff as int,
                        n_ciphertext as int,
                        qq,
                        jj,
                    ),
            decreases dim - q,
        {
            proof {
                lemma_block_bounds(dim as int, np as int, q as int);
            }
            let mut j: usize = 0;
            while j < np
                invariant
                    j <= np,
                    q < dim,
                    self.wf(),
                    n_ciphertext < self.nb_ciphertexts,
                    n_coeff < np,
                    np == self.polynomial_size,
                    dim == self.dimension,
                    len == self.ciphertexts@.len(),
                    len == self.nb_ciphertexts * ((dim + 1) * np),
                    base == n_ciphertext * ((dim + 1) * np),
                    base + (dim + 1) * np <= len,
                    q * np + np <= (dim + 1) * np,
                    2 * np <= (dim + 1) * np,
                    rot == np - 1 - n_coeff,
                    words@.len() == q * np + j,
                    forall|jj: int|
                        0 <= jj < j ==> #[trigger] words@[q * np + jj] as int
                            == self.extracted_mask_word(
                            n_coeff as int,
                            n_ciphertext as int,
                            q as int,
                            jj,
                        ),
                    forall|qq: int, jj: int|
                        0 <= qq < q && 0 <= jj < np ==> #[trigger] words@[qq * np + jj] as int
                            == self.extracted_mask_word(
                            n_coeff as int,
                            n_ciphertext as int,
                            qq,
                            jj,
                        ),
                decreases np - j,
            {
                let idx = (j + rot) % np;
                let w = self.ciphertexts[base + q * np + (np - 1 - idx)];
                proof {
                    assert forall|qq: int, jj: int|
                        0 <= qq < q && 0 <= jj < np implies #[trigger] (qq * np + jj) < q * np
                        + j by {
                        assert(qq * np + jj < q * np + j) by (nonlinear_arith)
                            requires
                                0 <= qq < q,
                                0 <= jj < np,
                                j >= 0,
                        ;
                    }
                }
                if idx < rot {
                    words.push(crate::bodies::wrap_neg64(w));
                } else {
                    words.push(w);
                }
                j = j + 1;
            }
            proof {
                assert((q + 1) * np == q * np + np) by (nonlinear_arith);
            }
            q = q + 1;
        }
        let body = self.ciphertexts[base + dim * np + n_coeff];
        proof {
            assert forall|qq: int, jj: int|
                0 <= qq < dim && 0 <= jj < np implies #[trigger] (qq * np + jj) < dim * np by {
                assert(qq * np + jj < dim * np) by (nonlinear_arith)
                    requires
                        0 <= qq < dim,
                        0 <= jj < np,
                ;
            }
        }
        words.push(body);
        proof {
            lemma_slot_index_bounds(
                self.nb_ciphertexts as int,
                np as int,
                n_ciphertext as int,
                n_coeff as int,
            );
        }
        let slot_index = n_ciphertext * np + n_coeff;
        let mut encoders: Vec<Encoder> = Vec::new();
        encoders.push(self.encoders[slot_index]);
        let mut variances: Vec<Variance> = Vec::new();
        variances.push(self.variances[slot_index]);
        let out_dim = dim * np;
        proof {
            assert(out_dim >= 1) by (nonlinear_arith)
                requires
                    dim >= 1,
                    np >= 1,
                    out_dim == dim * np,
            ;
            assert(1 * (out_dim + 1) == out_dim + 1);
        }
        let out = VectorLWE {
            ciphertexts: words,
            variances,
            dimension: out_dim,
            nb_ciphertexts: 1,
            encoders,
        };
        Ok(out)
    }
}

/// Extraction index bounds: one ciphertext's words lie inside the buffer.
proof fn lemma_extract_bounds(nb: int, dim: int, np: int, n_ct: int)
    requires
        0 <= n_ct < nb,
        dim >= 1,
        np >= 1,
    ensures
        0 <= n_ct * ((dim + 1) * np),
        n_ct * ((dim + 1) * np) + (dim + 1) * np <= nb * ((dim + 1) * np),
        dim * np + np <= (dim + 1) * np,
        0 <= dim * np,
        dim + 1 <= (dim + 1) * np,
        2 * np <= (dim + 1) * np,
{
    assert(0 <= n_ct * ((dim + 1) * np) && n_ct * ((dim + 1) * np) + (dim + 1) * np <= nb * ((
    dim + 1) * np) && dim * np + np <= (dim + 1) * np && 0 <= dim * np && dim + 1 <= (dim + 1)
        * np && 2 * np <= (dim + 1) * np) by (nonlinear_arith)
        requires
            0 <= n_ct < nb,
            dim >= 1,
            np >= 1,
    ;
}

/// One mask polynomial's words lie inside the ciphertext block.
proof fn lemma_block_bounds(dim: int, np: int, q: int)
    requires
        0 <= q < dim,
        np >= 1,
    ensures
        0 <= q * np,
        q * np + np <= (dim + 1) * np,
        q * np + np <= dim * np,
{
    assert(0 <= q * np && q * np + np <= (dim + 1) * np && q * np + np <= dim * np)
        by (nonlinear_arith)
        requires
            0 <= q < dim,
            np >= 1,
    ;
}

/// A coefficient slot index lies inside the per-slot lists.
proof fn lemma_slot_index_bounds(nb: int, np: int, n_ct: int, n_coeff: int)
    requires
        0 <= n_ct < nb,
        0 <= n_coeff < np,
    ensures
        0 <= n_ct * np + n_coeff,
        n_ct * np + n_coeff < nb * np,
{
    assert(0 <= n_ct * np + n_coeff && n_ct * np + n_coeff < nb * np) by (nonlinear_arith)
        requires
            0 <= n_ct < nb,
            0 <= n_coeff < np,
    ;
}

impl VectorRLWE {
    /// Fills the container with encryptions of raw torus values, packed as
    /// the coefficients of each ciphertext's body polynomial: word `w` of
    /// the buffer becomes the backend's zero-encryption word plus, at the
    /// body-coefficient positions, the corresponding plaintext. The list
    /// must supply one value per coefficient slot, else `WrongSizeError`;
    /// the zero-encryption words come from the lattice backend and every
    /// noise estimate becomes the key's fresh-noise variance.
    pub fn encrypt_packed_raw(&mut self, sk: &LWESecretKey, plaintexts: &Vec<u64>,
        zero_samples: Vec<u64>) -> (r: Result<(), CryptoError>)
        requires
            old(self).wf(),
            sk.wf(),
            zero_samples@.len() == old(self).ciphertexts@.len(),
        ensures
            plaintexts@.len() != old(self).nb_ciphertexts * old(self).polynomial_size ==> r
                == Err::<(), CryptoError>(CryptoError::WrongSizeError)
                && *final(self) == *old(self),
            r is Ok <==> plaintexts@.len() == old(self).nb_ciphertexts * old(
                self,
            ).polynomial_size,
            r is Ok ==> final(self).wf() && final(self).dimension == old(self).dimension
                && final(self).polynomial_size == old(self).polynomial_size
                && final(self).nb_ciphertexts == old(self).nb_ciphertexts
                && final(self).encoders == old(self).encoders && (forall|i: int|
                0 <= i < final(self).variances@.len() ==> (#[trigger] final(self).variances@[i])
                    == crate::variance::spec_variance_of_log2_std_dev(sk.log2_std_dev as int))
                && forall|w: int|
                0 <= w < old(self).ciphertexts@.len() ==> #[trigger] final(self).ciphertexts@[w]
                    as int == wrap(
                    zero_samples@[w] + packed_plaintext_at(*old(self), plaintexts@, w),
                ),
    {
        let np = self.polynomial_size;
        let dim = self.dimension;
        let nb = self.nb_ciphertexts;
        let slots = self.encoders.len();
        proof {
            assert(slots == nb * np);
        }
        if plaintexts.len() != slots {
            return Err(CryptoError::WrongSizeError);
        }
        let pl_len = plaintexts.len();
        let len = self.ciphertexts.len();
        proof {
            assert(len == nb * ((dim + 1) * np));
        }
        proof {
            assert((dim + 1) * np <= len && dim + 1 <= (dim + 1) * np && np >= 1)
                by (nonlinear_arith)
                requires
                    nb >= 1,
                    np >= 1,
                    dim >= 1,
                    len == nb * ((dim + 1) * np),
            ;
        }
        let mut words: Vec<u64> = Vec::new();
        let mut w: usize = 0;
        while w < len
            invariant
                w <= len,
                old(self).wf(),
                self == old(self),
                np == self.polynomial_size,
                dim == self.dimension,
                nb == self.nb_ciphertexts,
                len == self.ciphertexts@.len(),
                len == nb * ((dim + 1) * np),
                (dim + 1) * np <= len,
                dim + 1 <= (dim + 1) * np,
                pl_len == nb * np,
                plaintexts@.len() == nb * np,
                zero_samples@.len() == len,
                words@.len() == w,
                forall|t: int|
                    0 <= t < w ==> #[trigger] words@[t] as int == wrap(
                        zero_samples@[t] + packed_plaintext_at(*old(self), plaintexts@, t),
                    ),
            decreases len - w,
        {
            let block = (dim + 1) * np;
            proof {
                lemma_packed_position(nb as int, dim as int, np as int, w as int);
            }
            let offset = w % block;
            let contribution: u64 = if offset >= dim * np {
                let ct_index = w / block;
                let coeff = offset - dim * np;
                proof {
                    lemma_slot_index_bounds(nb as int, np as int, ct_index as int, coeff as int);
                }
                plaintexts[ct_index * np + coeff]
            } else {
                0u64
            };
            words.push(crate::bodies::wrap_add64(zero_samples[w], contribution));
            w = w + 1;
        }
        self.ciphertexts = words;
        let mut variances: Vec<Variance> = Vec::new();
        let key_var = sk.get_variance();
        let mut k: usize = 0;
        while k < slots
            invariant
                k <= slots,
                variances@.len() == k,
                key_var == crate::variance::spec_variance_of_log2_std_dev(
                    sk.log2_std_dev as int,
                ),
                key_var.wf(),
                forall|t: int| 0 <= t < k ==> (#[trigger] variances@[t]) == key_var,
            decreases slots - k,
        {
            variances.push(key_var);
            k = k + 1;
        }
        self.variances = variances;
        Ok(())
    }
}

/// The plaintext a packed encryption adds at buffer position `w`: the
/// matching coefficient value when `w` lies in a body polynomial, zero in a
/// mask polynomial.
pub open spec fn packed_plaintext_at(v: VectorRLWE, plaintexts: Seq<u64>, w: int) -> int {
    let block = (v.dimension + 1) * v.polynomial_size as int;
    let offset = w % block;
    if offset >= v.dimension * v.polynomial_size {
        plaintexts[(w / block) * v.polynomial_size + (offset - v.dimension
            * v.polynomial_size)] as int
    } else {
        0
    }
}

/// Positions inside the buffer decompose into a ciphertext index and an
/// offset, and a body-polynomial offset maps to an in-range coefficient
/// slot.
proof fn lemma_packed_position(nb: int, dim: int, np: int, w: int)
    requires
        nb >= 1,
        dim >= 1,
        np >= 1,
        0 <= w < nb * ((dim + 1) * np),
    ensures
        0 <= w % ((dim + 1) * np) < (dim + 1) * np,
        0 <= w / ((dim + 1) * np) < nb,
        dim * np + np == (dim + 1) * np,
        0 <= dim * np,
{
    let block = (dim + 1) * np;
    assert(block >= 1 && dim * np + np == (dim + 1) * np && 0 <= dim * np)
        by (nonlinear_arith)
        requires
            dim >= 1,
            np >= 1,
            block == (dim + 1) * np,
    ;
    vstd::arithmetic::div_mod::lemma_mod_bound(w, block);
    vstd::arithmetic::div_mod::lemma_div_pos_is_pos(w, block);
    vstd::arithmetic::div_mod::lemma_multiply_divide_lt(w, block, nb);
    assert(block * nb == nb * block) by (nonlinear_arith);
}

} // verus!
