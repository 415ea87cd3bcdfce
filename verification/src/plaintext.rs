//! A sequence of encoded torus values, each slot tagged with its own
//! encoder.

use vstd::prelude::*;

use crate::encoder::Encoder;
use crate::error::CryptoError;
use crate::fix::Fix;

verus! {

/// Which error, if any, a strict encode of `m` units under `e` reports:
/// the interval is checked first, then the encoder's validity.
pub open spec fn encode_err(e: Encoder, m: int) -> Option<CryptoError> {
    if m < e.o.units || m - e.o.units >= e.delta.units {
        Some(CryptoError::MessageOutsideIntervalError)
    } else if !e.valid() {
        Some(CryptoError::InvalidEncoderError)
    } else {
        None
    }
}

/// A list of plaintext torus values with one encoder per slot.
#[derive(Clone, Debug, PartialEq)]
pub struct Plaintext {
    pub encoders: Vec<Encoder>,
    pub plaintexts: Vec<u64>,
    pub nb_plaintexts: usize,
}

impl Plaintext {
    /// Both lists have exactly `nb_plaintexts` entries and every slot
    /// encoder is well-formed.
    pub open spec fn wf(self) -> bool {
        &&& self.encoders@.len() == self.nb_plaintexts
        &&& self.plaintexts@.len() == self.nb_plaintexts
        &&& forall|i: int|
            0 <= i < self.nb_plaintexts ==> (#[trigger] self.encoders@[i]).wf()
    }

    /// `nb_plaintexts` zero-valued slots with zeroed (invalid) encoders.
    pub fn zero(nb_plaintexts: usize) -> (r: Plaintext)
        ensures
            r.wf(),
            r.nb_plaintexts == nb_plaintexts,
            forall|i: int|
                0 <= i < nb_plaintexts ==> (#[trigger] r.encoders@[i]) == (Encoder {
                    o: Fix { units: 0 },
                    delta: Fix { units: 0 },
                    nb_bit_precision: 0,
                    nb_bit_padding: 0,
                    round: false,
                }),
            forall|i: int| 0 <= i < nb_plaintexts ==> r.plaintexts@[i] == 0u64,
    {
        let mut encoders: Vec<Encoder> = Vec::new();
        let mut plaintexts: Vec<u64> = Vec::new();
        let mut i: usize = 0;
        while i < nb_plaintexts
            invariant
                i <= nb_plaintexts,
                encoders@.len() == i,
                plaintexts@.len() == i,
                forall|j: int|
                    0 <= j < i ==> (#[trigger] encoders@[j]) == (Encoder {
                        o: Fix { units: 0 },
                        delta: Fix { units: 0 },
                        nb_bit_precision: 0,
                        nb_bit_padding: 0,
                        round: false,
                    }),
                forall|j: int| 0 <= j < i ==> plaintexts@[j] == 0u64,
            decreases nb_plaintexts - i,
        {
            encoders.push(Encoder::zero());
            plaintexts.push(0u64);
            i = i + 1;
        }
        Plaintext { encoders, plaintexts, nb_plaintexts }
    }

    /// Encodes every message under the one shared encoder. Fails, on the
    /// first message in list order that cannot be encoded, with that
    /// message's error.
    pub fn encode(messages: &Vec<Fix>, encoder: &Encoder) -> (r: Result<Plaintext, CryptoError>)
        requires
            encoder.wf(),
            forall|i: int| 0 <= i < messages@.len() ==> (#[trigger] messages@[i]).bounded(),
        ensures
            r is Ok <==> forall|i: int|
                0 <= i < messages@.len() ==> encode_err(*encoder, #[trigger] messages@[i].units
                    as int) is None,
            r matches Err(er) ==> exists|i: int|
                0 <= i < messages@.len() && encode_err(*encoder, #[trigger] messages@[i].units
                    as int) == Some(er) && forall|j: int|
                    0 <= j < i ==> encode_err(*encoder, #[trigger] messages@[j].units
                        as int) is None,
            r matches Ok(p) ==> p.wf() && p.nb_plaintexts == messages@.len() && forall|i: int|
                0 <= i < messages@.len() ==> p.encoders@[i] == *encoder
                    && p.plaintexts@[i] == encoder.encode_spec(#[trigger] messages@[i].units
                    as int),
    {
        let mut encoders: Vec<Encoder> = Vec::new();
        let mut plaintexts: Vec<u64> = Vec::new();
        let mut i: usize = 0;
        while i < messages.len()
            invariant
                i <= messages@.len(),
                encoder.wf(),
                forall|k: int| 0 <= k < messages@.len() ==> (#[trigger] messages@[k]).bounded(),
                encoders@.len() == i,
                plaintexts@.len() == i,
                forall|j: int|
                    0 <= j < i ==> encode_err(*encoder, #[trigger] messages@[j].units
                        as int) is None,
                forall|j: int| 0 <= j < i ==> encoders@[j] == *encoder,
                forall|j: int|
                    0 <= j < i ==> plaintexts@[j] == encoder.encode_spec(
                        #[trigger] messages@[j].units as int,
                    ),
            decreases messages@.len() - i,
        {
            let m = messages[i];
            match encoder.encode_core(m) {
                Ok(t) => {
                    encoders.push(*encoder);
                    plaintexts.push(t);
                },
                Err(er) => {
                    return Err(er);
                },
            }
            i = i + 1;
        }
        let nb = messages.len();
        Ok(Plaintext { encoders, plaintexts, nb_plaintexts: nb })
    }

    /// Re-encodes messages into this instance under its per-slot encoders.
    /// The message list must have exactly one message per slot, else
    /// `WrongSizeError`; the slots are written only after every message has
    /// encoded, so a failure leaves the instance unchanged.
    pub fn encode_inplace(&mut self, messages: &Vec<Fix>) -> (r: Result<(), CryptoError>)
        requires
            old(self).wf(),
            forall|i: int| 0 <= i < messages@.len() ==> (#[trigger] messages@[i]).bounded(),
        ensures
            final(self).wf(),
            final(self).encoders == old(self).encoders,
            final(self).nb_plaintexts == old(self).nb_plaintexts,
            messages@.len() != old(self).nb_plaintexts ==> r == Err::<(), CryptoError>(
                CryptoError::WrongSizeError,
            ) && *final(self) == *old(self),
            r is Ok <==> messages@.len() == old(self).nb_plaintexts && forall|i: int|
                0 <= i < messages@.len() ==> encode_err(
                    old(self).encoders@[i],
                    #[trigger] messages@[i].units as int,
                ) is None,
            r is Err ==> final(self).plaintexts == old(self).plaintexts,
            r matches Err(er) ==> messages@.len() != old(self).nb_plaintexts || exists|i: int|
                0 <= i < messages@.len() && encode_err(
                    old(self).encoders@[i],
                    #[trigger] messages@[i].units as int,
                ) == Some(er),
            r is Ok ==> forall|i: int|
                0 <= i < messages@.len() ==> final(self).plaintexts@[i] == old(
                    self,
                ).encoders@[i].encode_spec(#[trigger] messages@[i].units as int),
    {
        if messages.len() != self.nb_plaintexts {
            return Err(CryptoError::WrongSizeError);
        }
        let mut fresh: Vec<u64> = Vec::new();
        let mut i: usize = 0;
        while i < messages.len()
            invariant
                i <= messages@.len(),
                messages@.len() == self.nb_plaintexts,
                self == old(self),
                old(self).wf(),
                forall|k: int| 0 <= k < messages@.len() ==> (#[trigger] messages@[k]).bounded(),
                fresh@.len() == i,
                forall|j: int|
                    0 <= j < i ==> encode_err(
                        old(self).encoders@[j],
                        #[trigger] messages@[j].units as int,
                    ) is None,
                forall|j: int|
                    0 <= j < i ==> fresh@[j] == old(self).encoders@[j].encode_spec(
                        #[trigger] messages@[j].units as int,
                    ),
            decreases messages@.len() - i,
        {
            let m = messages[i];
            let e = &self.encoders[i];
            match e.encode_core(m) {
                Ok(t) => {
                    fresh.push(t);
                },
                Err(er) => {
                    return Err(er);
                },
            }
            i = i + 1;
        }
        self.plaintexts = fresh;
        Ok(())
    }

    /// Decodes the `nth` slot under its own encoder; `IndexError` when the
    /// index is out of range.
    pub fn decode_nth(&self, nth: usize) -> (r: Result<Fix, CryptoError>)
        requires
            self.wf(),
        ensures
            nth >= self.nb_plaintexts ==> r == Err::<Fix, CryptoError>(CryptoError::IndexError),
            nth < self.nb_plaintexts && !self.encoders@[nth as int].valid() ==> r == Err::<
                Fix,
                CryptoError,
            >(CryptoError::InvalidEncoderError),
            r is Ok <==> nth < self.nb_plaintexts && self.encoders@[nth as int].valid(),
            r matches Ok(v) ==> v.units == self.encoders@[nth as int].decode_spec(
                self.plaintexts@[nth as int] as int,
            ),
    {
        if nth >= self.nb_plaintexts {
            return Err(CryptoError::IndexError);
        }
        self.encoders[nth].decode_core(self.plaintexts[nth])
    }

    /// Decodes every slot under its own encoder; fails with
    /// `InvalidEncoderError` when any slot encoder is invalid.
    pub fn decode(&self) -> (r: Result<Vec<Fix>, CryptoError>)
        requires
            self.wf(),
        ensures
            r is Ok <==> forall|i: int|
                0 <= i < self.nb_plaintexts ==> (#[trigger] self.encoders@[i]).valid(),
            r is Err ==> r == Err::<Vec<Fix>, CryptoError>(CryptoError::InvalidEncoderError),
            r matches Ok(v) ==> v@.len() == self.nb_plaintexts && forall|i: int|
                0 <= i < self.nb_plaintexts ==> (#[trigger] v@[i]).units
                    == self.encoders@[i].decode_spec(self.plaintexts@[i] as int),
    {
        let mut out: Vec<Fix> = Vec::new();
        let mut i: usize = 0;
        while i < self.nb_plaintexts
            invariant
                i <= self.nb_plaintexts,
                self.wf(),
                out@.len() == i,
                forall|j: int| 0 <= j < i ==> (#[trigger] self.encoders@[j]).valid(),
                forall|j: int|
                    0 <= j < i ==> (#[trigger] out@[j]).units == self.encoders@[j].decode_spec(
                        self.plaintexts@[j] as int,
                    ),
            decreases self.nb_plaintexts - i,
        {
            match self.encoders[i].decode_core(self.plaintexts[i]) {
                Ok(v) => {
                    out.push(v);
                },
                Err(er) => {
                    return Err(er);
                },
            }
            i = i + 1;
        }
        Ok(out)
    }

    /// Assigns each given encoder to the slot at the same position, as an
    /// independent value copy; the list must have one encoder per slot.
    pub fn set_encoders(&mut self, encoders: &Vec<Encoder>)
        requires
            old(self).wf(),
            encoders@.len() == old(self).nb_plaintexts,
            forall|i: int| 0 <= i < encoders@.len() ==> (#[trigger] encoders@[i]).wf(),
        ensures
            final(self).wf(),
            final(self).plaintexts == old(self).plaintexts,
            final(self).nb_plaintexts == old(self).nb_plaintexts,
            final(self).encoders@.len() == old(self).encoders@.len(),
            forall|i: int|
                0 <= i < old(self).nb_plaintexts ==> (#[trigger] final(self).encoders@[i])
                    == encoders@[i],
    {
        let n = self.nb_plaintexts;
        let mut i: usize = 0;
        while i < n
            invariant
                i <= n,
                n == old(self).nb_plaintexts,
                encoders@.len() == n,
                old(self).wf(),
                self.nb_plaintexts == n,
                self.plaintexts == old(self).plaintexts,
                self.encoders@.len() == n,
                forall|k: int| 0 <= k < encoders@.len() ==> (#[trigger] encoders@[k]).wf(),
                forall|j: int|
                    0 <= j < i ==> (#[trigger] self.encoders@[j]) == encoders@[j],
                forall|j: int|
                    i <= j < n ==> (#[trigger] self.encoders@[j]) == old(self).encoders@[j],
            decreases n - i,
        {
            let src = encoders[i];
            self.encoders.set(i, src);
            i = i + 1;
        }
    }

    /// Assigns an independent value copy of the one encoder to every slot.
    pub fn set_encoders_from_one(&mut self, encoder: &Encoder)
        requires
            old(self).wf(),
            encoder.wf(),
        ensures
            final(self).wf(),
            final(self).plaintexts == old(self).plaintexts,
            final(self).nb_plaintexts == old(self).nb_plaintexts,
            final(self).encoders@.len() == old(self).encoders@.len(),
            forall|i: int|
                0 <= i < old(self).nb_plaintexts ==> (#[trigger] final(self).encoders@[i])
                    == *encoder,
    {
        let n = self.nb_plaintexts;
        let mut i: usize = 0;
        while i < n
            invariant
                i <= n,
                n == old(self).nb_plaintexts,
                old(self).wf(),
                encoder.wf(),
                self.nb_plaintexts == n,
                self.plaintexts == old(self).plaintexts,
                self.encoders@.len() == n,
                forall|j: int| 0 <= j < i ==> (#[trigger] self.encoders@[j]) == *encoder,
                forall|j: int|
                    i <= j < n ==> (#[trigger] self.encoders@[j]) == old(self).encoders@[j],
            decreases n - i,
        {
            self.encoders.set(i, *encoder);
            i = i + 1;
        }
    }

    /// Assigns an independent value copy of the given encoder to the `nth`
    /// slot alone.
    pub fn set_nth_encoder(&mut self, nth: usize, encoder: &Encoder)
        requires
            old(self).wf(),
            nth < old(self).nb_plaintexts,
            encoder.wf(),
        ensures
            final(self).wf(),
            final(self).plaintexts == old(self).plaintexts,
            final(self).nb_plaintexts == old(self).nb_plaintexts,
            final(self).encoders@.len() == old(self).encoders@.len(),
            final(self).encoders@[nth as int] == *encoder,
            forall|i: int|
                0 <= i < old(self).nb_plaintexts && i != nth ==> (#[trigger] final(self).encoders@[i])
                    == old(self).encoders@[i],
    {
        self.encoders.set(nth, *encoder);
    }
}

impl Encoder {
    /// Encodes one message under this encoder into a one-slot plaintext
    /// list; the message must lie in `[o, o + delta)`.
    pub fn encode_single(&self, message: Fix) -> (r: Result<Plaintext, CryptoError>)
        requires
            self.wf(),
            message.bounded(),
        ensures
            r is Ok <==> encode_err(*self, message.units as int) is None,
            r matches Err(er) ==> encode_err(*self, message.units as int) == Some(er),
            r matches Ok(p) ==> p.wf() && p.nb_plaintexts == 1 && p.encoders@[0] == *self
                && p.plaintexts@[0] == self.encode_spec(message.units as int),
    {
        match self.encode_core(message) {
            Ok(t) => {
                let mut encoders: Vec<Encoder> = Vec::new();
                let mut plaintexts: Vec<u64> = Vec::new();
                encoders.push(*self);
                plaintexts.push(t);
                Ok(Plaintext { encoders, plaintexts, nb_plaintexts: 1 })
            },
            Err(er) => Err(er),
        }
    }

    /// Encodes several messages under this one encoder; every slot of the
    /// result carries a copy of it.
    pub fn encode(&self, messages: &Vec<Fix>) -> (r: Result<Plaintext, CryptoError>)
        requires
            self.wf(),
            forall|i: int| 0 <= i < messages@.len() ==> (#[trigger] messages@[i]).bounded(),
        ensures
            r is Ok <==> forall|i: int|
                0 <= i < messages@.len() ==> encode_err(*self, #[trigger] messages@[i].units
                    as int) is None,
            r matches Err(er) ==> exists|i: int|
                0 <= i < messages@.len() && encode_err(*self, #[trigger] messages@[i].units
                    as int) == Some(er),
            r matches Ok(p) ==> p.wf() && p.nb_plaintexts == messages@.len() && forall|i: int|
                0 <= i < messages@.len() ==> p.encoders@[i] == *self && p.plaintexts@[i]
                    == self.encode_spec(#[trigger] messages@[i].units as int),
    {
        let mut encoders: Vec<Encoder> = Vec::new();
        let mut plaintexts: Vec<u64> = Vec::new();
        let mut i: usize = 0;
        while i < messages.len()
            invariant
                i <= messages@.len(),
                self.wf(),
                forall|k: int| 0 <= k < messages@.len() ==> (#[trigger] messages@[k]).bounded(),
                encoders@.len() == i,
                plaintexts@.len() == i,
                forall|j: int|
                    0 <= j < i ==> encode_err(*self, #[trigger] messages@[j].units
                        as int) is None,
                forall|j: int| 0 <= j < i ==> encoders@[j] == *self,
                forall|j: int|
                    0 <= j < i ==> plaintexts@[j] == self.encode_spec(
                        #[trigger] messages@[j].units as int,
                    ),
            decreases messages@.len() - i,
        {
            let m = messages[i];
            match self.encode_core(m) {
                Ok(t) => {
                    encoders.push(*self);
                    plaintexts.push(t);
                },
                Err(er) => {
                    return Err(er);
                },
            }
            i = i + 1;
        }
        let nb = messages.len();
        Ok(Plaintext { encoders, plaintexts, nb_plaintexts: nb })
    }
}

} // verus!
