//! Error kinds shared by every fallible operation of the library.

use vstd::prelude::*;

verus! {

/// Categorical failure kinds: every fallible operation returns a success
/// value or one of these, and the caller decides recovery. None is retried
/// internally.
#[derive(Clone, Copy, Debug, PartialEq, Eq, Structural)]
pub enum CryptoError {
    /// `max <= min` at Encoder construction.
    InvalidIntervalError,
    /// `nb_bit_precision == 0` at Encoder construction.
    InvalidPrecisionError,
    /// Message not in `[o, o + delta)` during a strict encode.
    MessageOutsideIntervalError,
    /// Operating on an Encoder with `is_valid() == false`.
    InvalidEncoderError,
    /// Mismatched mask dimension between operands, or versus a key.
    DimensionError,
    /// Mismatched Encoder `delta` between operands.
    DeltaError,
    /// Mismatched `nb_bit_padding` between operands.
    PaddingError,
    /// Required padding bits exceed what remains.
    NotEnoughPaddingError,
    /// Real-scalar multiplication requires 0 inside the interval.
    ZeroInIntervalError,
    /// Scalar exceeds its declared bound.
    ConstantMaximumError,
    /// Out-of-range slot or coefficient index.
    IndexError,
    /// Mismatched `polynomial_size`.
    PolynomialSizeError,
    /// `polynomial_size` is not a power of two.
    NotPowerOfTwoError,
    /// Constructing a vector container with zero slots.
    ZeroCiphertextsInStructureError,
    /// Fewer valid slots than supplied messages in the packed case.
    NotEnoughValidEncoderError,
    /// Raw-plaintext length is not a multiple of `polynomial_size`.
    WrongSizeError,
}

impl CryptoError {
    /// A short human-readable name for the error kind.
    pub fn name(&self) -> String {
        match self {
            CryptoError::InvalidIntervalError => "InvalidIntervalError".to_string(),
            CryptoError::InvalidPrecisionError => "InvalidPrecisionError".to_string(),
            CryptoError::MessageOutsideIntervalError => "MessageOutsideIntervalError".to_string(),
            CryptoError::InvalidEncoderError => "InvalidEncoderError".to_string(),
            CryptoError::DimensionError => "DimensionError".to_string(),
            CryptoError::DeltaError => "DeltaError".to_string(),
            CryptoError::PaddingError => "PaddingError".to_string(),
            CryptoError::NotEnoughPaddingError => "NotEnoughPaddingError".to_string(),
            CryptoError::ZeroInIntervalError => "ZeroInIntervalError".to_string(),
            CryptoError::ConstantMaximumError => "ConstantMaximumError".to_string(),
            CryptoError::IndexError => "IndexError".to_string(),
            CryptoError::PolynomialSizeError => "PolynomialSizeError".to_string(),
            CryptoError::NotPowerOfTwoError => "NotPowerOfTwoError".to_string(),
            CryptoError::ZeroCiphertextsInStructureError => {
                "ZeroCiphertextsInStructureError".to_string()
            },
            CryptoError::NotEnoughValidEncoderError => "NotEnoughValidEncoderError".to_string(),
            CryptoError::WrongSizeError => "WrongSizeError".to_string(),
        }
    }
}

} // verus!
