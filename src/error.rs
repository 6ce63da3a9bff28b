use vstd::prelude::*;

verus! {

/// Why a decode failed.
#[derive(Clone, Copy, Debug, PartialEq, Eq, Structural)]
pub enum DecodeError {
    /// Fewer bytes remain than a header or a declared length requires.
    TruncatedInput,
    /// Indefinite length, a high tag number, or an integer of a length
    /// other than 0, 2, 4 or 8 bytes.
    UnsupportedEncoding,
    /// A universal type without a decoder, or an Application or Private
    /// class element.
    UnsupportedType,
    /// Payload bytes that a value decoder rejects (text that is not UTF-8).
    InvalidEncoding,
}

impl DecodeError {
    /// A short description of the error.
    pub fn message(&self) -> (r: String) {
        match self {
            DecodeError::TruncatedInput => String::from_str("truncated input"),
            DecodeError::UnsupportedEncoding => String::from_str("unsupported encoding"),
            DecodeError::UnsupportedType => String::from_str("unsupported type"),
            DecodeError::InvalidEncoding => String::from_str("invalid encoding"),
        }
    }
}

} // verus!
