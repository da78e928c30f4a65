//! The failures of the codec.

use vstd::prelude::*;

verus! {

/// Why an export string could not be decoded, or a value could not be encoded.
///
/// Every failure of the codec is one of these categories. A failure is final:
/// the same input fails in the same way every time.
#[derive(Clone, Copy, Debug, PartialEq, Eq, Structural)]
pub enum CodecError {
    /// A byte of base64 text lies outside the alphabet.
    InvalidSymbol,
    /// Base64 text of a length that no byte sequence encodes to, or input
    /// too long for its encoding to be addressed.
    InvalidLength,
    /// The codec tag of a legacy container is neither "stored" nor "Huffman".
    UnknownCodec,
    /// A legacy container is too short for its header, declares no content,
    /// or declares a code without bits.
    InsufficientData,
    /// The input ends in the middle of a field.
    UnexpectedEndOfInput,
    /// More than 32 bits are waiting in the bit accumulator.
    EncodingTooLong,
    /// The DEFLATE stream is corrupt.
    InflateFailed,
    /// The DEFLATE stream inflates to more than the ceiling allows.
    OutputTooLarge,
    /// The compressor reported a failure.
    DeflateFailed,
    /// A `~` in a legacy string is followed by a byte that is no escape.
    InvalidEscape,
    /// The text of a number is not a number.
    InvalidNumber,
    /// A control token is missing, or is none of the known ones.
    InvalidIdentifier,
    /// A table is closed between a key and its value.
    UnexpectedEndOfTable,
    /// Null stands where a table key is expected.
    NullKeyNotAllowed,
    /// Tables are nested more deeply than the limit allows.
    RecursionLimitExceeded,
    /// The end marker stands where a table key is expected.
    MissingKey,
    /// The end marker stands where a table value is expected.
    MissingValue,
    /// A mantissa is not followed by its exponent.
    MissingExponent,
    /// Decompressed bytes are not UTF-8 where text is required.
    InvalidUtf8,
}

impl CodecError {
    /// The message of each category, as a view.
    pub open spec fn message_spec(self) -> Seq<char> {
        match self {
            CodecError::InvalidSymbol => "failed to decode base64"@,
            CodecError::InvalidLength => "invalid base64 length"@,
            CodecError::UnknownCodec => "unknown compression codec"@,
            CodecError::InsufficientData => "insufficient data"@,
            CodecError::UnexpectedEndOfInput => "unexpected end of input"@,
            CodecError::EncodingTooLong => "encoding is too long"@,
            CodecError::InflateFailed => "failed to INFLATE"@,
            CodecError::OutputTooLarge => "compressed data is too large"@,
            CodecError::DeflateFailed => "failed to DEFLATE"@,
            CodecError::InvalidEscape => "invalid escape character"@,
            CodecError::InvalidNumber => "failed to parse a number"@,
            CodecError::InvalidIdentifier => "invalid identifier"@,
            CodecError::UnexpectedEndOfTable => "unexpected end of a table"@,
            CodecError::NullKeyNotAllowed => "map key can't be null"@,
            CodecError::RecursionLimitExceeded => "recursion limit exceeded"@,
            CodecError::MissingKey => "missing key"@,
            CodecError::MissingValue => "missing value"@,
            CodecError::MissingExponent => "missing exponent"@,
            CodecError::InvalidUtf8 => "invalid UTF-8"@,
        }
    }

    /// A short description of the failure, for people.
    pub fn message(&self) -> (s: &'static str)
        ensures
            s@ == self.message_spec(),
    {
        match self {
            CodecError::InvalidSymbol => "failed to decode base64",
            CodecError::InvalidLength => "invalid base64 length",
            CodecError::UnknownCodec => "unknown compression codec",
            CodecError::InsufficientData => "insufficient data",
            CodecError::UnexpectedEndOfInput => "unexpected end of input",
            CodecError::EncodingTooLong => "encoding is too long",
            CodecError::InflateFailed => "failed to INFLATE",
            CodecError::OutputTooLarge => "compressed data is too large",
            CodecError::DeflateFailed => "failed to DEFLATE",
            CodecError::InvalidEscape => "invalid escape character",
            CodecError::InvalidNumber => "failed to parse a number",
            CodecError::InvalidIdentifier => "invalid identifier",
            CodecError::UnexpectedEndOfTable => "unexpected end of a table",
            CodecError::NullKeyNotAllowed => "map key can't be null",
            CodecError::RecursionLimitExceeded => "recursion limit exceeded",
            CodecError::MissingKey => "missing key",
            CodecError::MissingValue => "missing value",
            CodecError::MissingExponent => "missing exponent",
            CodecError::InvalidUtf8 => "invalid UTF-8",
        }
    }
}

} // verus!
