//! Decoding of base64 text, with a choice of kernels that all give the same
//! result.

pub mod scalar;
pub mod wide;

use crate::base64::model::{decode_spec, decoded_len};
use crate::base64::Kernel;
use crate::error::CodecError;
use vstd::prelude::*;
use vstd::string::StringSliceAdditionalSpecFns;

verus! {

/// How many bytes the text decodes to if all of it is symbols; computed from
/// its length in a way that cannot overflow. A text that leaves one symbol
/// over after groups of four is refused.
pub fn calculate_capacity(s: &str) -> (r: Result<usize, CodecError>)
    ensures
        s.spec_bytes().len() % 4 == 1 ==> r == Err::<usize, CodecError>(
            CodecError::InvalidLength,
        ),
        s.spec_bytes().len() % 4 != 1 ==> r is Ok && r.unwrap() == decoded_len(
            s.spec_bytes().len(),
        ),
{
    let len: usize = s.as_bytes().len();
    let leftover: usize = len % 4;
    if leftover == 1 {
        return Err(CodecError::InvalidLength);
    }
    let mut result: usize = len / 4 * 3;
    if leftover > 0 {
        result += leftover - 1;
    }
    Ok(result)
}

/// Decodes unpadded text, given as bytes, with the given kernel.
///
/// The result does not depend on the kernel: it is the decoding of the text,
/// or `InvalidLength` if the text leaves one symbol over after groups of four,
/// or else `InvalidSymbol` if a byte of it is outside the alphabet.
pub fn decode_slice_with(kernel: Kernel, s: &[u8]) -> (r: Result<Vec<u8>, CodecError>)
    ensures
        match decode_spec(s@) {
            Ok(bytes) => r is Ok && r.unwrap()@ == bytes,
            Err(e) => r == Err::<Vec<u8>, CodecError>(e),
        },
{
    let len: usize = s.len();
    if len % 4 == 1 {
        return Err(CodecError::InvalidLength);
    }
    let mut buffer: Vec<u8> = Vec::with_capacity(len / 4 * 3 + 2);
    let outcome: Result<(), CodecError> = match kernel {
        Kernel::Scalar => scalar::decode(s, &mut buffer),
        Kernel::Lanes16 => wide::decode16(s, &mut buffer),
        Kernel::Lanes32 => wide::decode32(s, &mut buffer),
    };
    match outcome {
        Ok(()) => {
            proof {
                assert(buffer@ =~= decode_spec(s@).unwrap());
            }
            Ok(buffer)
        },
        Err(e) => Err(e),
    }
}

/// Decodes unpadded text with the given kernel.
///
/// The result does not depend on the kernel: it is the decoding of the text,
/// or `InvalidLength` if the text leaves one symbol over after groups of four,
/// or else `InvalidSymbol` if a byte of it is outside the alphabet.
pub fn decode_with(kernel: Kernel, s: &str) -> (r: Result<Vec<u8>, CodecError>)
    ensures
        match decode_spec(s.spec_bytes()) {
            Ok(bytes) => r is Ok && r.unwrap()@ == bytes,
            Err(e) => r == Err::<Vec<u8>, CodecError>(e),
        },
{
    let capacity: usize = match calculate_capacity(s) {
        Ok(capacity) => capacity,
        Err(e) => {
            return Err(e);
        },
    };
    let mut buffer: Vec<u8> = Vec::with_capacity(capacity);
    let outcome: Result<(), CodecError> = match kernel {
        Kernel::Scalar => scalar::decode(s.as_bytes(), &mut buffer),
        Kernel::Lanes16 => wide::decode16(s.as_bytes(), &mut buffer),
        Kernel::Lanes32 => wide::decode32(s.as_bytes(), &mut buffer),
    };
    match outcome {
        Ok(()) => {
            proof {
                assert(buffer@ =~= decode_spec(s.spec_bytes()).unwrap());
            }
            Ok(buffer)
        },
        Err(e) => Err(e),
    }
}

/// Decodes unpadded text: the bytes that it stands for, or `InvalidLength` if
/// the text leaves one symbol over after groups of four, or else
/// `InvalidSymbol` if a byte of it is outside the alphabet.
pub fn decode(s: &str) -> (r: Result<Vec<u8>, CodecError>)
    ensures
        match decode_spec(s.spec_bytes()) {
            Ok(bytes) => r is Ok && r.unwrap()@ == bytes,
            Err(e) => r == Err::<Vec<u8>, CodecError>(e),
        },
{
    decode_with(Kernel::Lanes16, s)
}

} // verus!
