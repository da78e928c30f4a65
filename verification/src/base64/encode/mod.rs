//! Encoding of bytes as base64 text, with a choice of kernels that all give
//! the same result.

pub mod scalar;
pub mod wide;

use crate::base64::byte_map::lemma_symbol_of_value;
use crate::base64::model::{
    decode_spec, encode_spec, encoded_len, lemma_decode_encode, lemma_encoded_values,
};
use crate::base64::Kernel;
use crate::error::CodecError;
use crate::text::{all_ascii, as_text, string_from_ascii};
use vstd::prelude::*;
use vstd::string::{is_ascii_spec_bytes, StringExecFns, StringSliceAdditionalSpecFns};

verus! {

/// How many symbols encode the data, or `InvalidLength` if four times the
/// length and two more cannot be addressed.
pub fn calculate_capacity(data: &[u8]) -> (r: Result<usize, CodecError>)
    ensures
        4 * data@.len() + 2 <= usize::MAX ==> r is Ok && r.unwrap() == encoded_len(data@.len()),
        4 * data@.len() + 2 > usize::MAX ==> r == Err::<usize, CodecError>(
            CodecError::InvalidLength,
        ),
{
    let len: usize = data.len();
    if len > (usize::MAX - 2) / 4 {
        return Err(CodecError::InvalidLength);
    }
    Ok((len * 4 + 2) / 3)
}

/// The encoding of any data is made of ASCII characters.
pub proof fn lemma_encoding_is_ascii(data: Seq<u8>)
    ensures
        all_ascii(encode_spec(data)),
{
    assert forall|j: int| 0 <= j < encode_spec(data).len() implies (#[trigger] encode_spec(
        data,
    )[j]) < 0x80 by {
        lemma_encoded_values(data, j);
        lemma_symbol_of_value(crate::base64::model::sextet_at(data, j));
    }
}

/// Encodes the bytes as unpadded text with the given kernel.
///
/// The result does not depend on the kernel: it is the encoding of the data,
/// or `InvalidLength` if the data is too long for the length of its encoding
/// to be computed.
pub fn encode_with(kernel: Kernel, data: &[u8]) -> (r: Result<String, CodecError>)
    ensures
        4 * data@.len() + 2 <= usize::MAX ==> r is Ok && r.unwrap()@ == as_text(
            encode_spec(data@),
        ),
        4 * data@.len() + 2 > usize::MAX ==> r == Err::<String, CodecError>(
            CodecError::InvalidLength,
        ),
{
    let capacity: usize = match calculate_capacity(data) {
        Ok(capacity) => capacity,
        Err(e) => {
            return Err(e);
        },
    };
    let mut buffer: Vec<u8> = Vec::with_capacity(capacity);
    match kernel {
        Kernel::Scalar => scalar::encode(data, &mut buffer),
        Kernel::Lanes16 => wide::encode16(data, &mut buffer),
        Kernel::Lanes32 => wide::encode32(data, &mut buffer),
    }
    proof {
        lemma_encoding_is_ascii(data@);
        assert(buffer@ =~= encode_spec(data@));
    }
    Ok(string_from_ascii(buffer))
}

/// Encodes the bytes as unpadded text, unless they are too many for the
/// length of their encoding to be computed.
pub fn encode(data: &[u8]) -> (r: Result<String, CodecError>)
    ensures
        4 * data@.len() + 2 <= usize::MAX ==> r is Ok && r.unwrap()@ == as_text(
            encode_spec(data@),
        ),
        4 * data@.len() + 2 > usize::MAX ==> r == Err::<String, CodecError>(
            CodecError::InvalidLength,
        ),
{
    encode_with(Kernel::Lanes16, data)
}

/// Encodes the bytes as unpadded text with nothing before it.
pub fn encode_raw(data: &[u8]) -> (r: Result<String, CodecError>)
    ensures
        4 * data@.len() + 2 <= usize::MAX ==> r is Ok && r.unwrap()@ == as_text(
            encode_spec(data@),
        ),
        4 * data@.len() + 2 > usize::MAX ==> r == Err::<String, CodecError>(
            CodecError::InvalidLength,
        ),
{
    encode(data)
}

/// Encodes the bytes as unpadded text behind the given first part.
pub fn encode_with_prefix(data: &[u8], prefix: &str) -> (r: Result<String, CodecError>)
    ensures
        4 * data@.len() + 2 <= usize::MAX ==> r is Ok && r.unwrap()@ == prefix@ + as_text(
            encode_spec(data@),
        ),
        4 * data@.len() + 2 > usize::MAX ==> r == Err::<String, CodecError>(
            CodecError::InvalidLength,
        ),
{
    match encode(data) {
        Ok(encoded) => {
            let mut text: String = String::from_str(prefix);
            text.append(encoded.as_str());
            Ok(text)
        },
        Err(e) => Err(e),
    }
}

/// Text made by encoding decodes to the bytes it was made from.
pub proof fn lemma_decode_encoded_text(text: &str, data: Seq<u8>)
    requires
        text@ == as_text(encode_spec(data)),
    ensures
        decode_spec(text.spec_bytes()) == Ok::<Seq<u8>, CodecError>(data),
{
    broadcast use is_ascii_spec_bytes;

    lemma_encoding_is_ascii(data);
    lemma_decode_encode(data);
    assert(text.is_ascii()) by {
        assert forall|i: int| 0 <= i < text@.len() implies (#[trigger] text@[i]) as nat <= 0x7f by {
            assert(text@[i] == encode_spec(data)[i] as char);
        }
    }
    assert(text.spec_bytes() =~= encode_spec(data));
}

} // verus!
