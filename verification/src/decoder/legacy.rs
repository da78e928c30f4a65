//! The oldest form: printable text that holds a legacy container.

use crate::decoder::{decode_symbols, lenient_octets};
use crate::error::CodecError;
use crate::huffman::{decompress, decompress_spec};
use vstd::prelude::*;
use vstd::string::StringSliceAdditionalSpecFns;

verus! {

/// Decodes printable text leniently: a byte that is no symbol counts as the
/// symbol of the value 0, every group of four symbols gives three bytes, and
/// symbols at the end that do not fill a byte are dropped.
pub fn decode_for_print(s: &str) -> (result: Vec<u8>)
    ensures
        result@ == lenient_octets(s.spec_bytes(), s.spec_bytes().len()),
{
    let bytes: &[u8] = s.as_bytes();
    decode_symbols(bytes, bytes.len())
}

/// Unpacks a legacy container that is decoded from printable text, as
/// `decompress` says.
pub fn decompress_huffman(bytes: &[u8]) -> (r: Result<Vec<u8>, CodecError>)
    ensures
        match decompress_spec(bytes@) {
            Ok(content) => r is Ok && r.unwrap()@ == content,
            Err(e) => r == Err::<Vec<u8>, CodecError>(e),
        },
{
    decompress(bytes)
}

/// Decodes the oldest form of an export string: printable text that holds a
/// legacy container.
pub fn decode(data: &str) -> (r: Result<Vec<u8>, CodecError>)
    ensures
        match decompress_spec(lenient_octets(data.spec_bytes(), data.spec_bytes().len())) {
            Ok(content) => r is Ok && r.unwrap()@ == content,
            Err(e) => r == Err::<Vec<u8>, CodecError>(e),
        },
{
    let decoded: Vec<u8> = decode_for_print(data);
    decompress_huffman(decoded.as_slice())
}

} // verus!
