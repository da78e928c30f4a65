//! The deflated form: printable text that holds a raw DEFLATE stream.

use crate::compression::{inflate, inflate_spec};
use crate::decoder::{decode_symbols, lenient_octets};
use crate::error::CodecError;
use vstd::prelude::*;
use vstd::string::StringSliceAdditionalSpecFns;

verus! {

/// Decodes printable text leniently, group by group: a byte that is no
/// symbol counts as the symbol of the value 0, and symbols at the end that
/// do not fill a byte are dropped.
pub fn decode_for_print(s: &str) -> (result: Vec<u8>)
    ensures
        result@ == lenient_octets(s.spec_bytes(), s.spec_bytes().len()),
{
    let bytes: &[u8] = s.as_bytes();
    decode_symbols(bytes, bytes.len())
}

/// Decodes the deflated form of an export string, its mark taken off:
/// printable text that holds a raw DEFLATE stream.
pub fn decode(data: &str) -> (r: Result<Vec<u8>, CodecError>)
    ensures
        match inflate_spec(lenient_octets(data.spec_bytes(), data.spec_bytes().len())) {
            Ok(content) => r is Ok && r.unwrap()@ == content,
            Err(e) => r == Err::<Vec<u8>, CodecError>(e),
        },
{
    let decoded: Vec<u8> = decode_for_print(data);
    inflate(decoded.as_slice())
}

} // verus!
