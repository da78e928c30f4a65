//! Bytes as text and text as bytes.

use vstd::prelude::*;
use vstd::string::StringSliceAdditionalSpecFns;
use vstd::utf8::valid_utf8;

verus! {

/// The text whose characters are the given bytes, one for one.
pub open spec fn as_text(bytes: Seq<u8>) -> Seq<char> {
    Seq::new(bytes.len(), |i: int| bytes[i] as char)
}

/// Whether every byte is an ASCII character.
pub open spec fn all_ascii(bytes: Seq<u8>) -> bool {
    forall|i: int| 0 <= i < bytes.len() ==> (#[trigger] bytes[i]) < 0x80
}

/// Calls `String::from_utf8` on bytes that are all ASCII. Such bytes are
/// UTF-8, each byte a character of its own, so the call succeeds and the
/// string has those characters. Not proved: taken from the documentation of
/// the standard library.
#[verifier::external_body]
pub(crate) fn string_from_ascii(bytes: Vec<u8>) -> (text: String)
    requires
        all_ascii(bytes@),
    ensures
        text@ == as_text(bytes@),
{
    String::from_utf8(bytes).unwrap_or_default()
}

/// Calls `core::str::from_utf8`: the same bytes as text if they are UTF-8, and
/// nothing if they are not. Not proved: taken from the documentation of the
/// standard library.
#[verifier::external_body]
pub(crate) fn str_from_utf8(bytes: &[u8]) -> (text: Option<&str>)
    ensures
        text is Some <==> valid_utf8(bytes@),
        text is Some ==> text.unwrap().spec_bytes() == bytes@,
{
    core::str::from_utf8(bytes).ok()
}

} // verus!
