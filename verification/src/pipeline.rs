//! From an export string to its values and back: the stages in their order.

use crate::ace_serialize::deserialization::Deserializer as LegacyDeserializer;
use crate::base64::Kernel;
use crate::base64::byte_map::is_symbol;
use crate::base64::model::{lemma_decode_encode, lemma_encoded_values};
use crate::compression::{deflate, deflate_spec, inflate, inflate_spec};
use crate::error::CodecError;
use crate::lib_serialize::deserialization::Deserializer;
use crate::lib_serialize::laws::{lemma_deserialize_serialize, representable};
use crate::lib_serialize::serialization::Serializer;
use crate::text::{as_text, str_from_utf8};
use crate::value::{fits, models_of, sound, LuaValue, Value};
use vstd::prelude::*;
use vstd::slice::slice_subrange;
use vstd::string::{StringExecFns, StringSliceAdditionalSpecFns};
use vstd::utf8::valid_utf8;

verus! {

/// The forms that an export string has had over time. Its first bytes tell
/// them apart.
#[derive(Clone, Copy, Debug, PartialEq, Eq, Structural)]
pub enum StringVersion {
    /// No mark: base64 text of a legacy container that holds legacy text.
    Huffman,
    /// The mark `!`: base64 text of a DEFLATE stream that holds legacy text.
    Deflate,
    /// The mark `!WA:2!`: base64 text of a DEFLATE stream that holds a binary
    /// stream.
    BinarySerialization,
}

/// The mark of the newest form: `!WA:2!`.
pub const MARK: [u8; 6] = [0x21, 0x57, 0x41, 0x3a, 0x32, 0x21];

/// Whether the byte is ASCII white space: a blank, a tab, a line feed, a form
/// feed or a carriage return.
pub open spec fn is_ascii_whitespace(c: u8) -> bool {
    c == 0x20 || c == 0x09 || c == 0x0a || c == 0x0c || c == 0x0d
}

/// How long the bytes are without the ASCII white space at their end.
pub open spec fn trimmed_len(s: Seq<u8>) -> nat
    decreases s.len(),
{
    if s.len() > 0 && is_ascii_whitespace(s.last()) {
        trimmed_len(s.drop_last())
    } else {
        s.len()
    }
}

/// The bytes without the ASCII white space at their end.
pub open spec fn trimmed(s: Seq<u8>) -> Seq<u8> {
    s.take(trimmed_len(s) as int)
}

/// Whether the bytes begin with the mark `!WA:2!`.
pub open spec fn has_mark(s: Seq<u8>) -> bool {
    s.len() >= 6 && s.take(6) == MARK@
}

/// The form of an export string.
pub open spec fn version_of(s: Seq<u8>) -> StringVersion {
    if has_mark(s) {
        StringVersion::BinarySerialization
    } else if s.len() > 0 && s[0] == 0x21 {
        StringVersion::Deflate
    } else {
        StringVersion::Huffman
    }
}

/// How many bytes the mark of the form takes.
pub open spec fn mark_len(version: StringVersion) -> nat {
    match version {
        StringVersion::BinarySerialization => 6,
        StringVersion::Deflate => 1,
        StringVersion::Huffman => 0,
    }
}

/// The values of legacy text given as bytes, which must be UTF-8.
pub open spec fn legacy_values(content: Seq<u8>) -> Result<Seq<Value>, CodecError> {
    if valid_utf8(content) {
        crate::ace_serialize::deserialize_spec(content)
    } else {
        Err(CodecError::InvalidUtf8)
    }
}

/// The values that packed bytes of the given form hold.
pub open spec fn unpack_spec(version: StringVersion, packed: Seq<u8>) -> Result<
    Seq<Value>,
    CodecError,
> {
    match version {
        StringVersion::Huffman => match crate::huffman::decompress_spec(packed) {
            Err(e) => Err(e),
            Ok(content) => legacy_values(content),
        },
        StringVersion::Deflate => match inflate_spec(packed) {
            Err(e) => Err(e),
            Ok(content) => legacy_values(content),
        },
        StringVersion::BinarySerialization => match inflate_spec(packed) {
            Err(e) => Err(e),
            Ok(content) => crate::lib_serialize::deserialize_spec(content),
        },
    }
}

/// The values that an export string holds.
///
/// The mark at its start tells its form. What follows the mark, without the
/// ASCII white space at the end, is base64 text. The bytes it stands for are
/// a legacy container or a DEFLATE stream, and what that holds is legacy
/// text or a binary stream, by the form.
pub open spec fn decode_spec(data: Seq<u8>) -> Result<Seq<Value>, CodecError> {
    let version = version_of(data);
    match crate::base64::model::decode_spec(trimmed(data.skip(mark_len(version) as int))) {
        Err(e) => Err(e),
        Ok(packed) => unpack_spec(version, packed),
    }
}

/// The export string of a value: the mark of the newest form, and the base64
/// text of the DEFLATE stream of the binary stream of the value.
pub open spec fn encode_spec(value: Value) -> Result<Seq<char>, CodecError> {
    match crate::lib_serialize::serialize_spec(value) {
        Err(e) => Err(e),
        Ok(stream) => match deflate_spec(stream) {
            Err(e) => Err(e),
            Ok(packed) => if 4 * packed.len() + 2 > usize::MAX {
                Err(CodecError::InvalidLength)
            } else {
                Ok("!WA:2!"@ + as_text(crate::base64::model::encode_spec(packed)))
            },
        },
    }
}

/// The slice without the ASCII white space at its end.
pub fn trim_ascii_from_end_of_slice(slice: &[u8]) -> (bytes: &[u8])
    ensures
        bytes@ == trimmed(slice@),
{
    let mut end: usize = slice.len();
    assert(slice@.take(end as int) =~= slice@);
    while end > 0 && is_whitespace(slice[end - 1])
        invariant
            end <= slice.len(),
            trimmed_len(slice@.take(end as int)) == trimmed_len(slice@),
        decreases end,
    {
        proof {
            assert(slice@.take(end as int).drop_last() =~= slice@.take(end as int - 1));
        }
        end = end - 1;
    }
    slice_subrange(slice, 0, end)
}

/// Whether the byte is ASCII white space.
fn is_whitespace(c: u8) -> (b: bool)
    ensures
        b == is_ascii_whitespace(c),
{
    c == 0x20 || c == 0x09 || c == 0x0a || c == 0x0c || c == 0x0d
}

/// The form of an export string, by its first bytes.
pub fn detect_version(data: &[u8]) -> (version: StringVersion)
    ensures
        version == version_of(data@),
{
    if data.len() >= 6 && data[0] == MARK[0] && data[1] == MARK[1] && data[2] == MARK[2] && data[3]
        == MARK[3] && data[4] == MARK[4] && data[5] == MARK[5] {
        assert(data@.take(6) =~= MARK@);
        StringVersion::BinarySerialization
    } else {
        assert(has_mark(data@) ==> data@.take(6)[0] == MARK@[0] && data@.take(6)[1] == MARK@[1]
            && data@.take(6)[2] == MARK@[2] && data@.take(6)[3] == MARK@[3] && data@.take(6)[4]
            == MARK@[4] && data@.take(6)[5] == MARK@[5]);
        if data.len() > 0 && data[0] == 0x21 {
            StringVersion::Deflate
        } else {
            StringVersion::Huffman
        }
    }
}

/// Reads the values of legacy text given as bytes, which must be UTF-8.
pub fn read_legacy(content: &[u8]) -> (r: Result<Vec<LuaValue>, CodecError>)
    ensures
        match legacy_values(content@) {
            Ok(values) => r is Ok && models_of(r.unwrap()@) == values,
            Err(e) => r == Err::<Vec<LuaValue>, CodecError>(e),
        },
{
    match str_from_utf8(content) {
        None => Err(CodecError::InvalidUtf8),
        Some(text) => LegacyDeserializer::from_str(text).deserialize(),
    }
}

/// Reads the values that packed bytes of the given form hold.
pub fn unpack(version: StringVersion, packed: &[u8]) -> (r: Result<Vec<LuaValue>, CodecError>)
    ensures
        match unpack_spec(version, packed@) {
            Ok(values) => r is Ok && models_of(r.unwrap()@) == values,
            Err(e) => r == Err::<Vec<LuaValue>, CodecError>(e),
        },
{
    match version {
        StringVersion::Huffman => match crate::huffman::decompress(packed) {
            Err(e) => Err(e),
            Ok(content) => read_legacy(content.as_slice()),
        },
        StringVersion::Deflate => match inflate(packed) {
            Err(e) => Err(e),
            Ok(content) => read_legacy(content.as_slice()),
        },
        StringVersion::BinarySerialization => match inflate(packed) {
            Err(e) => Err(e),
            Ok(content) => Deserializer::from_slice(content.as_slice()).deserialize(),
        },
    }
}

/// Decodes an export string into the values that it holds, as `decode_spec`
/// says. On failure no value is given.
pub fn decode(data: &str) -> (r: Result<Vec<LuaValue>, CodecError>)
    ensures
        match decode_spec(data.spec_bytes()) {
            Ok(values) => r is Ok && models_of(r.unwrap()@) == values,
            Err(e) => r == Err::<Vec<LuaValue>, CodecError>(e),
        },
{
    decode_with(Kernel::Lanes16, data)
}

/// Decodes an export string with the given base64 kernel. The kernel changes
/// the speed and nothing else.
pub fn decode_with(kernel: Kernel, data: &str) -> (r: Result<Vec<LuaValue>, CodecError>)
    ensures
        match decode_spec(data.spec_bytes()) {
            Ok(values) => r is Ok && models_of(r.unwrap()@) == values,
            Err(e) => r == Err::<Vec<LuaValue>, CodecError>(e),
        },
{
    let bytes: &[u8] = data.as_bytes();
    let version: StringVersion = detect_version(bytes);
    let skip: usize = match version {
        StringVersion::BinarySerialization => 6,
        StringVersion::Deflate => 1,
        StringVersion::Huffman => 0,
    };
    let body: &[u8] = slice_subrange(bytes, skip, bytes.len());
    assert(body@ =~= data.spec_bytes().skip(skip as int));
    let text: &[u8] = trim_ascii_from_end_of_slice(body);
    match crate::base64::decode::decode_slice_with(kernel, text) {
        Err(e) => Err(e),
        Ok(packed) => unpack(version, packed.as_slice()),
    }
}

/// Encodes a value as an export string of the newest form, as `encode_spec`
/// says.
pub fn encode(value: &LuaValue) -> (r: Result<String, CodecError>)
    ensures
        match encode_spec(value@) {
            Ok(text) => r is Ok && r.unwrap()@ == text,
            Err(e) => r == Err::<String, CodecError>(e),
        },
{
    encode_with(Kernel::Lanes16, value)
}

/// Encodes a value as an export string with the given base64 kernel. The
/// kernel changes the speed and nothing else.
pub fn encode_with(kernel: Kernel, value: &LuaValue) -> (r: Result<String, CodecError>)
    ensures
        match encode_spec(value@) {
            Ok(text) => r is Ok && r.unwrap()@ == text,
            Err(e) => r == Err::<String, CodecError>(e),
        },
{
    let stream: Vec<u8> = match Serializer::serialize(value, None) {
        Err(e) => {
            return Err(e);
        },
        Ok(stream) => stream,
    };
    let packed: Vec<u8> = match deflate(stream.as_slice()) {
        Err(e) => {
            return Err(e);
        },
        Ok(packed) => packed,
    };
    match crate::base64::encode::encode_with(kernel, packed.as_slice()) {
        Err(e) => Err(e),
        Ok(encoded) => {
            let mut text: String = String::from_str("!WA:2!");
            text.append(encoded.as_str());
            Ok(text)
        },
    }
}

/// The bytes of the export string of the newest form that holds the given
/// packed bytes.
pub open spec fn export_of(packed: Seq<u8>) -> Seq<u8> {
    MARK@ + crate::base64::model::encode_spec(packed)
}

/// Bytes that do not end in ASCII white space lose nothing by trimming.
pub proof fn lemma_nothing_to_trim(s: Seq<u8>)
    requires
        s.len() == 0 || !is_ascii_whitespace(s.last()),
    ensures
        trimmed(s) == s,
{
    assert(s.take(s.len() as int) =~= s);
}

/// The export string of a value is made of the mark of the newest form and
/// of base64 text, one character to a byte.
pub proof fn lemma_export_is_marked(value: Value)
    requires
        encode_spec(value) is Ok,
    ensures
        crate::lib_serialize::serialize_spec(value) is Ok,
        deflate_spec(crate::lib_serialize::serialize_spec(value).unwrap()) is Ok,
        encode_spec(value).unwrap() == as_text(
            export_of(deflate_spec(crate::lib_serialize::serialize_spec(value).unwrap()).unwrap()),
        ),
        encode_spec(value).unwrap().take(6) == "!WA:2!"@,
{
    reveal_strlit("!WA:2!");
    let stream = crate::lib_serialize::serialize_spec(value).unwrap();
    let packed = deflate_spec(stream).unwrap();
    let encoded = crate::base64::model::encode_spec(packed);
    assert("!WA:2!"@ =~= as_text(MARK@));
    assert(as_text(MARK@) + as_text(encoded) =~= as_text(MARK@ + encoded));
    assert(("!WA:2!"@ + as_text(encoded)).take(6) =~= "!WA:2!"@);
}

/// Decoding gives back what was encoded, as far as inflating gives back what
/// was deflated: where the stream of a value inflates from its packed bytes,
/// the export string of the value holds that value and no other.
pub proof fn lemma_decode_export(value: Value)
    requires
        sound(value),
        representable(value),
        fits(value, crate::lib_serialize::MAX_DEPTH as nat),
        deflate_spec(crate::lib_serialize::serialize_spec(value).unwrap()) is Ok,
        inflate_spec(deflate_spec(crate::lib_serialize::serialize_spec(value).unwrap()).unwrap())
            == Ok::<Seq<u8>, CodecError>(crate::lib_serialize::serialize_spec(value).unwrap()),
    ensures
        decode_spec(
            export_of(deflate_spec(crate::lib_serialize::serialize_spec(value).unwrap()).unwrap()),
        ) == Ok::<Seq<Value>, CodecError>(seq![value]),
{
    lemma_deserialize_serialize(value);
    let stream = crate::lib_serialize::serialize_spec(value).unwrap();
    let packed = deflate_spec(stream).unwrap();
    let encoded = crate::base64::model::encode_spec(packed);
    let data = export_of(packed);
    assert(data.take(6) =~= MARK@);
    assert(data.skip(6) =~= encoded);
    if encoded.len() > 0 {
        lemma_encoded_values(packed, encoded.len() - 1);
        crate::base64::byte_map::lemma_symbol_of_value(
            crate::base64::model::sextet_at(packed, encoded.len() - 1),
        );
        assert(is_symbol(encoded.last()));
    }
    lemma_nothing_to_trim(encoded);
    lemma_decode_encode(packed);
}

} // verus!
