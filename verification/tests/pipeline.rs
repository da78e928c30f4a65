use weakauras_codec::base64::encode::encode as base64_encode;
use weakauras_codec::compression::{bounded, deflate, inflate, packed, MAX_SIZE};
use weakauras_codec::decoder::modern;
use weakauras_codec::error::CodecError;
use weakauras_codec::value::{LuaMapKey, LuaNumber, LuaValue};
use weakauras_codec::base64::Kernel;
use weakauras_codec::{
    decode, decode_with, detect_version, encode, encode_with, read_legacy, trim_ascii_from_end_of_slice,
    unpack, StringVersion,
};

fn text(s: &str) -> LuaValue {
    LuaValue::String(s.as_bytes().to_vec())
}

fn number(n: f64) -> LuaValue {
    LuaValue::Number(LuaNumber::Bits(n.to_bits()))
}

fn table(pairs: Vec<(LuaValue, LuaValue)>) -> LuaValue {
    LuaValue::Table(pairs.into_iter().map(|(k, v)| (LuaMapKey(k), v)).collect())
}

fn deflated_export(mark: &str, content: &[u8]) -> String {
    let mut s = String::from(mark);
    s.push_str(&base64_encode(&deflate(content).unwrap()).unwrap());
    s
}

#[test]
fn encoded_value_is_decoded_again() {
    let value = table(vec![(text("a"), LuaValue::Boolean(true)), (text("b"), number(1.5))]);
    let export = encode(&value).unwrap();
    assert!(export.starts_with("!WA:2!"));
    assert!(export.is_ascii());
    let values = decode(&export).unwrap();
    assert_eq!(values.len(), 1);
    assert!(values[0].same(&value));
    match &values[0] {
        LuaValue::Table(pairs) => {
            assert_eq!(pairs.len(), 2);
            let mut seen_a = false;
            let mut seen_b = false;
            for (key, value) in pairs {
                if key.0.same(&text("a")) {
                    assert!(value.same(&LuaValue::Boolean(true)));
                    seen_a = true;
                } else if key.0.same(&text("b")) {
                    match value {
                        LuaValue::Number(LuaNumber::Bits(bits)) => assert_eq!(f64::from_bits(*bits), 1.5),
                        other => panic!("{:?}", other),
                    }
                    seen_b = true;
                }
            }
            assert!(seen_a && seen_b);
        }
        other => panic!("{:?}", other),
    }
}

#[test]
fn kernel_does_not_change_the_export() {
    let value = table(vec![(text("key"), text("a value that is long enough to fill some lanes"))]);
    let export = encode(&value).unwrap();
    for kernel in [Kernel::Scalar, Kernel::Lanes16, Kernel::Lanes32] {
        assert_eq!(encode_with(kernel, &value).unwrap(), export);
        assert_eq!(decode_with(kernel, &export).unwrap(), vec![value.duplicate()]);
    }
}

#[test]
fn encode_refuses_what_cannot_be_written() {
    let bad = LuaValue::Table(vec![(LuaMapKey(LuaValue::Null), LuaValue::Null)]);
    assert_eq!(encode(&bad), Err(CodecError::NullKeyNotAllowed));
    let mut deep = table(vec![]);
    for _ in 0..128 {
        deep = table(vec![(text("k"), deep)]);
    }
    assert_eq!(encode(&deep), Err(CodecError::RecursionLimitExceeded));
}

#[test]
fn white_space_at_the_end_is_ignored() {
    let value = text("spaces");
    let mut export = encode(&value).unwrap();
    export.push_str(" \t\r\n\u{c}\n");
    let values = decode(&export).unwrap();
    assert!(values[0].same(&value));
    assert_eq!(trim_ascii_from_end_of_slice(b"ab \t\n\x0c\r"), b"ab");
    assert_eq!(trim_ascii_from_end_of_slice(b" a b"), b" a b");
    assert_eq!(trim_ascii_from_end_of_slice(b"ab\x0b"), b"ab\x0b");
    assert_eq!(trim_ascii_from_end_of_slice(b"   "), b"");
    assert_eq!(trim_ascii_from_end_of_slice(b""), b"");
    // White space inside the text is no symbol.
    let mut broken = encode(&value).unwrap();
    broken.insert(8, ' ');
    assert!(decode(&broken).is_err());
}

#[test]
fn mark_tells_the_form() {
    assert_eq!(detect_version(b"!WA:2!abc"), StringVersion::BinarySerialization);
    assert_eq!(detect_version(b"!WA:2!"), StringVersion::BinarySerialization);
    assert_eq!(detect_version(b"!WA:1!abc"), StringVersion::Deflate);
    assert_eq!(detect_version(b"!WA:2"), StringVersion::Deflate);
    assert_eq!(detect_version(b"!"), StringVersion::Deflate);
    assert_eq!(detect_version(b"!abc"), StringVersion::Deflate);
    assert_eq!(detect_version(b"abc"), StringVersion::Huffman);
    assert_eq!(detect_version(b""), StringVersion::Huffman);
    assert_eq!(detect_version(b"WA:2!"), StringVersion::Huffman);
}

#[test]
fn deflated_legacy_text_is_decoded() {
    let export = deflated_export("!", b"^1^T^Sa^B^Sb^N1.5^t^^");
    let values = decode(&export).unwrap();
    assert_eq!(values.len(), 1);
    let expected = table(vec![
        (text("a"), LuaValue::Boolean(true)),
        (text("b"), LuaValue::Number(LuaNumber::Decimal(b"1.5".to_vec()))),
    ]);
    assert!(values[0].same(&expected));
}

#[test]
fn stored_legacy_text_is_decoded() {
    let mut container = vec![1u8];
    container.extend_from_slice(b"^1^Sold^^");
    let export = base64_encode(&container).unwrap();
    let values = decode(&export).unwrap();
    assert_eq!(values.len(), 1);
    assert!(values[0].same(&text("old")));
}

#[test]
fn each_stage_reports_its_failure() {
    assert_eq!(decode("!WA:2!0").unwrap_err(), CodecError::InvalidLength);
    assert_eq!(decode("!WA:2!0*").unwrap_err(), CodecError::InvalidSymbol);
    assert_eq!(decode("!00000").unwrap_err(), CodecError::InvalidLength);
    assert_eq!(decode("0").unwrap_err(), CodecError::InvalidLength);
    assert_eq!(decode("").unwrap_err(), CodecError::UnknownCodec);
    assert_eq!(decode("200").unwrap_err(), CodecError::UnknownCodec);
    // [3, 0, 1, 0]: a coded container cut short.
    assert_eq!(decode("30g000").unwrap_err(), CodecError::InsufficientData);
    // Behind "!" the text is all white space, and nothing is no DEFLATE stream.
    assert_eq!(decode("! ").unwrap_err(), CodecError::InflateFailed);
    assert_eq!(decode(&deflated_export("!WA:2!", &[9, 9])).unwrap_err(), CodecError::InvalidIdentifier);
    assert_eq!(decode(&deflated_export("!WA:2!", &[1, 6, 0])).unwrap_err(), CodecError::UnexpectedEndOfInput);
    assert_eq!(decode(&deflated_export("!", b"^1^T^Z^Z^t")).unwrap_err(), CodecError::NullKeyNotAllowed);
    assert_eq!(decode(&deflated_export("!", &[0xff, 0xfe])).unwrap_err(), CodecError::InvalidUtf8);
    assert_eq!(decode(&deflated_export("!", b"no header")).unwrap_err(), CodecError::InvalidIdentifier);
}

#[test]
fn corrupt_stream_fails_to_inflate() {
    assert_eq!(inflate(&[]), Err(CodecError::InflateFailed));
    assert_eq!(inflate(&[0xff, 0xff, 0xff, 0xff]), Err(CodecError::InflateFailed));
    let stream = deflate(b"some bytes to press together, some bytes to press together").unwrap();
    assert_eq!(inflate(&stream[..stream.len() / 2]), Err(CodecError::InflateFailed));
}

#[test]
fn deflate_and_inflate_are_inverse() {
    for content in [&b""[..], &b"a"[..], &b"the same, the same, the same, the same, the same"[..]] {
        let stream = deflate(content).unwrap();
        assert_ne!(stream, content.to_vec());
        assert_eq!(inflate(&stream).unwrap(), content.to_vec());
    }
    let long: Vec<u8> = (0..100_000u32).map(|i| (i % 7) as u8).collect();
    let stream = deflate(&long).unwrap();
    assert!(stream.len() < long.len() / 10);
    assert_eq!(inflate(&stream).unwrap(), long);
}

#[test]
fn ceiling_is_sixteen_mebibytes() {
    assert_eq!(MAX_SIZE, 16 * 1024 * 1024);
    let full = vec![0u8; MAX_SIZE];
    let stream = deflate(&full).unwrap();
    assert_eq!(inflate(&stream).unwrap().len(), MAX_SIZE);
    let over = vec![0u8; MAX_SIZE + 1];
    let stream = deflate(&over).unwrap();
    assert_eq!(inflate(&stream), Err(CodecError::OutputTooLarge));
}

#[test]
fn run_is_judged_by_its_length_and_its_rest() {
    assert_eq!(bounded(None, 4), Err(CodecError::InflateFailed));
    assert_eq!(bounded(Some((vec![1, 2, 3], false)), 4), Ok(vec![1, 2, 3]));
    assert_eq!(bounded(Some((vec![1, 2, 3], true)), 4), Ok(vec![1, 2, 3]));
    assert_eq!(bounded(Some((vec![1, 2, 3, 4], false)), 4), Ok(vec![1, 2, 3, 4]));
    assert_eq!(bounded(Some((vec![1, 2, 3, 4], true)), 4), Err(CodecError::OutputTooLarge));
    assert_eq!(bounded(Some((vec![], true)), 0), Err(CodecError::OutputTooLarge));
    assert_eq!(packed(None), Err(CodecError::DeflateFailed));
    assert_eq!(packed(Some(vec![7])), Ok(vec![7]));
}

#[test]
fn packed_bytes_are_unpacked_by_their_form() {
    let legacy = b"^1^B^^";
    let mut stored = vec![1u8];
    stored.extend_from_slice(legacy);
    assert!(unpack(StringVersion::Huffman, &stored).unwrap()[0].same(&LuaValue::Boolean(true)));
    let stream = deflate(legacy).unwrap();
    assert!(unpack(StringVersion::Deflate, &stream).unwrap()[0].same(&LuaValue::Boolean(true)));
    let stream = deflate(&[1, 2]).unwrap();
    assert!(unpack(StringVersion::BinarySerialization, &stream).unwrap()[0]
        .same(&LuaValue::Boolean(true)));
    assert_eq!(unpack(StringVersion::Deflate, &stored).unwrap_err(), CodecError::InflateFailed);
    assert!(read_legacy(b"^1^Sa^^").unwrap()[0].same(&text("a")));
    assert_eq!(read_legacy(&[b'^', b'1', 0x80]).unwrap_err(), CodecError::InvalidUtf8);
}

#[test]
fn lenient_decoder_feeds_the_inflater() {
    let stream = deflate(b"^1^Sx^^").unwrap();
    let printable = base64_encode(&stream).unwrap();
    assert_eq!(modern::decode(&printable).unwrap(), b"^1^Sx^^".to_vec());
    assert_eq!(modern::decode("").unwrap_err(), CodecError::InflateFailed);
}

#[test]
fn failures_have_messages() {
    assert_eq!(CodecError::InvalidSymbol.message(), "failed to decode base64");
    assert_eq!(CodecError::InvalidLength.message(), "invalid base64 length");
    assert_eq!(CodecError::UnknownCodec.message(), "unknown compression codec");
    assert_eq!(CodecError::InsufficientData.message(), "insufficient data");
    assert_eq!(CodecError::UnexpectedEndOfInput.message(), "unexpected end of input");
    assert_eq!(CodecError::EncodingTooLong.message(), "encoding is too long");
    assert_eq!(CodecError::InflateFailed.message(), "failed to INFLATE");
    assert_eq!(CodecError::OutputTooLarge.message(), "compressed data is too large");
    assert_eq!(CodecError::InvalidEscape.message(), "invalid escape character");
    assert_eq!(CodecError::InvalidNumber.message(), "failed to parse a number");
    assert_eq!(CodecError::InvalidIdentifier.message(), "invalid identifier");
    assert_eq!(CodecError::UnexpectedEndOfTable.message(), "unexpected end of a table");
    assert_eq!(CodecError::NullKeyNotAllowed.message(), "map key can't be null");
    assert_eq!(CodecError::RecursionLimitExceeded.message(), "recursion limit exceeded");
    assert_eq!(CodecError::MissingKey.message(), "missing key");
    assert_eq!(CodecError::MissingValue.message(), "missing value");
    assert_eq!(CodecError::MissingExponent.message(), "missing exponent");
    assert_eq!(CodecError::DeflateFailed.message(), "failed to DEFLATE");
    assert_eq!(CodecError::InvalidUtf8.message(), "invalid UTF-8");
}

#[test]
fn another_decoder_reads_what_deflate_writes() {
    let long: Vec<u8> = (0..50_000u32).map(|i| (i * i % 251) as u8).collect();
    for content in [&b""[..], &b"^1^Sx^^"[..], &long[..]] {
        let stream = deflate(content).unwrap();
        assert_eq!(inflate::inflate_bytes(&stream).unwrap(), content.to_vec());
        assert_eq!(inflate(&stream).unwrap(), content.to_vec());
    }
    assert!(inflate::inflate_bytes(&[0xff, 0xff, 0xff, 0xff]).is_err());
    assert_eq!(inflate(&[0xff, 0xff, 0xff, 0xff]), Err(CodecError::InflateFailed));
}
