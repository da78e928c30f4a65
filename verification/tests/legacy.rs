use weakauras_codec::ace_serialize::deserialization::Deserializer;
use weakauras_codec::ace_serialize::reader::{nesting, unescape_byte, StrReader};
use weakauras_codec::ace_serialize::serialization::Serializer;
use weakauras_codec::error::CodecError;
use weakauras_codec::number::{
    deserialize_number, is_number, special, NEGATIVE_INFINITY, NEGATIVE_NAN, POSITIVE_INFINITY,
    POSITIVE_NAN,
};
use weakauras_codec::value::{LuaMapKey, LuaNumber, LuaValue};

fn text(s: &str) -> LuaValue {
    LuaValue::String(s.as_bytes().to_vec())
}

fn decimal(s: &str) -> LuaValue {
    LuaValue::Number(LuaNumber::Decimal(s.as_bytes().to_vec()))
}

fn table(pairs: Vec<(LuaValue, LuaValue)>) -> LuaValue {
    LuaValue::Table(pairs.into_iter().map(|(k, v)| (LuaMapKey(k), v)).collect())
}

fn values(s: &str) -> Vec<LuaValue> {
    Deserializer::from_str(s).deserialize().unwrap()
}

fn one(s: &str) -> LuaValue {
    let mut all = values(s);
    assert_eq!(all.len(), 1, "{:?}", s);
    all.pop().unwrap()
}

fn failure(s: &str) -> CodecError {
    Deserializer::from_str(s).deserialize().unwrap_err()
}

fn nested(depth: usize) -> String {
    let mut s = String::from("^1");
    for _ in 1..depth {
        s.push_str("^T^Sk");
    }
    s.push_str("^T^t");
    for _ in 1..depth {
        s.push_str("^t");
    }
    s.push_str("^^");
    s
}

fn as_float(value: &LuaValue) -> f64 {
    match value {
        LuaValue::Number(LuaNumber::Bits(bits)) => f64::from_bits(*bits),
        other => panic!("{:?}", other),
    }
}

#[test]
fn special_numbers_are_read() {
    assert_eq!(as_float(&one("^1^N1.#INF")), f64::INFINITY);
    assert_eq!(as_float(&one("^1^N-1.#INF")), f64::NEG_INFINITY);
    assert_eq!(as_float(&one("^1^Ninf^^")), f64::INFINITY);
    assert_eq!(as_float(&one("^1^N-inf^^")), f64::NEG_INFINITY);
    let nan = as_float(&one("^1^Nnan^^"));
    assert!(nan.is_nan() && nan.is_sign_positive());
    let nan = as_float(&one("^1^N-nan^^"));
    assert!(nan.is_nan() && nan.is_sign_negative());
    let nan = as_float(&one("^1^N1.#IND^^"));
    assert!(nan.is_nan() && nan.is_sign_positive());
    let nan = as_float(&one("^1^N-1.#IND^^"));
    assert!(nan.is_nan() && nan.is_sign_negative());
    assert_eq!(special(b"inf"), Some(POSITIVE_INFINITY));
    assert_eq!(special(b"-1.#INF"), Some(NEGATIVE_INFINITY));
    assert_eq!(special(b"nan"), Some(POSITIVE_NAN));
    assert_eq!(special(b"-1.#IND"), Some(NEGATIVE_NAN));
    assert_eq!(special(b"INF"), None);
    assert_eq!(special(b"+inf"), None);
    assert_eq!(special(b"1.#INFx"), None);
    assert_eq!(special(b""), None);
    assert_eq!(special(b"-"), None);
    assert_eq!(POSITIVE_INFINITY, f64::INFINITY.to_bits());
    assert_eq!(NEGATIVE_INFINITY, f64::NEG_INFINITY.to_bits());
}

#[test]
fn number_text_is_what_the_float_parser_takes() {
    let good = [
        "0", "1", "-1", "+1", "1.", ".5", "1.5", "-1.5e3", "1E5", "1e+5", "1e-5", "007", "inf", "-inf",
        "+inf", "INF", "Infinity", "-infinity", "nan", "NaN", "-nan", "123456789012345678901234567890",
        "0.000000000000000000000000000001", "1e400", ".0e0",
    ];
    for s in good {
        assert!(is_number(s.as_bytes()), "{:?}", s);
        assert!(s.parse::<f64>().is_ok(), "{:?}", s);
    }
    let bad = [
        "", "+", "-", ".", "e", "e5", "1e", "1e+", "1.5.2", "1 ", " 1", "0x10", "1,5", "--1", "+-1", "inf ",
        "infinit", "nane", "1.#INF", "1e5.0", "1_000", "١",
    ];
    for s in bad {
        assert!(!is_number(s.as_bytes()), "{:?}", s);
        assert!(s.parse::<f64>().is_err(), "{:?}", s);
    }
}

#[test]
fn number_token_keeps_its_text() {
    assert!(one("^1^N12.5^^").same(&decimal("12.5")));
    assert!(one("^1^N-3e2").same(&decimal("-3e2")));
    assert!(one("^1^NInfinity").same(&decimal("Infinity")));
    assert!(deserialize_number(b"42").unwrap().same(&LuaNumber::Decimal(b"42".to_vec())));
    assert!(deserialize_number(b"inf").unwrap().same(&LuaNumber::Bits(POSITIVE_INFINITY)));
    assert_eq!(deserialize_number(b"4 2").unwrap_err(), CodecError::InvalidNumber);
    assert_eq!(
        Deserializer::deserialize_number("-1.#INF").unwrap(),
        LuaNumber::Bits(NEGATIVE_INFINITY)
    );
    assert_eq!(Deserializer::deserialize_number("1e3").unwrap(), LuaNumber::Decimal(b"1e3".to_vec()));
    assert_eq!(Deserializer::deserialize_number("e3").unwrap_err(), CodecError::InvalidNumber);
    assert_eq!(failure("^1^Nabc^^"), CodecError::InvalidNumber);
    assert_eq!(failure("^1^N^^"), CodecError::InvalidNumber);
}

#[test]
fn mantissa_and_exponent_make_a_scaled_number() {
    let expected = LuaValue::Number(LuaNumber::Scaled(b"6755399441055744".to_vec(), b"-52".to_vec()));
    assert!(one("^1^F6755399441055744^f-52^^").same(&expected));
    assert_eq!(failure("^1^F1^^"), CodecError::MissingExponent);
    assert_eq!(failure("^1^F1^N2^^"), CodecError::MissingExponent);
    assert_eq!(failure("^1^F1"), CodecError::InvalidIdentifier);
    assert_eq!(failure("^1^Fx^f1^^"), CodecError::InvalidNumber);
    assert_eq!(failure("^1^F1^fx^^"), CodecError::InvalidNumber);
    assert_eq!(failure("^1^F1^f^^"), CodecError::InvalidNumber);
}

#[test]
fn plain_values_are_read() {
    assert!(one("^1^Z^^").same(&LuaValue::Null));
    assert!(one("^1^B^^").same(&LuaValue::Boolean(true)));
    assert!(one("^1^b^^").same(&LuaValue::Boolean(false)));
    assert!(one("^1^Shello world^^").same(&text("hello world")));
    assert!(one("^1^S^^").same(&text("")));
    assert!(one("^1^Sh\u{e9}^^").same(&text("h\u{e9}")));
}

#[test]
fn values_follow_each_other() {
    let all = values("^1^Sa^N1^B^Z^^");
    assert_eq!(all.len(), 4);
    assert!(all[0].same(&text("a")));
    assert!(all[1].same(&decimal("1")));
    assert!(all[2].same(&LuaValue::Boolean(true)));
    assert!(all[3].same(&LuaValue::Null));
    assert!(values("^1").is_empty());
    assert!(values("^1^^").is_empty());
    // The end marker is passed over, and what is no token ends the reading.
    let all = values("^1^^^B^^");
    assert_eq!(all.len(), 1);
    let all = values("^1^B^^ trailing");
    assert_eq!(all.len(), 1);
    let all = values("^1^Zx^B");
    assert_eq!(all.len(), 1);
}

#[test]
fn first_value_is_read_alone() {
    let first = Deserializer::from_str("^1^Sa^Sb^^").deserialize_first().unwrap().unwrap();
    assert!(first.same(&text("a")));
    assert!(Deserializer::from_str("^1^^").deserialize_first().unwrap().is_none());
    assert_eq!(
        Deserializer::from_str("^1").deserialize_first().unwrap_err(),
        CodecError::InvalidIdentifier
    );
    assert_eq!(
        Deserializer::from_str("^2^Sa").deserialize_first().unwrap_err(),
        CodecError::InvalidIdentifier
    );
}

#[test]
fn header_is_required() {
    assert_eq!(failure(""), CodecError::InvalidIdentifier);
    assert_eq!(failure("^"), CodecError::InvalidIdentifier);
    assert_eq!(failure("^2^Sa^^"), CodecError::InvalidIdentifier);
    assert_eq!(failure("x^1^Sa^^"), CodecError::InvalidIdentifier);
    assert_eq!(failure(" ^1"), CodecError::InvalidIdentifier);
}

#[test]
fn unknown_token_is_refused() {
    assert_eq!(failure("^1^X^^"), CodecError::InvalidIdentifier);
    assert_eq!(failure("^1^t^^"), CodecError::InvalidIdentifier);
    assert_eq!(failure("^1^f1^^"), CodecError::InvalidIdentifier);
    assert_eq!(failure("^1^s^^"), CodecError::InvalidIdentifier);
}

#[test]
fn escapes_give_their_bytes() {
    assert!(one("^1^Sa~@b^^").same(&LuaValue::String(vec![b'a', 0, b'b'])));
    assert!(one("^1^S~J^^").same(&LuaValue::String(vec![10])));
    assert!(one("^1^S~`^^").same(&LuaValue::String(vec![32])));
    assert!(one("^1^S~y^^").same(&LuaValue::String(vec![0x39])));
    assert!(one("^1^S~z^^").same(&LuaValue::String(vec![0x1e])));
    assert!(one("^1^S~{^^").same(&LuaValue::String(vec![0x7f])));
    assert!(one("^1^S~|^^").same(&LuaValue::String(vec![0x7e])));
    assert!(one("^1^S~}^^").same(&LuaValue::String(vec![0x5e])));
    assert!(one("^1^Sa~}b~|c^^").same(&text("a^b~c")));
    for c in 0..=255u8 {
        let expected = match c {
            0x40..=0x79 => Some(c - 0x40),
            0x7a => Some(0x1e),
            0x7b => Some(0x7f),
            0x7c => Some(0x7e),
            0x7d => Some(0x5e),
            _ => None,
        };
        assert_eq!(unescape_byte(c), expected, "byte {}", c);
    }
}

#[test]
fn other_escapes_are_refused() {
    assert_eq!(failure("^1^S~^^"), CodecError::InvalidEscape);
    assert_eq!(failure("^1^Sab~"), CodecError::InvalidEscape);
    assert_eq!(failure("^1^S~~^^"), CodecError::InvalidEscape);
    assert_eq!(failure("^1^S~1^^"), CodecError::InvalidEscape);
    assert_eq!(failure("^1^S~ ^^"), CodecError::InvalidEscape);
    assert_eq!(failure("^1^S~\u{e9}^^"), CodecError::InvalidEscape);
}

#[test]
fn tables_are_read() {
    assert!(one("^1^T^t^^").same(&table(vec![])));
    assert!(one("^1^T^Sa^B^Sb^N1.5^t^^")
        .same(&table(vec![(text("a"), LuaValue::Boolean(true)), (text("b"), decimal("1.5"))])));
    assert!(one("^1^T^N1^T^Sx^Z^t^T^t^Sy^t^^").same(&table(vec![
        (decimal("1"), table(vec![(text("x"), LuaValue::Null)])),
        (table(vec![]), text("y")),
    ])));
    // The later value of a key takes the place of the earlier.
    assert!(one("^1^T^Sa^N1^Sb^N2^Sa^N3^t^^")
        .same(&table(vec![(text("a"), decimal("3")), (text("b"), decimal("2"))])));
}

#[test]
fn legacy_null_key_is_refused() {
    assert_eq!(failure("^1^T^Z^B^t^^"), CodecError::NullKeyNotAllowed);
    assert_eq!(failure("^1^T^Sa^B^Z^B^t^^"), CodecError::NullKeyNotAllowed);
    assert_eq!(failure("^1^T^Sa^T^Z^Z^t^t^^"), CodecError::NullKeyNotAllowed);
}

#[test]
fn broken_tables_are_refused() {
    assert_eq!(failure("^1^T^Sa^t^^"), CodecError::UnexpectedEndOfTable);
    assert_eq!(failure("^1^T^^^B^t^^"), CodecError::MissingKey);
    assert_eq!(failure("^1^T^Sa^^^t^^"), CodecError::MissingValue);
    assert_eq!(failure("^1^T"), CodecError::InvalidIdentifier);
    assert_eq!(failure("^1^T^Sa"), CodecError::InvalidIdentifier);
    assert_eq!(failure("^1^T^Sa^B"), CodecError::InvalidIdentifier);
    assert_eq!(failure("^1^T^Sa^Bx^t"), CodecError::InvalidIdentifier);
    assert_eq!(failure("^1^T^Q^B^t^^"), CodecError::InvalidIdentifier);
}

#[test]
fn legacy_depth_of_128_is_the_most() {
    let all = values(&nested(128));
    assert_eq!(all.len(), 1);
    let mut depth = 0;
    let mut value = &all[0];
    while let LuaValue::Table(pairs) = value {
        depth += 1;
        match pairs.first() {
            Some(pair) => value = &pair.1,
            None => break,
        }
    }
    assert_eq!(depth, 128);
    assert_eq!(failure(&nested(129)), CodecError::RecursionLimitExceeded);
    assert_eq!(failure(&nested(5000)), CodecError::RecursionLimitExceeded);
    // The depth is free again behind a table.
    let mut s = nested(128);
    s.push_str(&nested(128)[2..]);
    assert_eq!(values(&s).len(), 2);
    // A table of leaves may stand at the greatest depth.
    let mut s = String::from("^1");
    for _ in 1..128 {
        s.push_str("^T^Sk");
    }
    s.push_str("^T^Sk^N1^t");
    for _ in 1..128 {
        s.push_str("^t");
    }
    assert_eq!(values(&s).len(), 1);
}

#[test]
fn reader_moves_token_by_token() {
    let mut reader = StrReader::new("^Sab~}^N12");
    assert_eq!(reader.peek_identifier(), Ok(b'S'));
    assert_eq!(reader.index, 0);
    assert_eq!(reader.read_identifier(), Ok(b'S'));
    assert_eq!(reader.index, 2);
    assert_eq!(reader.peek_identifier(), Err(CodecError::InvalidIdentifier));
    assert_eq!(reader.read_identifier(), Err(CodecError::InvalidIdentifier));
    assert_eq!(reader.index, 2);
    assert_eq!(reader.parse_str(), Ok(b"ab^".to_vec()));
    assert_eq!(reader.index, 6);
    assert_eq!(reader.read_identifier(), Ok(b'N'));
    assert_eq!(reader.read_until_next(), b"12");
    assert_eq!(reader.index, 10);
    assert_eq!(reader.read_until_next(), b"");
    assert_eq!(reader.peek_identifier(), Err(CodecError::InvalidIdentifier));
    let mut reader = StrReader::new("^");
    assert_eq!(reader.read_identifier(), Err(CodecError::InvalidIdentifier));
}

fn written(value: &LuaValue) -> String {
    String::from_utf8(Serializer::serialize(value, None).unwrap()).unwrap()
}

fn bits(n: f64) -> LuaValue {
    LuaValue::Number(LuaNumber::Bits(n.to_bits()))
}

fn scaled_as_float(value: &LuaValue) -> f64 {
    match value {
        LuaValue::Number(LuaNumber::Scaled(mantissa, exponent)) => {
            let mantissa: f64 = std::str::from_utf8(mantissa).unwrap().parse().unwrap();
            let exponent: f64 = std::str::from_utf8(exponent).unwrap().parse().unwrap();
            mantissa * 2f64.powf(exponent)
        }
        LuaValue::Number(LuaNumber::Decimal(text)) => std::str::from_utf8(text).unwrap().parse().unwrap(),
        other => panic!("{:?}", other),
    }
}

#[test]
fn values_are_written_as_tokens() {
    assert_eq!(written(&LuaValue::Null), "^1^Z^^");
    assert_eq!(written(&LuaValue::Boolean(true)), "^1^B^^");
    assert_eq!(written(&LuaValue::Boolean(false)), "^1^b^^");
    assert_eq!(written(&text("hello")), "^1^Shello^^");
    assert_eq!(written(&text("")), "^1^S^^");
    assert_eq!(written(&decimal("12.5")), "^1^N12.5^^");
    assert_eq!(
        written(&LuaValue::Number(LuaNumber::Scaled(b"3".to_vec(), b"-1".to_vec()))),
        "^1^F3^f-1^^"
    );
    assert_eq!(written(&table(vec![])), "^1^T^t^^");
    assert_eq!(
        written(&table(vec![
            (text("a"), LuaValue::Boolean(true)),
            (decimal("1"), table(vec![(text("x"), LuaValue::Null)])),
        ])),
        "^1^T^Sa^B^N1^T^Sx^Z^t^t^^"
    );
}

#[test]
fn strings_are_written_with_escapes() {
    assert_eq!(written(&text("a b")), "^1^Sa~`b^^");
    assert_eq!(written(&text("a^b~c")), "^1^Sa~}b~|c^^");
    assert_eq!(written(&LuaValue::String(vec![0, 10, 30, 31, 32, 127])), "^1^S~@~J~z~_~`~{^^");
    assert_eq!(written(&text("h\u{e9}")), "^1^Sh\u{e9}^^");
    let all: Vec<u8> = (0..=255).collect();
    let value = LuaValue::String(all.clone());
    let bytes = Serializer::serialize(&value, None).unwrap();
    assert!(!bytes[4..bytes.len() - 2].contains(&b'^'));
    let back = Deserializer::from_slice(&bytes).deserialize().unwrap();
    assert_eq!(back, vec![LuaValue::String(all)]);
}

#[test]
fn numbers_held_by_bits_are_written_exactly() {
    assert_eq!(written(&bits(f64::INFINITY)), "^1^N1.#INF^^");
    assert_eq!(written(&bits(f64::NEG_INFINITY)), "^1^N-1.#INF^^");
    assert_eq!(written(&bits(f64::NAN)), "^1^N1.#IND^^");
    assert_eq!(written(&bits(-f64::NAN)), "^1^N-1.#IND^^");
    assert_eq!(written(&LuaValue::Number(LuaNumber::Bits(0x7ff0_0000_0000_0001))), "^1^N1.#IND^^");
    assert_eq!(written(&bits(0.0)), "^1^N0^^");
    assert_eq!(written(&bits(-0.0)), "^1^N-0^^");
    assert_eq!(written(&bits(1.0)), "^1^F4503599627370496^f-52^^");
    assert_eq!(written(&bits(1.5)), "^1^F6755399441055744^f-52^^");
    assert_eq!(written(&bits(-2.0)), "^1^F-4503599627370496^f-51^^");
    assert_eq!(written(&bits(f64::MAX)), "^1^F9007199254740991^f971^^");
    assert_eq!(written(&bits(f64::MIN_POSITIVE)), "^1^F4503599627370496^f-1074^^");
    assert_eq!(written(&LuaValue::Number(LuaNumber::Bits(1))), "^1^F1^f-1074^^");
    assert_eq!(written(&bits(2f64.powi(52))), "^1^F4503599627370496^f0^^");
    for n in [
        1.0, -1.0, 1.5, 0.1, -0.1, 123456.789, 1e300, -1e-300, f64::MAX, f64::MIN_POSITIVE, 5e-324, 3.0,
        0.5, 1e22, 9007199254740993.0,
    ] {
        let text = Serializer::serialize(&bits(n), None).unwrap();
        let back = Deserializer::from_slice(&text).deserialize().unwrap();
        assert_eq!(scaled_as_float(&back[0]), n, "{}", n);
    }
    for n in [0.0f64, -0.0] {
        let text = Serializer::serialize(&bits(n), None).unwrap();
        let back = Deserializer::from_slice(&text).deserialize().unwrap();
        let float = scaled_as_float(&back[0]);
        assert_eq!(float.to_bits(), n.to_bits());
    }
}

#[test]
fn written_value_is_read_again() {
    let values = [
        LuaValue::Null,
        LuaValue::Boolean(true),
        LuaValue::Boolean(false),
        text(""),
        text("a ^ b ~ c"),
        LuaValue::String((0..=255).collect()),
        decimal("12.5"),
        decimal("-0"),
        decimal("1e300"),
        decimal("Infinity"),
        LuaValue::Number(LuaNumber::Scaled(b"3".to_vec(), b"-1".to_vec())),
        bits(f64::INFINITY),
        bits(f64::NEG_INFINITY),
        bits(f64::NAN),
        bits(-f64::NAN),
        table(vec![]),
        table(vec![
            (text("a"), LuaValue::Boolean(true)),
            (decimal("1"), table(vec![(text("x"), LuaValue::Null)])),
            (table(vec![(text("k"), decimal("2"))]), bits(f64::INFINITY)),
            (LuaValue::Boolean(false), text("~")),
        ]),
    ];
    for value in values.iter() {
        let text = Serializer::serialize(value, None).unwrap();
        let back = Deserializer::from_slice(&text).deserialize().unwrap();
        assert_eq!(back.len(), 1);
        assert!(back[0].same(value), "{:?} came back as {:?}", value, back[0]);
        let first = Deserializer::from_slice(&text).deserialize_first().unwrap().unwrap();
        assert!(first.same(value));
    }
}

#[test]
fn writer_keeps_the_depth_of_the_reader() {
    let mut value = table(vec![]);
    for _ in 1..128 {
        value = table(vec![(text("k"), value)]);
    }
    assert_eq!(written(&value), nested(128));
    value = table(vec![(text("k"), value)]);
    assert_eq!(Serializer::serialize(&value, None), Err(CodecError::RecursionLimitExceeded));
}

#[test]
fn writer_refuses_what_cannot_be_written() {
    assert_eq!(
        Serializer::serialize(&table(vec![(LuaValue::Null, LuaValue::Null)]), None),
        Err(CodecError::NullKeyNotAllowed)
    );
    assert_eq!(Serializer::serialize(&decimal("1^N2"), None), Err(CodecError::InvalidNumber));
    assert_eq!(Serializer::serialize(&decimal(""), None), Err(CodecError::InvalidNumber));
    assert_eq!(
        Serializer::serialize(&LuaValue::Number(LuaNumber::Scaled(b"1".to_vec(), b"x".to_vec())), None),
        Err(CodecError::InvalidNumber)
    );
    assert_eq!(
        Serializer::serialize(&LuaValue::Number(LuaNumber::Scaled(b"".to_vec(), b"1".to_vec())), None),
        Err(CodecError::InvalidNumber)
    );
}

#[test]
fn spelling_of_a_special_number_is_read_as_the_number() {
    // Held as text, "inf" is written as it is and read as the bit pattern.
    let text = Serializer::serialize(&decimal("inf"), None).unwrap();
    assert_eq!(text, b"^1^Ninf^^".to_vec());
    let back = Deserializer::from_slice(&text).deserialize().unwrap();
    assert_eq!(back, vec![bits(f64::INFINITY)]);
}

#[test]
fn bytes_that_are_no_text_are_read_as_bytes() {
    let back = Deserializer::from_slice(b"^1^S\xff\xfe^^").deserialize().unwrap();
    assert_eq!(back, vec![LuaValue::String(vec![0xff, 0xfe])]);
}

#[test]
fn table_nested_exactly_128_deep_is_read_whatever_it_holds() {
    let text = format!("^1{}^T^t{}^^", "^T^Sk".repeat(127), "^t".repeat(127));
    assert_eq!(nesting(text.as_bytes()), 128);
    let read = Deserializer::from_str(&text).deserialize().unwrap();
    assert_eq!(read.len(), 1);
    let mut depth = 0;
    let mut value = &read[0];
    while let LuaValue::Table(pairs) = value {
        depth += 1;
        match pairs.first() {
            Some(pair) => value = &pair.1,
            None => break,
        }
    }
    assert_eq!(depth, 128);
    for innermost in ["^T^Sa^B^Sb^N1.5^t", "^T^N1^Sx^N2^Sy^N1^Sz^t", "^T^B^Z^b^S^F1^f2^N3^t"] {
        let text = format!("^1{}{}{}^^", "^T^Sk".repeat(127), innermost, "^t".repeat(127));
        assert_eq!(nesting(text.as_bytes()), 128);
        assert_eq!(Deserializer::from_str(&text).deserialize().unwrap().len(), 1, "{:?}", innermost);
    }
    let text = format!("^1{}^T^Sa^B^Sb^N1.5^t{}^^", "^T^Sk".repeat(127), "^t".repeat(127));
    assert_eq!(nesting(text.as_bytes()), 128);
    assert_eq!(Deserializer::from_str(&text).deserialize().unwrap().len(), 1);
    let text = format!("^1{}^T^t{}^^", "^T^Sk".repeat(128), "^t".repeat(128));
    assert_eq!(nesting(text.as_bytes()), 129);
    assert_eq!(failure(&text), CodecError::RecursionLimitExceeded);
}

#[test]
fn nesting_counts_the_tables_that_are_open_at_once() {
    assert_eq!(nesting(b""), 0);
    assert_eq!(nesting(b"^"), 0);
    assert_eq!(nesting(b"^1^Sab^N1^^"), 0);
    assert_eq!(nesting(b"^1^T^t^^"), 1);
    assert_eq!(nesting(b"^1^T^t^T^t^T^t^^"), 1);
    assert_eq!(nesting(b"^1^T^Sa^T^Sb^T^t^t^Sc^T^t^t^^"), 3);
    assert_eq!(nesting(b"^1^T^T^T"), 3);
    assert_eq!(nesting(b"^1^t^t^T"), 1);
    // A `^` in a string is written as an escape, so no string holds a token.
    assert_eq!(nesting(b"^1^S~}T~}T^^"), 0);
}

#[test]
fn guess_at_the_length_may_be_anything() {
    assert_eq!(Serializer::serialize(&LuaValue::Null, Some(usize::MAX)).unwrap(), b"^1^Z^^".to_vec());
    assert_eq!(Serializer::serialize(&LuaValue::Null, Some(0)).unwrap(), b"^1^Z^^".to_vec());
}
