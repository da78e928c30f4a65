use weakauras_codec::error::CodecError;
use weakauras_codec::lib_serialize::deserialization::Deserializer;
use weakauras_codec::lib_serialize::serialization::Serializer;
use weakauras_codec::value::{insert, LuaMapKey, LuaNumber, LuaValue};

fn text(s: &str) -> LuaValue {
    LuaValue::String(s.as_bytes().to_vec())
}

fn number(n: f64) -> LuaValue {
    LuaValue::Number(LuaNumber::Bits(n.to_bits()))
}

fn table(pairs: Vec<(LuaValue, LuaValue)>) -> LuaValue {
    LuaValue::Table(pairs.into_iter().map(|(k, v)| (LuaMapKey::from_value(k).unwrap(), v)).collect())
}

fn nested(depth: usize) -> LuaValue {
    let mut value = table(vec![]);
    for _ in 1..depth {
        value = table(vec![(LuaValue::Boolean(true), value)]);
    }
    value
}

fn nested_stream(depth: usize) -> Vec<u8> {
    let mut stream = vec![1u8];
    for _ in 1..depth {
        stream.extend_from_slice(&[7, 0, 0, 0, 1, 2]);
    }
    stream.extend_from_slice(&[7, 0, 0, 0, 0]);
    stream
}

fn round_trip(value: &LuaValue) {
    let stream = Serializer::serialize(value, None).unwrap();
    let values = Deserializer::from_slice(&stream).deserialize().unwrap();
    assert_eq!(values.len(), 1);
    assert!(values[0].same(value), "{:?} came back as {:?}", value, values[0]);
    let first = Deserializer::from_slice(&stream).deserialize_first().unwrap().unwrap();
    assert!(first.same(value));
}

#[test]
fn stream_has_the_bytes_of_the_format() {
    assert_eq!(Serializer::serialize(&LuaValue::Null, None).unwrap(), vec![1, 0]);
    assert_eq!(Serializer::serialize(&LuaValue::Boolean(false), None).unwrap(), vec![1, 1]);
    assert_eq!(Serializer::serialize(&LuaValue::Boolean(true), Some(2)).unwrap(), vec![1, 2]);
    assert_eq!(
        Serializer::serialize(&number(1.5), None).unwrap(),
        vec![1, 3, 0x3f, 0xf8, 0, 0, 0, 0, 0, 0]
    );
    assert_eq!(
        Serializer::serialize(&LuaValue::Number(LuaNumber::Decimal(b"12".to_vec())), None).unwrap(),
        vec![1, 4, 0, 0, 0, 2, b'1', b'2']
    );
    assert_eq!(
        Serializer::serialize(
            &LuaValue::Number(LuaNumber::Scaled(b"3".to_vec(), b"-1".to_vec())),
            None
        )
        .unwrap(),
        vec![1, 5, 0, 0, 0, 1, b'3', 0, 0, 0, 2, b'-', b'1']
    );
    assert_eq!(Serializer::serialize(&text("ab"), None).unwrap(), vec![1, 6, 0, 0, 0, 2, b'a', b'b']);
    assert_eq!(
        Serializer::serialize(&table(vec![(text("a"), LuaValue::Boolean(true))]), None).unwrap(),
        vec![1, 7, 0, 0, 0, 1, 6, 0, 0, 0, 1, b'a', 2]
    );
}

#[test]
fn length_takes_four_bytes_highest_first() {
    let long = LuaValue::String(vec![b'x'; 0x01_02_03]);
    let stream = Serializer::serialize(&long, None).unwrap();
    assert_eq!(&stream[..6], &[1, 6, 0, 1, 2, 3]);
    assert_eq!(stream.len(), 6 + 0x01_02_03);
    round_trip(&long);
}

#[test]
fn every_kind_of_value_comes_back() {
    round_trip(&LuaValue::Null);
    round_trip(&LuaValue::Boolean(true));
    round_trip(&LuaValue::Boolean(false));
    round_trip(&number(0.0));
    round_trip(&number(-0.0));
    round_trip(&number(1.5));
    round_trip(&number(f64::INFINITY));
    round_trip(&number(f64::NEG_INFINITY));
    round_trip(&number(f64::NAN));
    round_trip(&number(-f64::NAN));
    round_trip(&LuaValue::Number(LuaNumber::Bits(0x0123_4567_89ab_cdef)));
    round_trip(&LuaValue::Number(LuaNumber::Bits(u64::MAX)));
    round_trip(&LuaValue::Number(LuaNumber::Decimal(b"-12.5e3".to_vec())));
    round_trip(&LuaValue::Number(LuaNumber::Scaled(b"4503599627370496".to_vec(), b"-52".to_vec())));
    round_trip(&text(""));
    round_trip(&text("hello"));
    round_trip(&LuaValue::String(vec![0, 255, 94, 126]));
    round_trip(&table(vec![]));
    round_trip(&table(vec![
        (text("a"), LuaValue::Boolean(true)),
        (text("b"), number(1.5)),
        (number(1.0), table(vec![(LuaValue::Boolean(false), LuaValue::Null)])),
        (table(vec![(text("k"), text("v"))]), text("a table as a key")),
    ]));
}

#[test]
fn sign_of_nan_is_kept() {
    let stream = Serializer::serialize(&number(-f64::NAN), None).unwrap();
    match &Deserializer::from_slice(&stream).deserialize().unwrap()[0] {
        LuaValue::Number(LuaNumber::Bits(bits)) => {
            let back = f64::from_bits(*bits);
            assert!(back.is_nan());
            assert!(back.is_sign_negative());
        }
        other => panic!("{:?}", other),
    }
}

#[test]
fn depth_of_128_is_the_most() {
    round_trip(&nested(1));
    round_trip(&nested(128));
    assert_eq!(
        Serializer::serialize(&nested(129), None),
        Err(CodecError::RecursionLimitExceeded)
    );
    assert_eq!(Serializer::serialize(&nested(128), None).unwrap(), nested_stream(128));
    let values = Deserializer::from_slice(&nested_stream(128)).deserialize().unwrap();
    assert!(values[0].same(&nested(128)));
    assert_eq!(
        Deserializer::from_slice(&nested_stream(129)).deserialize().unwrap_err(),
        CodecError::RecursionLimitExceeded
    );
    assert_eq!(
        Deserializer::from_slice(&nested_stream(129)).deserialize_first().unwrap_err(),
        CodecError::RecursionLimitExceeded
    );
    assert_eq!(
        Deserializer::from_slice(&nested_stream(1000)).deserialize().unwrap_err(),
        CodecError::RecursionLimitExceeded
    );
}

#[test]
fn deep_table_of_leaves_is_read() {
    // 128 tables, the innermost with a pair of leaves.
    let mut value = table(vec![(text("k"), number(1.0))]);
    for _ in 1..128 {
        value = table(vec![(text("k"), value)]);
    }
    round_trip(&value);
}

#[test]
fn several_values_are_read_in_their_order() {
    let values = Deserializer::from_slice(&[1, 2, 0, 6, 0, 0, 0, 1, b'x']).deserialize().unwrap();
    assert_eq!(values.len(), 3);
    assert!(values[0].same(&LuaValue::Boolean(true)));
    assert!(values[1].same(&LuaValue::Null));
    assert!(values[2].same(&text("x")));
    assert!(Deserializer::from_slice(&[1]).deserialize().unwrap().is_empty());
    assert!(Deserializer::from_slice(&[1]).deserialize_first().unwrap().is_none());
    let first = Deserializer::from_slice(&[1, 2, 0, 99]).deserialize_first().unwrap().unwrap();
    assert!(first.same(&LuaValue::Boolean(true)));
}

#[test]
fn stream_without_the_revision_is_refused() {
    assert_eq!(Deserializer::from_slice(&[]).deserialize().unwrap_err(), CodecError::InvalidIdentifier);
    assert_eq!(Deserializer::from_slice(&[0, 0]).deserialize().unwrap_err(), CodecError::InvalidIdentifier);
    assert_eq!(Deserializer::from_slice(&[2, 0]).deserialize().unwrap_err(), CodecError::InvalidIdentifier);
    assert_eq!(
        Deserializer::from_slice(&[]).deserialize_first().unwrap_err(),
        CodecError::InvalidIdentifier
    );
}

#[test]
fn unknown_tag_is_refused() {
    assert_eq!(Deserializer::from_slice(&[1, 8]).deserialize().unwrap_err(), CodecError::InvalidIdentifier);
    assert_eq!(Deserializer::from_slice(&[1, 255]).deserialize().unwrap_err(), CodecError::InvalidIdentifier);
    assert_eq!(
        Deserializer::from_slice(&[1, 0, 9]).deserialize().unwrap_err(),
        CodecError::InvalidIdentifier
    );
}

#[test]
fn every_cut_of_a_stream_is_refused_as_ended() {
    let value = table(vec![
        (text("a"), number(1.5)),
        (text("bc"), LuaValue::Number(LuaNumber::Scaled(b"1".to_vec(), b"2".to_vec()))),
        (LuaValue::Number(LuaNumber::Decimal(b"7".to_vec())), table(vec![])),
    ]);
    let stream = Serializer::serialize(&value, None).unwrap();
    for cut in 2..stream.len() {
        assert_eq!(
            Deserializer::from_slice(&stream[..cut]).deserialize().unwrap_err(),
            CodecError::UnexpectedEndOfInput,
            "cut at {}",
            cut
        );
    }
}

#[test]
fn length_beyond_the_input_is_refused() {
    assert_eq!(
        Deserializer::from_slice(&[1, 6, 0xff, 0xff, 0xff, 0xff, b'a']).deserialize().unwrap_err(),
        CodecError::UnexpectedEndOfInput
    );
    assert_eq!(
        Deserializer::from_slice(&[1, 7, 0xff, 0xff, 0xff, 0xff, 2, 2]).deserialize().unwrap_err(),
        CodecError::UnexpectedEndOfInput
    );
}

#[test]
fn null_key_is_refused() {
    assert_eq!(
        Deserializer::from_slice(&[1, 7, 0, 0, 0, 1, 0, 2]).deserialize().unwrap_err(),
        CodecError::NullKeyNotAllowed
    );
    let bad = LuaValue::Table(vec![(LuaMapKey(LuaValue::Null), LuaValue::Boolean(true))]);
    assert_eq!(Serializer::serialize(&bad, None), Err(CodecError::NullKeyNotAllowed));
    assert_eq!(LuaMapKey::from_value(LuaValue::Null).unwrap_err(), CodecError::NullKeyNotAllowed);
    assert!(LuaMapKey::from_value(LuaValue::Boolean(false)).unwrap().0.same(&LuaValue::Boolean(false)));
}

#[test]
fn text_that_spells_no_number_is_refused() {
    assert_eq!(
        Deserializer::from_slice(&[1, 4, 0, 0, 0, 1, b'x']).deserialize().unwrap_err(),
        CodecError::InvalidNumber
    );
    assert_eq!(
        Deserializer::from_slice(&[1, 5, 0, 0, 0, 1, b'1', 0, 0, 0, 0]).deserialize().unwrap_err(),
        CodecError::InvalidNumber
    );
    assert_eq!(
        Deserializer::from_slice(&[1, 5, 0, 0, 0, 0, 0, 0, 0, 1, b'1']).deserialize().unwrap_err(),
        CodecError::InvalidNumber
    );
    assert_eq!(
        Serializer::serialize(&LuaValue::Number(LuaNumber::Decimal(b"1x".to_vec())), None),
        Err(CodecError::InvalidNumber)
    );
    assert_eq!(
        Serializer::serialize(&LuaValue::Number(LuaNumber::Scaled(b"1".to_vec(), b"".to_vec())), None),
        Err(CodecError::InvalidNumber)
    );
}

#[test]
fn first_failure_in_writing_order_decides() {
    let value = LuaValue::Table(vec![
        (LuaMapKey(text("a")), LuaValue::Number(LuaNumber::Decimal(b"?".to_vec()))),
        (LuaMapKey(LuaValue::Null), LuaValue::Null),
    ]);
    assert_eq!(Serializer::serialize(&value, None), Err(CodecError::InvalidNumber));
    let value = LuaValue::Table(vec![
        (LuaMapKey(LuaValue::Null), LuaValue::Null),
        (LuaMapKey(text("a")), LuaValue::Number(LuaNumber::Decimal(b"?".to_vec()))),
    ]);
    assert_eq!(Serializer::serialize(&value, None), Err(CodecError::NullKeyNotAllowed));
}

#[test]
fn later_value_of_a_key_takes_the_place_of_the_earlier() {
    // {a = true, b = null, a = false} as written pair by pair.
    let stream = [
        1u8, 7, 0, 0, 0, 3, 6, 0, 0, 0, 1, b'a', 2, 6, 0, 0, 0, 1, b'b', 0, 6, 0, 0, 0, 1, b'a', 1,
    ];
    let values = Deserializer::from_slice(&stream).deserialize().unwrap();
    let expected = table(vec![(text("a"), LuaValue::Boolean(false)), (text("b"), LuaValue::Null)]);
    assert!(values[0].same(&expected), "{:?}", values[0]);
}

#[test]
fn insert_replaces_in_place_or_appends() {
    let mut pairs: Vec<(LuaMapKey, LuaValue)> = Vec::new();
    insert(&mut pairs, LuaMapKey(text("a")), number(1.0));
    insert(&mut pairs, LuaMapKey(text("b")), number(2.0));
    insert(&mut pairs, LuaMapKey(text("a")), number(3.0));
    assert_eq!(pairs.len(), 2);
    assert!(pairs[0].0 .0.same(&text("a")));
    assert!(pairs[0].1.same(&number(3.0)));
    assert!(pairs[1].0 .0.same(&text("b")));
    assert!(pairs[1].1.same(&number(2.0)));
}

#[test]
fn same_tells_values_apart() {
    assert!(text("a").same(&text("a")));
    assert!(!text("a").same(&text("b")));
    assert!(!text("a").same(&LuaValue::Null));
    assert!(!number(0.0).same(&number(-0.0)));
    assert!(number(f64::NAN).same(&number(f64::NAN)));
    assert!(!LuaValue::Number(LuaNumber::Decimal(b"1".to_vec())).same(&number(1.0)));
    assert!(!LuaValue::Number(LuaNumber::Decimal(b"1".to_vec()))
        .same(&LuaValue::Number(LuaNumber::Decimal(b"1.0".to_vec()))));
    let a = table(vec![(text("a"), number(1.0)), (text("b"), number(2.0))]);
    let b = table(vec![(text("b"), number(2.0)), (text("a"), number(1.0))]);
    assert!(a.same(&a));
    assert!(!a.same(&b));
    assert!(!a.same(&table(vec![(text("a"), number(1.0))])));
    let copy = LuaNumber::Scaled(b"1".to_vec(), b"2".to_vec()).duplicate();
    assert!(copy.same(&LuaNumber::Scaled(b"1".to_vec(), b"2".to_vec())));
    let copy = a.duplicate();
    assert!(copy.same(&a));
    assert_eq!(copy, a);
    assert_ne!(copy, b);
}

#[test]
fn guess_at_the_length_of_a_stream_may_be_anything() {
    assert_eq!(Serializer::serialize(&LuaValue::Null, Some(usize::MAX)).unwrap(), vec![1, 0]);
    assert_eq!(Serializer::serialize(&LuaValue::Null, Some(0)).unwrap(), vec![1, 0]);
}
