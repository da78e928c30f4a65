//! What holds of every value and its stream: reading gives back what was
//! written, and the depth of tables is bounded on both sides.

use crate::error::CodecError;
use crate::lib_serialize::{
    be32, be64, deserialize_spec, parse_body, parse_pairs, parse_sized, parse_value, parse_values,
    read_be32, read_be64, serialize_number, serialize_pairs, serialize_spec, serialize_value,
    sized, sized_number, MAX_DEPTH, MAX_LENGTH, REVISION, TAG_BITS, TAG_DECIMAL, TAG_SCALED,
    TAG_STRING, TAG_TABLE,
};
use crate::number::is_number_text;
use crate::value::{distinct_keys, find_key, fits, put, sound, Number, Value};
use vstd::prelude::*;

verus! {

/// Whether the format has room for the value: every string, every number
/// text and every table of it can be sized, and every number text spells a
/// number.
pub open spec fn representable(value: Value) -> bool
    decreases value,
{
    match value {
        Value::Number(Number::Bits(_)) => true,
        Value::Number(Number::Decimal(text)) => text.len() <= MAX_LENGTH && is_number_text(text),
        Value::Number(Number::Scaled(mantissa, exponent)) => mantissa.len() <= MAX_LENGTH
            && exponent.len() <= MAX_LENGTH && is_number_text(mantissa) && is_number_text(
            exponent,
        ),
        Value::String(text) => text.len() <= MAX_LENGTH,
        Value::Table(pairs) => pairs.len() <= MAX_LENGTH && forall|i: int|
            0 <= i < pairs.len() ==> representable((#[trigger] pairs[i]).0) && representable(
                pairs[i].1,
            ),
        _ => true,
    }
}

/// Whether the input holds the given bytes at `pos`.
pub open spec fn holds_at(bytes: Seq<u8>, pos: nat, part: Seq<u8>) -> bool {
    &&& pos + part.len() <= bytes.len()
    &&& forall|i: int| 0 <= i < part.len() ==> bytes[pos as int + i] == #[trigger] part[i]
}

/// An input that holds two parts in a row holds each where it stands.
pub proof fn lemma_holds_parts(bytes: Seq<u8>, pos: nat, first: Seq<u8>, second: Seq<u8>)
    requires
        holds_at(bytes, pos, first + second),
    ensures
        holds_at(bytes, pos, first),
        holds_at(bytes, pos + first.len(), second),
{
    assert forall|i: int| 0 <= i < first.len() implies bytes[pos as int + i] == #[trigger] first[i] by {
        assert((first + second)[i] == first[i]);
    }
    assert forall|i: int| 0 <= i < second.len() implies bytes[pos as int + first.len() + i]
        == #[trigger] second[i] by {
        assert((first + second)[first.len() + i] == second[i]);
    }
}

/// Four bytes made of a length give the length back.
pub proof fn lemma_read_be32(bytes: Seq<u8>, pos: nat, n: nat)
    requires
        n <= MAX_LENGTH,
        holds_at(bytes, pos, be32(n)),
    ensures
        read_be32(bytes, pos as int) == n,
{
    let part = be32(n);
    assert(bytes[pos as int + 0] == part[0]);
    assert(bytes[pos as int + 1] == part[1]);
    assert(bytes[pos as int + 2] == part[2]);
    assert(bytes[pos as int + 3] == part[3]);
    let b0 = n / 0x100_0000;
    let b1 = n / 0x1_0000;
    let b2 = n / 0x100;
    assert(b1 == b2 / 0x100);
    assert(b0 == b1 / 0x100);
    assert(b0 < 256);
}

/// Eight bytes made of a bit pattern give the bit pattern back.
pub proof fn lemma_read_be64(bytes: Seq<u8>, pos: nat, n: u64)
    requires
        holds_at(bytes, pos, be64(n)),
    ensures
        read_be64(bytes, pos as int) == n,
{
    let high = n as nat / 0x1_0000_0000;
    let low = n as nat % 0x1_0000_0000;
    lemma_holds_parts(bytes, pos, be32(high), be32(low));
    lemma_read_be32(bytes, pos, high);
    lemma_read_be32(bytes, pos + 4, low);
}

/// Sized bytes are read back as they were written.
pub proof fn lemma_parse_sized(bytes: Seq<u8>, pos: nat, text: Seq<u8>)
    requires
        text.len() <= MAX_LENGTH,
        holds_at(bytes, pos, sized(text).unwrap()),
    ensures
        parse_sized(bytes, pos) == Ok::<(Seq<u8>, nat), CodecError>((text, 4 + text.len())),
{
    lemma_holds_parts(bytes, pos, be32(text.len()), text);
    lemma_read_be32(bytes, pos, text.len());
    assert(bytes.subrange(pos as int + 4, pos as int + 4 + text.len()) =~= text);
}

/// A key that stands nowhere among the pairs is not found among them.
pub proof fn lemma_key_not_found(pairs: Seq<(Value, Value)>, key: Value, from: nat)
    requires
        forall|i: int| from <= i < pairs.len() ==> (#[trigger] pairs[i]).0 != key,
    ensures
        find_key(pairs, key, from) is None,
    decreases pairs.len() - from,
{
    if from < pairs.len() {
        lemma_key_not_found(pairs, key, from + 1);
    }
}

/// A value that the format has room for, with tables in earnest and nested
/// no deeper than the limit, can be written.
pub proof fn lemma_serialize_succeeds(value: Value, limit: nat)
    requires
        sound(value),
        representable(value),
        fits(value, limit),
    ensures
        serialize_value(value, limit) is Ok,
    decreases value, 0nat,
{
    match value {
        Value::Table(pairs) => {
            lemma_serialize_pairs_succeeds(pairs, 0, (limit - 1) as nat);
        },
        _ => {},
    }
}

/// The pairs of such a table can be written.
pub proof fn lemma_serialize_pairs_succeeds(pairs: Seq<(Value, Value)>, from: nat, limit: nat)
    requires
        forall|i: int|
            0 <= i < pairs.len() ==> (#[trigger] pairs[i]).0 != Value::Null && sound(pairs[i].0)
                && sound(pairs[i].1) && representable(pairs[i].0) && representable(pairs[i].1)
                && fits(pairs[i].0, limit) && fits(pairs[i].1, limit),
    ensures
        serialize_pairs(pairs, from, limit) is Ok,
    decreases pairs, pairs.len() - from,
{
    if from < pairs.len() {
        assert(pairs[from as int].0 != Value::Null);
        lemma_serialize_succeeds(pairs[from as int].0, limit);
        lemma_serialize_succeeds(pairs[from as int].1, limit);
        lemma_serialize_pairs_succeeds(pairs, from + 1, limit);
    }
}

/// The bytes of a number are read back as the number.
pub proof fn lemma_parse_number(number: Number, bytes: Seq<u8>, pos: nat, limit: nat)
    requires
        representable(Value::Number(number)),
        holds_at(bytes, pos, serialize_number(number).unwrap()),
    ensures
        serialize_number(number) is Ok,
        parse_value(bytes, pos, limit) == Ok::<(Value, nat), CodecError>(
            (Value::Number(number), serialize_number(number).unwrap().len()),
        ),
{
    match number {
        Number::Bits(bits) => {
            lemma_holds_parts(bytes, pos, seq![TAG_BITS], be64(bits));
            assert(bytes[pos as int + 0] == seq![TAG_BITS][0]);
            lemma_read_be64(bytes, pos + 1, bits);
        },
        Number::Decimal(text) => {
            assert(sized_number(text) == sized(text));
            lemma_holds_parts(bytes, pos, seq![TAG_DECIMAL], sized(text).unwrap());
            assert(bytes[pos as int + 0] == seq![TAG_DECIMAL][0]);
            lemma_parse_sized(bytes, pos + 1, text);
        },
        Number::Scaled(mantissa, exponent) => {
            assert(sized_number(mantissa) == sized(mantissa));
            assert(sized_number(exponent) == sized(exponent));
            let head = seq![TAG_SCALED] + sized(mantissa).unwrap();
            lemma_holds_parts(bytes, pos, head, sized(exponent).unwrap());
            lemma_holds_parts(bytes, pos, seq![TAG_SCALED], sized(mantissa).unwrap());
            assert(bytes[pos as int + 0] == seq![TAG_SCALED][0]);
            lemma_parse_sized(bytes, pos + 1, mantissa);
            lemma_parse_sized(bytes, pos + 1 + 4 + mantissa.len(), exponent);
        },
    }
}

/// The bytes of a value are read back as the value, wherever in an input
/// they stand and whatever follows them.
pub proof fn lemma_parse_serialized(value: Value, bytes: Seq<u8>, pos: nat, limit: nat)
    requires
        sound(value),
        representable(value),
        fits(value, limit),
        serialize_value(value, limit) is Ok,
        holds_at(bytes, pos, serialize_value(value, limit).unwrap()),
    ensures
        parse_value(bytes, pos, limit) == Ok::<(Value, nat), CodecError>(
            (value, serialize_value(value, limit).unwrap().len()),
        ),
    decreases value, 0nat,
{
    let written = serialize_value(value, limit).unwrap();
    match value {
        Value::Null => {
            assert(bytes[pos as int + 0] == written[0]);
        },
        Value::Boolean(b) => {
            assert(bytes[pos as int + 0] == written[0]);
        },
        Value::Number(number) => {
            lemma_parse_number(number, bytes, pos, limit);
        },
        Value::String(text) => {
            lemma_holds_parts(bytes, pos, seq![TAG_STRING], sized(text).unwrap());
            assert(bytes[pos as int + 0] == seq![TAG_STRING][0]);
            lemma_parse_sized(bytes, pos + 1, text);
        },
        Value::Table(pairs) => {
            let lower = (limit - 1) as nat;
            let head = seq![TAG_TABLE] + be32(pairs.len());
            let body = serialize_pairs(pairs, 0, lower).unwrap();
            lemma_holds_parts(bytes, pos, head, body);
            lemma_holds_parts(bytes, pos, seq![TAG_TABLE], be32(pairs.len()));
            assert(bytes[pos as int + 0] == seq![TAG_TABLE][0]);
            lemma_read_be32(bytes, pos + 1, pairs.len());
            assert(pairs.take(0) =~= Seq::<(Value, Value)>::empty());
            lemma_parse_serialized_pairs(pairs, 0, bytes, pos + 5, lower);
        },
    }
}

/// The bytes of the pairs of a table from the pair `from` on are read back as
/// those pairs, and put behind the pairs before them they give the table.
pub proof fn lemma_parse_serialized_pairs(
    pairs: Seq<(Value, Value)>,
    from: nat,
    bytes: Seq<u8>,
    pos: nat,
    limit: nat,
)
    requires
        from <= pairs.len(),
        distinct_keys(pairs),
        forall|i: int|
            0 <= i < pairs.len() ==> (#[trigger] pairs[i]).0 != Value::Null && sound(pairs[i].0)
                && sound(pairs[i].1) && representable(pairs[i].0) && representable(pairs[i].1)
                && fits(pairs[i].0, limit) && fits(pairs[i].1, limit),
        serialize_pairs(pairs, from, limit) is Ok,
        holds_at(bytes, pos, serialize_pairs(pairs, from, limit).unwrap()),
    ensures
        parse_pairs(bytes, pos, (pairs.len() - from) as nat, limit, pairs.take(from as int))
            == Ok::<(Seq<(Value, Value)>, nat), CodecError>(
            (pairs, serialize_pairs(pairs, from, limit).unwrap().len()),
        ),
    decreases pairs, pairs.len() - from,
{
    if from >= pairs.len() {
        assert(pairs.take(from as int) =~= pairs);
    } else {
        let key = pairs[from as int].0;
        let value = pairs[from as int].1;
        assert(key != Value::Null);
        let key_bytes = serialize_value(key, limit).unwrap();
        let value_bytes = serialize_value(value, limit).unwrap();
        let rest = serialize_pairs(pairs, from + 1, limit).unwrap();
        lemma_holds_parts(bytes, pos, key_bytes + value_bytes, rest);
        lemma_holds_parts(bytes, pos, key_bytes, value_bytes);
        lemma_parse_serialized(key, bytes, pos, limit);
        lemma_parse_serialized(value, bytes, pos + key_bytes.len(), limit);
        let before = pairs.take(from as int);
        assert forall|i: int| 0 <= i < before.len() implies (#[trigger] before[i]).0 != key by {
            assert(before[i] == pairs[i]);
        }
        lemma_key_not_found(before, key, 0);
        assert(put(before, key, value) =~= pairs.take(from as int + 1));
        lemma_parse_serialized_pairs(
            pairs,
            from + 1,
            bytes,
            pos + key_bytes.len() + value_bytes.len(),
            limit,
        );
    }
}

/// A stream that holds one value behind the revision gives that value alone.
proof fn lemma_single_value(stream: Seq<u8>, value: Value, read: nat)
    requires
        stream.len() == 1 + read,
        parse_value(stream, 1, MAX_DEPTH as nat) == Ok::<(Value, nat), CodecError>((value, read)),
    ensures
        parse_values(stream, 1, Seq::empty()) == Ok::<Seq<Value>, CodecError>(seq![value]),
{
    let limit = MAX_DEPTH as nat;
    assert(1 < stream.len());
    let body = parse_body(stream, stream[1], 2, limit);
    assert(body is Ok);
    let (found, behind) = body.unwrap();
    assert(found == value);
    assert(1 + behind == read);
    assert(Seq::<Value>::empty().push(value) =~= seq![value]);
    assert(parse_values(stream, (2 + behind) as nat, seq![value]) == Ok::<Seq<Value>, CodecError>(
        seq![value],
    ));
}

/// Reading gives back what was written: a value that the format has room
/// for, with tables in earnest and nested no deeper than the format allows,
/// can be written, and the stream holds that value and no other.
pub proof fn lemma_deserialize_serialize(value: Value)
    requires
        sound(value),
        representable(value),
        fits(value, MAX_DEPTH as nat),
    ensures
        serialize_spec(value) is Ok,
        deserialize_spec(serialize_spec(value).unwrap()) == Ok::<Seq<Value>, CodecError>(
            seq![value],
        ),
{
    let limit = MAX_DEPTH as nat;
    lemma_serialize_succeeds(value, limit);
    let written = serialize_value(value, limit).unwrap();
    let stream = seq![REVISION] + written;
    assert(serialize_spec(value) == Ok::<Seq<u8>, CodecError>(stream));
    assert(holds_at(stream, 1, written)) by {
        assert forall|i: int| 0 <= i < written.len() implies stream[1 + i]
            == #[trigger] written[i] by {}
    }
    lemma_parse_serialized(value, stream, 1, limit);
    lemma_single_value(stream, value, written.len());
    assert(stream[0] == REVISION);
}

/// How deep tables may be nested does not change the bytes of a value that
/// is nested no deeper.
pub proof fn lemma_bytes_at_any_depth(value: Value, limit: nat, other: nat)
    requires
        fits(value, limit),
        fits(value, other),
    ensures
        serialize_value(value, limit) == serialize_value(value, other),
    decreases value, 0nat,
{
    match value {
        Value::Table(pairs) => {
            lemma_pair_bytes_at_any_depth(pairs, 0, (limit - 1) as nat, (other - 1) as nat);
        },
        _ => {},
    }
}

/// The same of the pairs of a table.
pub proof fn lemma_pair_bytes_at_any_depth(
    pairs: Seq<(Value, Value)>,
    from: nat,
    limit: nat,
    other: nat,
)
    requires
        forall|i: int|
            0 <= i < pairs.len() ==> fits((#[trigger] pairs[i]).0, limit) && fits(
                pairs[i].1,
                limit,
            ) && fits(pairs[i].0, other) && fits(pairs[i].1, other),
    ensures
        serialize_pairs(pairs, from, limit) == serialize_pairs(pairs, from, other),
    decreases pairs, pairs.len() - from,
{
    if from < pairs.len() {
        assert(fits(pairs[from as int].0, limit));
        lemma_bytes_at_any_depth(pairs[from as int].0, limit, other);
        lemma_bytes_at_any_depth(pairs[from as int].1, limit, other);
        lemma_pair_bytes_at_any_depth(pairs, from + 1, limit, other);
    }
}

/// Whether one of the pairs from `from` on holds a key or a value that is
/// nested deeper than the limit.
pub open spec fn some_pair_too_deep(pairs: Seq<(Value, Value)>, from: nat, limit: nat) -> bool {
    exists|i: int|
        from <= i < pairs.len() && (!fits((#[trigger] pairs[i]).0, limit) || !fits(
            pairs[i].1,
            limit,
        ))
}

/// A value that the format has room for, with tables in earnest, is refused
/// by the writer for its depth if it is nested deeper than the limit.
pub proof fn lemma_deep_value_is_not_written(value: Value, limit: nat)
    requires
        sound(value),
        representable(value),
        !fits(value, limit),
    ensures
        serialize_value(value, limit) == Err::<Seq<u8>, CodecError>(
            CodecError::RecursionLimitExceeded,
        ),
    decreases value, 0nat,
{
    match value {
        Value::Table(pairs) => {
            if limit > 0 {
                assert(some_pair_too_deep(pairs, 0, (limit - 1) as nat));
                lemma_deep_pairs_are_not_written(pairs, 0, (limit - 1) as nat);
            }
        },
        _ => {},
    }
}

/// The same of the pairs of a table.
pub proof fn lemma_deep_pairs_are_not_written(pairs: Seq<(Value, Value)>, from: nat, limit: nat)
    requires
        forall|i: int|
            0 <= i < pairs.len() ==> (#[trigger] pairs[i]).0 != Value::Null && sound(pairs[i].0)
                && sound(pairs[i].1) && representable(pairs[i].0) && representable(pairs[i].1),
        some_pair_too_deep(pairs, from, limit),
    ensures
        serialize_pairs(pairs, from, limit) == Err::<Seq<u8>, CodecError>(
            CodecError::RecursionLimitExceeded,
        ),
    decreases pairs, pairs.len() - from,
{
    let key = pairs[from as int].0;
    let value = pairs[from as int].1;
    assert(key != Value::Null);
    if !fits(key, limit) {
        lemma_deep_value_is_not_written(key, limit);
    } else {
        lemma_serialize_succeeds(key, limit);
        if !fits(value, limit) {
            lemma_deep_value_is_not_written(value, limit);
        } else {
            lemma_serialize_succeeds(value, limit);
            assert(some_pair_too_deep(pairs, from + 1, limit));
            lemma_deep_pairs_are_not_written(pairs, from + 1, limit);
        }
    }
}

/// The bytes of a value that is nested deeper than the limit are refused by
/// the reader for their depth, wherever in an input they stand.
pub proof fn lemma_deep_value_is_not_read(
    value: Value,
    bytes: Seq<u8>,
    pos: nat,
    limit: nat,
    depth: nat,
)
    requires
        sound(value),
        representable(value),
        fits(value, depth),
        !fits(value, limit),
        serialize_value(value, depth) is Ok,
        holds_at(bytes, pos, serialize_value(value, depth).unwrap()),
    ensures
        parse_value(bytes, pos, limit) == Err::<(Value, nat), CodecError>(
            CodecError::RecursionLimitExceeded,
        ),
    decreases value, 0nat,
{
    match value {
        Value::Table(pairs) => {
            let lower = (depth - 1) as nat;
            let head = seq![TAG_TABLE] + be32(pairs.len());
            let body = serialize_pairs(pairs, 0, lower).unwrap();
            lemma_holds_parts(bytes, pos, head, body);
            lemma_holds_parts(bytes, pos, seq![TAG_TABLE], be32(pairs.len()));
            assert(bytes[pos as int + 0] == seq![TAG_TABLE][0]);
            lemma_read_be32(bytes, pos + 1, pairs.len());
            if limit > 0 {
                assert(some_pair_too_deep(pairs, 0, (limit - 1) as nat));
                lemma_deep_pairs_are_not_read(
                    pairs,
                    0,
                    bytes,
                    pos + 5,
                    (limit - 1) as nat,
                    lower,
                    Seq::empty(),
                );
            }
        },
        _ => {},
    }
}

/// The same of the pairs of a table, whatever pairs were read before them.
pub proof fn lemma_deep_pairs_are_not_read(
    pairs: Seq<(Value, Value)>,
    from: nat,
    bytes: Seq<u8>,
    pos: nat,
    limit: nat,
    depth: nat,
    before: Seq<(Value, Value)>,
)
    requires
        forall|i: int|
            0 <= i < pairs.len() ==> (#[trigger] pairs[i]).0 != Value::Null && sound(pairs[i].0)
                && sound(pairs[i].1) && representable(pairs[i].0) && representable(pairs[i].1)
                && fits(pairs[i].0, depth) && fits(pairs[i].1, depth),
        some_pair_too_deep(pairs, from, limit),
        serialize_pairs(pairs, from, depth) is Ok,
        holds_at(bytes, pos, serialize_pairs(pairs, from, depth).unwrap()),
    ensures
        parse_pairs(bytes, pos, (pairs.len() - from) as nat, limit, before) == Err::<
            (Seq<(Value, Value)>, nat),
            CodecError,
        >(CodecError::RecursionLimitExceeded),
    decreases pairs, pairs.len() - from,
{
    let key = pairs[from as int].0;
    let value = pairs[from as int].1;
    assert(key != Value::Null);
    let key_bytes = serialize_value(key, depth).unwrap();
    let value_bytes = serialize_value(value, depth).unwrap();
    let rest = serialize_pairs(pairs, from + 1, depth).unwrap();
    lemma_holds_parts(bytes, pos, key_bytes + value_bytes, rest);
    lemma_holds_parts(bytes, pos, key_bytes, value_bytes);
    if !fits(key, limit) {
        lemma_deep_value_is_not_read(key, bytes, pos, limit, depth);
    } else {
        lemma_bytes_at_any_depth(key, limit, depth);
        lemma_parse_serialized(key, bytes, pos, limit);
        if !fits(value, limit) {
            lemma_deep_value_is_not_read(value, bytes, pos + key_bytes.len(), limit, depth);
        } else {
            lemma_bytes_at_any_depth(value, limit, depth);
            lemma_parse_serialized(value, bytes, pos + key_bytes.len(), limit);
            assert(some_pair_too_deep(pairs, from + 1, limit));
            lemma_deep_pairs_are_not_read(
                pairs,
                from + 1,
                bytes,
                pos + key_bytes.len() + value_bytes.len(),
                limit,
                depth,
                put(before, key, value),
            );
        }
    }
}

/// A value that is nested deeper than the format allows is refused for its
/// depth on both sides: the writer does not write it, and the reader does
/// not read a stream that holds its bytes.
pub proof fn lemma_deep_stream_is_refused(value: Value, depth: nat)
    requires
        sound(value),
        representable(value),
        fits(value, depth),
        !fits(value, MAX_DEPTH as nat),
    ensures
        serialize_value(value, depth) is Ok,
        deserialize_spec(seq![REVISION] + serialize_value(value, depth).unwrap()) == Err::<
            Seq<Value>,
            CodecError,
        >(CodecError::RecursionLimitExceeded),
        serialize_spec(value) == Err::<Seq<u8>, CodecError>(CodecError::RecursionLimitExceeded),
{
    lemma_serialize_succeeds(value, depth);
    lemma_deep_value_is_not_written(value, MAX_DEPTH as nat);
    let written = serialize_value(value, depth).unwrap();
    let stream = seq![REVISION] + written;
    assert(holds_at(stream, 1, written)) by {
        assert forall|i: int| 0 <= i < written.len() implies stream[1 + i]
            == #[trigger] written[i] by {}
    }
    lemma_deep_value_is_not_read(value, stream, 1, MAX_DEPTH as nat, depth);
    assert(stream[0] == REVISION);
    assert(1 < stream.len());
    assert(parse_body(stream, stream[1], 2, MAX_DEPTH as nat) is Err);
}

/// The limit of the depth does nothing but refuse: what follows a tag is
/// read under a limit as it is read under any greater one, unless it is
/// refused for its depth.
pub proof fn lemma_limit_only_refuses(bytes: Seq<u8>, tag: u8, pos: nat, limit: nat, greater: nat)
    requires
        limit <= greater,
    ensures
        parse_body(bytes, tag, pos, limit) == parse_body(bytes, tag, pos, greater) || parse_body(
            bytes,
            tag,
            pos,
            limit,
        ) == Err::<(Value, nat), CodecError>(CodecError::RecursionLimitExceeded),
    decreases limit, 0nat,
{
    if tag == TAG_TABLE && limit > 0 && pos + 4 <= bytes.len() {
        lemma_limit_only_refuses_pairs(
            bytes,
            pos + 4,
            read_be32(bytes, pos as int),
            (limit - 1) as nat,
            (greater - 1) as nat,
            Seq::empty(),
        );
    }
}

/// The same of a value with its tag.
pub proof fn lemma_limit_only_refuses_value(bytes: Seq<u8>, pos: nat, limit: nat, greater: nat)
    requires
        limit <= greater,
    ensures
        parse_value(bytes, pos, limit) == parse_value(bytes, pos, greater) || parse_value(
            bytes,
            pos,
            limit,
        ) == Err::<(Value, nat), CodecError>(CodecError::RecursionLimitExceeded),
    decreases limit, 1nat,
{
    if pos < bytes.len() {
        lemma_limit_only_refuses(bytes, bytes[pos as int], pos + 1, limit, greater);
    }
}

/// The same of the pairs of a table.
pub proof fn lemma_limit_only_refuses_pairs(
    bytes: Seq<u8>,
    pos: nat,
    count: nat,
    limit: nat,
    greater: nat,
    pairs: Seq<(Value, Value)>,
)
    requires
        limit <= greater,
    ensures
        parse_pairs(bytes, pos, count, limit, pairs) == parse_pairs(
            bytes,
            pos,
            count,
            greater,
            pairs,
        ) || parse_pairs(bytes, pos, count, limit, pairs) == Err::<
            (Seq<(Value, Value)>, nat),
            CodecError,
        >(CodecError::RecursionLimitExceeded),
    decreases limit, count + 2,
{
    if count > 0 {
        lemma_limit_only_refuses_value(bytes, pos, limit, greater);
        match parse_value(bytes, pos, limit) {
            Ok((key, read)) => {
                if key != Value::Null {
                    lemma_limit_only_refuses_value(bytes, pos + read, limit, greater);
                    match parse_value(bytes, pos + read, limit) {
                        Ok((value, more)) => {
                            lemma_limit_only_refuses_pairs(
                                bytes,
                                pos + read + more,
                                (count - 1) as nat,
                                limit,
                                greater,
                                put(pairs, key, value),
                            );
                        },
                        Err(_) => {},
                    }
                }
            },
            Err(_) => {},
        }
    }
}

} // verus!
