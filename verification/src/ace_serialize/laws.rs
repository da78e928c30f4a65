//! What holds of every legacy text, and of every value and its text: reading
//! gives back what was written.

use crate::ace_serialize::{
    deepest, deserialize_first_spec, deserialize_spec, escape, escape_byte, escaped_byte, left,
    lemma_deepest_at_least, parse_body,
    parse_pairs, parse_scaled, parse_value, parse_values, serialize_spec, signed, text_at,
    text_end, then, token, token_at, unescape, write_number, write_pairs, write_value, CONTROL,
    ESCAPE, MAX_DEPTH,
};
use crate::error::CodecError;
use crate::ace_serialize::deserialization::lemma_pair_read;
use crate::lib_serialize::laws::{holds_at, lemma_holds_parts, lemma_key_not_found};
use crate::number::{
    after_sign, digits_end, is_decimal, is_digit, is_exponent, is_number_text, is_word, lower,
    number_of_text, special_number, INF, INFINITY, NAN, NEGATIVE_INFINITY, NEGATIVE_NAN,
    POSITIVE_INFINITY, POSITIVE_NAN, VENDOR_IND, VENDOR_INF,
};
use crate::value::{distinct_keys, fits, put, sound, Number, Value};
use vstd::prelude::*;

verus! {

/// A table is refused where null stands in the place of a key, whatever
/// pairs were read before and whatever follows.
pub proof fn lemma_null_key_is_refused(
    s: Seq<u8>,
    pos: nat,
    limit: nat,
    pairs: Seq<(Value, Value)>,
)
    requires
        token_at(s, pos) == Some(0x5au8),
    ensures
        parse_pairs(s, pos, limit, pairs) == Err::<(Seq<(Value, Value)>, nat), CodecError>(
            CodecError::NullKeyNotAllowed,
        ),
{
    assert(parse_body(s, 0x5au8, pos + 2, limit) == Ok::<(Option<Value>, nat), CodecError>(
        (Some(Value::Null), 0),
    ));
}

/// Whether the text holds no `^`.
pub open spec fn no_control(text: Seq<u8>) -> bool {
    forall|i: int| 0 <= i < text.len() ==> (#[trigger] text[i]) != CONTROL
}

/// Whether a text that reaches the place `pos` ends there: the input ends, or
/// a `^` stands there.
pub open spec fn ends_at(s: Seq<u8>, pos: nat) -> bool {
    pos >= s.len() || s[pos as int] == CONTROL
}

/// A text without `^` that the input holds, and that ends where it stops, is
/// read whole and alone.
pub proof fn lemma_text_is_read(s: Seq<u8>, pos: nat, part: Seq<u8>)
    requires
        holds_at(s, pos, part),
        no_control(part),
        ends_at(s, pos + part.len()),
    ensures
        text_end(s, pos) == pos + part.len(),
        text_at(s, pos) == part,
    decreases part.len(),
{
    if part.len() > 0 {
        assert(s[pos as int + 0] == part[0]);
        let rest = part.skip(1);
        assert forall|i: int| 0 <= i < rest.len() implies s[pos as int + 1 + i]
            == #[trigger] rest[i] by {
            assert(s[pos as int + (i + 1)] == part[i + 1]);
        }
        assert(no_control(rest)) by {
            assert forall|i: int| 0 <= i < rest.len() implies (#[trigger] rest[i]) != CONTROL by {
                assert(rest[i] == part[i + 1]);
            }
        }
        lemma_text_is_read(s, pos + 1, rest);
    }
    assert(text_at(s, pos) =~= part);
}

/// A string is written without `^`.
pub proof fn lemma_escape_has_no_control(text: Seq<u8>, from: nat)
    ensures
        no_control(escape(text, from)),
    decreases text.len() - from,
{
    if from < text.len() {
        lemma_escape_has_no_control(text, from + 1);
        let head = escape_byte(text[from as int]);
        let tail = escape(text, from + 1);
        assert forall|i: int| 0 <= i < (head + tail).len() implies (#[trigger] (head + tail)[i])
            != CONTROL by {
            if i >= head.len() {
                assert((head + tail)[i] == tail[i - head.len()]);
            }
        }
    }
}

/// An escape stands for the byte that it was written for.
pub proof fn lemma_escaped_byte(b: u8)
    ensures
        escape_byte(b).len() == 1 ==> escape_byte(b)[0] == b && b != ESCAPE,
        escape_byte(b).len() != 1 ==> escape_byte(b).len() == 2 && escape_byte(b)[0] == ESCAPE
            && escaped_byte(escape_byte(b)[1]) == Some(b),
{
}

/// Reading a string undoes its escapes: where the raw text holds the written
/// bytes of a string from `from` on and then ends, reading it from there
/// adds those bytes to what was read before.
pub proof fn lemma_unescape_written(
    text: Seq<u8>,
    from: nat,
    raw: Seq<u8>,
    at: nat,
    done: Seq<u8>,
)
    requires
        from <= text.len(),
        holds_at(raw, at, escape(text, from)),
        raw.len() == at + escape(text, from).len(),
    ensures
        unescape(raw, at, done) == Ok::<Seq<u8>, CodecError>(done + text.skip(from as int)),
    decreases text.len() - from,
{
    if from >= text.len() {
        assert(done + text.skip(from as int) =~= done);
    } else {
        let b = text[from as int];
        let head = escape_byte(b);
        let tail = escape(text, from + 1);
        lemma_escaped_byte(b);
        lemma_holds_parts(raw, at, head, tail);
        assert(raw[at as int + 0] == head[0]);
        if head.len() == 2 {
            assert(raw[at as int + 1] == head[1]);
        }
        lemma_unescape_written(text, from + 1, raw, at + head.len(), done.push(b));
        assert(done.push(b) + text.skip(from as int + 1) =~= done + text.skip(from as int));
    }
}

/// Reading a string undoes its escapes.
pub proof fn lemma_unescape_escape(text: Seq<u8>)
    ensures
        unescape(escape(text, 0), 0, Seq::empty()) == Ok::<Seq<u8>, CodecError>(text),
{
    let raw = escape(text, 0);
    assert(holds_at(raw, 0, raw));
    lemma_unescape_written(text, 0, raw, 0, Seq::empty());
    assert(Seq::<u8>::empty() + text.skip(0) =~= text);
}

/// A run of digits holds digits, and ends in the text.
pub proof fn lemma_digits(s: Seq<u8>, from: int, i: int)
    requires
        0 <= from <= s.len(),
    ensures
        from <= digits_end(s, from) <= s.len(),
        from <= i < digits_end(s, from) ==> is_digit(s[i]),
    decreases s.len() - from,
{
    if from < s.len() && is_digit(s[from]) {
        lemma_digits(s, from + 1, i);
    }
}

/// Text that spells a number holds no `^`.
pub proof fn lemma_number_has_no_control(text: Seq<u8>)
    requires
        is_number_text(text),
    ensures
        no_control(text),
{
    let start = after_sign(text, 0);
    assert forall|i: int| 0 <= i < text.len() implies (#[trigger] text[i]) != CONTROL by {
        if i < start {
        } else if is_word(text, start, INF@) {
            assert(lower(text[start + (i - start)]) == INF@[i - start]);
        } else if is_word(text, start, INFINITY@) {
            assert(lower(text[start + (i - start)]) == INFINITY@[i - start]);
        } else if is_word(text, start, NAN@) {
            assert(lower(text[start + (i - start)]) == NAN@[i - start]);
        } else {
            assert(is_decimal(text, start));
            lemma_digits(text, start, i);
            let whole_end = digits_end(text, start);
            let has_point = 0 <= whole_end < text.len() && text[whole_end] == 0x2e;
            if has_point {
                lemma_digits(text, whole_end + 1, i);
            }
            let fraction_end = if has_point {
                digits_end(text, whole_end + 1)
            } else {
                whole_end
            };
            if fraction_end < text.len() {
                assert(is_exponent(text, fraction_end));
                let exponent_start = after_sign(text, fraction_end + 1);
                lemma_digits(text, exponent_start, i);
            }
        }
    }
}

/// Whether the number is read back from its text as it is: it is one of the
/// four special numbers, or it is held as text that spells a number and is
/// none of the fixed spellings of a special number.
pub open spec fn number_kept(number: Number) -> bool {
    match number {
        Number::Bits(bits) => bits == POSITIVE_INFINITY || bits == NEGATIVE_INFINITY || bits
            == POSITIVE_NAN || bits == NEGATIVE_NAN,
        Number::Decimal(text) => is_number_text(text) && special_number(text) is None,
        Number::Scaled(mantissa, exponent) => is_number_text(mantissa) && is_number_text(exponent),
    }
}

/// Whether every number of the value is read back from its text as it is.
pub open spec fn kept(value: Value) -> bool
    decreases value,
{
    match value {
        Value::Number(number) => number_kept(number),
        Value::Table(pairs) => forall|i: int|
            0 <= i < pairs.len() ==> kept((#[trigger] pairs[i]).0) && kept(pairs[i].1),
        _ => true,
    }
}

/// The text of a number begins with a control token that is neither `^t` nor
/// the end marker.
pub proof fn lemma_number_begins_with_token(number: Number)
    requires
        write_number(number) is Ok,
    ensures
        write_number(number).unwrap().len() >= 2,
        write_number(number).unwrap()[0] == CONTROL,
        write_number(number).unwrap()[1] == 0x4e || write_number(number).unwrap()[1] == 0x46,
{
}

/// The text of a value begins with a control token that is neither `^t` nor
/// the end marker.
pub proof fn lemma_value_begins_with_token(value: Value, limit: nat)
    requires
        write_value(value, limit) is Ok,
    ensures
        write_value(value, limit).unwrap().len() >= 2,
        write_value(value, limit).unwrap()[0] == CONTROL,
        write_value(value, limit).unwrap()[1] != 0x74,
        write_value(value, limit).unwrap()[1] != CONTROL,
{
    match value {
        Value::Number(number) => {
            lemma_number_begins_with_token(number);
        },
        _ => {},
    }
}

/// A value whose numbers spell numbers, with tables in earnest and nested no
/// deeper than the limit, can be written.
pub proof fn lemma_write_succeeds(value: Value, limit: nat)
    requires
        kept(value),
        sound(value),
        fits(value, limit),
    ensures
        write_value(value, limit) is Ok,
    decreases value, 0nat,
{
    match value {
        Value::Table(pairs) => {
            lemma_write_pairs_succeeds(pairs, 0, (limit - 1) as nat);
        },
        _ => {},
    }
}

/// The pairs of such a table can be written.
pub proof fn lemma_write_pairs_succeeds(pairs: Seq<(Value, Value)>, from: nat, limit: nat)
    requires
        forall|i: int|
            0 <= i < pairs.len() ==> (#[trigger] pairs[i]).0 != Value::Null && sound(pairs[i].0)
                && sound(pairs[i].1) && kept(pairs[i].0) && kept(pairs[i].1) && fits(
                pairs[i].0,
                limit,
            ) && fits(pairs[i].1, limit),
    ensures
        write_pairs(pairs, from, limit) is Ok,
    decreases pairs, pairs.len() - from,
{
    if from < pairs.len() {
        assert(pairs[from as int].0 != Value::Null);
        lemma_write_succeeds(pairs[from as int].0, limit);
        lemma_write_succeeds(pairs[from as int].1, limit);
        lemma_write_pairs_succeeds(pairs, from + 1, limit);
    }
}

/// The fixed spellings of the special numbers are read as those numbers.
pub proof fn lemma_special_spellings()
    ensures
        special_number(VENDOR_INF@) == Some(POSITIVE_INFINITY),
        special_number(seq![0x2du8] + VENDOR_INF@) == Some(NEGATIVE_INFINITY),
        special_number(VENDOR_IND@) == Some(POSITIVE_NAN),
        special_number(seq![0x2du8] + VENDOR_IND@) == Some(NEGATIVE_NAN),
        no_control(VENDOR_INF@),
        no_control(VENDOR_IND@),
        no_control(seq![0x2du8] + VENDOR_INF@),
        no_control(seq![0x2du8] + VENDOR_IND@),
{
    assert(VENDOR_INF@.skip(0) =~= VENDOR_INF@);
    assert(VENDOR_IND@.skip(0) =~= VENDOR_IND@);
    assert((seq![0x2du8] + VENDOR_INF@).skip(1) =~= VENDOR_INF@);
    assert((seq![0x2du8] + VENDOR_IND@).skip(1) =~= VENDOR_IND@);
    assert(VENDOR_INF@[5] != VENDOR_IND@[5]);
    assert(VENDOR_INF@[0] != INF@[0]);
    assert(VENDOR_IND@[0] != NAN@[0]);
    assert(VENDOR_IND@[0] != INF@[0]);
}

/// The text of a number is read back as the number, if the number is one
/// that its text keeps.
pub proof fn lemma_number_is_read(number: Number, s: Seq<u8>, pos: nat, limit: nat)
    requires
        number_kept(number),
        holds_at(s, pos, write_number(number).unwrap()),
        ends_at(s, pos + write_number(number).unwrap().len()),
    ensures
        write_number(number) is Ok,
        parse_value(s, pos, limit) == Ok::<(Option<Value>, nat), CodecError>(
            (Some(Value::Number(number)), write_number(number).unwrap().len()),
        ),
{
    let written = write_number(number).unwrap();
    assert(s[pos as int + 0] == written[0]);
    assert(s[pos as int + 1] == written[1]);
    match number {
        Number::Bits(bits) => {
            lemma_special_spellings();
            let negative = bits >= 0x8000_0000_0000_0000;
            let spelling = signed(
                negative,
                if bits == POSITIVE_INFINITY || bits == NEGATIVE_INFINITY {
                    VENDOR_INF@
                } else {
                    VENDOR_IND@
                },
            );
            assert(written == token(0x4e) + spelling);
            lemma_holds_parts(s, pos, token(0x4e), spelling);
            lemma_text_is_read(s, pos + 2, spelling);
            assert(number_of_text(spelling) == Ok::<Number, CodecError>(number));
        },
        Number::Decimal(text) => {
            lemma_number_has_no_control(text);
            lemma_holds_parts(s, pos, token(0x4e), text);
            lemma_text_is_read(s, pos + 2, text);
        },
        Number::Scaled(mantissa, exponent) => {
            lemma_number_has_no_control(mantissa);
            lemma_number_has_no_control(exponent);
            lemma_holds_parts(s, pos, token(0x46) + mantissa + token(0x66), exponent);
            lemma_holds_parts(s, pos, token(0x46) + mantissa, token(0x66));
            lemma_holds_parts(s, pos, token(0x46), mantissa);
            let behind = pos + 2 + mantissa.len();
            assert(s[behind as int + 0] == token(0x66)[0]);
            assert(s[behind as int + 1] == token(0x66)[1]);
            lemma_text_is_read(s, pos + 2, mantissa);
            lemma_text_is_read(s, behind + 2, exponent);
            assert(token_at(s, behind) == Some(0x66u8));
            assert(parse_scaled(s, pos + 2) == Ok::<(Option<Value>, nat), CodecError>(
                (Some(Value::Number(number)), mantissa.len() + 2 + exponent.len()),
            ));
        },
    }
}

/// The text of a value is read back as the value, wherever in an input it
/// stands, if the input ends behind it or goes on with a control token.
pub proof fn lemma_value_is_read(value: Value, s: Seq<u8>, pos: nat, limit: nat)
    requires
        kept(value),
        sound(value),
        fits(value, limit),
        write_value(value, limit) is Ok,
        holds_at(s, pos, write_value(value, limit).unwrap()),
        ends_at(s, pos + write_value(value, limit).unwrap().len()),
    ensures
        parse_value(s, pos, limit) == Ok::<(Option<Value>, nat), CodecError>(
            (Some(value), write_value(value, limit).unwrap().len()),
        ),
    decreases value, 0nat,
{
    let written = write_value(value, limit).unwrap();
    lemma_value_begins_with_token(value, limit);
    assert(s[pos as int + 0] == written[0]);
    assert(s[pos as int + 1] == written[1]);
    match value {
        Value::Null => {},
        Value::Boolean(b) => {},
        Value::Number(number) => {
            lemma_number_is_read(number, s, pos, limit);
        },
        Value::String(text) => {
            let raw = escape(text, 0);
            lemma_holds_parts(s, pos, token(0x53), raw);
            lemma_escape_has_no_control(text, 0);
            lemma_text_is_read(s, pos + 2, raw);
            lemma_unescape_escape(text);
        },
        Value::Table(pairs) => {
            let lower = (limit - 1) as nat;
            let body = write_pairs(pairs, 0, lower).unwrap();
            assert(written == token(0x54) + body + token(0x74));
            assert(token(0x54) + body + token(0x74) =~= token(0x54) + (body + token(0x74)));
            lemma_holds_parts(s, pos, token(0x54), body + token(0x74));
            assert(pairs.take(0) =~= Seq::<(Value, Value)>::empty());
            lemma_pairs_are_read(pairs, 0, s, pos + 2, lower);
        },
    }
}

/// The text of the pairs of a table from the pair `from` on, with the `^t`
/// behind it, is read back as those pairs, and put behind the pairs before
/// them they give the table.
pub proof fn lemma_pairs_are_read(
    pairs: Seq<(Value, Value)>,
    from: nat,
    s: Seq<u8>,
    pos: nat,
    limit: nat,
)
    requires
        from <= pairs.len(),
        distinct_keys(pairs),
        forall|i: int|
            0 <= i < pairs.len() ==> (#[trigger] pairs[i]).0 != Value::Null && sound(pairs[i].0)
                && sound(pairs[i].1) && kept(pairs[i].0) && kept(pairs[i].1) && fits(
                pairs[i].0,
                limit,
            ) && fits(pairs[i].1, limit),
        write_pairs(pairs, from, limit) is Ok,
        holds_at(s, pos, write_pairs(pairs, from, limit).unwrap() + token(0x74)),
    ensures
        parse_pairs(s, pos, limit, pairs.take(from as int)) == Ok::<
            (Seq<(Value, Value)>, nat),
            CodecError,
        >((pairs, write_pairs(pairs, from, limit).unwrap().len() + 2)),
    decreases pairs, pairs.len() - from,
{
    let written = write_pairs(pairs, from, limit).unwrap();
    if from >= pairs.len() {
        lemma_holds_parts(s, pos, written, token(0x74));
        assert(s[pos as int + 0] == token(0x74)[0]);
        assert(s[pos as int + 1] == token(0x74)[1]);
        assert(pairs.take(from as int) =~= pairs);
    } else {
        let key = pairs[from as int].0;
        let value = pairs[from as int].1;
        assert(key != Value::Null);
        let key_text = write_value(key, limit).unwrap();
        let value_text = write_value(value, limit).unwrap();
        let rest = write_pairs(pairs, from + 1, limit).unwrap();
        let tail = rest + token(0x74);
        lemma_value_begins_with_token(key, limit);
        lemma_value_begins_with_token(value, limit);
        // The input holds the key, the value, and then the next key or the
        // end of the table.
        assert(written + token(0x74) =~= key_text + value_text + tail);
        lemma_holds_parts(s, pos, key_text + value_text, tail);
        lemma_holds_parts(s, pos, key_text, value_text);
        let second = pos + key_text.len();
        let third = second + value_text.len();
        lemma_tail_begins_with_control(pairs, from + 1, limit);
        lemma_token_is_held(s, pos, key_text);
        lemma_token_is_held(s, second, value_text);
        assert(s[third as int + 0] == tail[0]);
        lemma_value_is_read(key, s, pos, limit);
        lemma_value_is_read(value, s, second, limit);
        lemma_pair_read(s, pos, limit, pairs.take(from as int));
        let before = pairs.take(from as int);
        assert forall|i: int| 0 <= i < before.len() implies (#[trigger] before[i]).0 != key by {
            assert(before[i] == pairs[i]);
        }
        lemma_key_not_found(before, key, 0);
        assert(put(before, key, value) =~= pairs.take(from as int + 1));
        lemma_pairs_are_read(pairs, from + 1, s, third, limit);
    }
}

/// Where the input holds a text of two bytes or more, a control token stands
/// if the text begins with one.
pub proof fn lemma_token_is_held(s: Seq<u8>, pos: nat, text: Seq<u8>)
    requires
        holds_at(s, pos, text),
        text.len() >= 2,
        text[0] == CONTROL,
    ensures
        token_at(s, pos) == Some(text[1]),
{
    assert(s[pos as int + 0] == text[0]);
    assert(s[pos as int + 1] == text[1]);
}

/// The text of the pairs of a table from any pair on, with the `^t` behind
/// it, begins with `^`.
pub proof fn lemma_tail_begins_with_control(pairs: Seq<(Value, Value)>, from: nat, limit: nat)
    requires
        write_pairs(pairs, from, limit) is Ok,
    ensures
        (write_pairs(pairs, from, limit).unwrap() + token(0x74))[0] == CONTROL,
{
    if from < pairs.len() {
        lemma_value_begins_with_token(pairs[from as int].0, limit);
    }
}

/// Reading gives back what was written: a value whose numbers its text
/// keeps, with tables in earnest and nested no deeper than the format
/// allows, can be written, and its text holds that value and no other.
pub proof fn lemma_deserialize_serialize(value: Value)
    requires
        kept(value),
        sound(value),
        fits(value, MAX_DEPTH as nat),
    ensures
        serialize_spec(value) is Ok,
        deserialize_spec(serialize_spec(value).unwrap()) == Ok::<Seq<Value>, CodecError>(
            seq![value],
        ),
{
    let limit = MAX_DEPTH as nat;
    lemma_write_succeeds(value, limit);
    lemma_value_begins_with_token(value, limit);
    let written = write_value(value, limit).unwrap();
    let s = token(0x31) + written + token(CONTROL);
    assert(serialize_spec(value) == Ok::<Seq<u8>, CodecError>(s));
    assert(holds_at(s, 2, written)) by {
        assert forall|i: int| 0 <= i < written.len() implies s[2 + i] == #[trigger] written[i] by {}
    }
    let behind = (2 + written.len()) as nat;
    assert(s[behind as int] == CONTROL);
    assert(s[behind as int + 1] == CONTROL);
    lemma_value_is_read(value, s, 2, limit);
    assert(token_at(s, 0) == Some(0x31u8));
    assert(s[2] == written[0]);
    assert(s[3] == written[1]);
    assert(token_at(s, 2) == Some(written[1]));
    assert(parse_body(s, written[1], 4, limit) == Ok::<(Option<Value>, nat), CodecError>(
        (Some(value), (written.len() - 2) as nat),
    ));
    assert(token_at(s, behind) == Some(CONTROL));
    assert(parse_body(s, CONTROL, behind + 2, limit) == Ok::<(Option<Value>, nat), CodecError>(
        (None, 0),
    ));
    assert(token_at(s, behind + 2) is None);
    assert(Seq::<Value>::empty().push(value) =~= seq![value]);
    assert(parse_values(s, behind + 2, seq![value]) == Ok::<Seq<Value>, CodecError>(seq![value]));
    assert(parse_values(s, behind, seq![value]) == Ok::<Seq<Value>, CodecError>(seq![value]));
}

/// What the reader gives where it refuses a text for its depth.
pub open spec fn refused<T>() -> Result<T, CodecError> {
    Err(CodecError::RecursionLimitExceeded)
}

/// A text ends at its start or behind it, and in the input.
pub proof fn lemma_text_end_bounds(s: Seq<u8>, pos: nat)
    ensures
        pos <= text_end(s, pos),
        pos <= s.len() ==> text_end(s, pos) <= s.len(),
        text_at(s, pos).len() == text_end(s, pos) - pos || pos > s.len(),
    decreases s.len() - pos,
{
    if pos < s.len() && s[pos as int] != CONTROL {
        lemma_text_end_bounds(s, pos + 1);
    }
}

/// The text between two tokens opens no table and closes none.
pub proof fn lemma_deepest_passes_text(s: Seq<u8>, pos: nat, open: nat)
    ensures
        deepest(s, pos, open) == deepest(s, text_end(s, pos), open),
    decreases s.len() - pos,
{
    lemma_text_end_bounds(s, pos);
    if pos < s.len() && s[pos as int] != CONTROL {
        lemma_text_end_bounds(s, pos + 1);
        lemma_deepest_passes_text(s, pos + 1, open);
    }
}

/// A string is read, or refused for an escape and for nothing else.
pub proof fn lemma_unescape_fails_for_escapes(raw: Seq<u8>, from: nat, done: Seq<u8>)
    ensures
        unescape(raw, from, done) is Ok || unescape(raw, from, done) == Err::<
            Seq<u8>,
            CodecError,
        >(CodecError::InvalidEscape),
    decreases raw.len() - from,
{
    if from >= raw.len() {
    } else if raw[from as int] != ESCAPE {
        lemma_unescape_fails_for_escapes(raw, from + 1, done.push(raw[from as int]));
    } else if from + 1 >= raw.len() {
    } else {
        match escaped_byte(raw[from as int + 1]) {
            Some(byte) => {
                lemma_unescape_fails_for_escapes(raw, from + 2, done.push(byte));
            },
            None => {},
        }
    }
}

/// Where never more tables are open at once than the limit allows, what
/// follows a token is not refused for its depth; and behind a value that is
/// read, no more tables are open at once than from its token on.
pub proof fn lemma_body_within_depth(s: Seq<u8>, token: u8, at: nat, limit: nat, open: nat)
    requires
        token_at(s, at) == Some(token),
        deepest(s, at, open) <= open + limit,
    ensures
        parse_body(s, token, at + 2, limit) != refused::<(Option<Value>, nat)>(),
        parse_body(s, token, at + 2, limit) is Ok ==> deepest(
            s,
            at + 2 + parse_body(s, token, at + 2, limit).unwrap().1,
            open,
        ) <= deepest(s, at, open),
    decreases limit, left(s.len(), at + 2), 0nat,
{
    let pos = at + 2;
    lemma_text_end_bounds(s, pos);
    lemma_deepest_passes_text(s, pos, open);
    if token == 0x54 {
        lemma_deepest_at_least(s, pos, open + 1);
        if limit > 0 {
            lemma_pairs_within_depth(s, pos, (limit - 1) as nat, Seq::empty(), open + 1);
        }
    } else if token == 0x46 {
        let behind = text_end(s, pos);
        if parse_scaled(s, pos) is Ok {
            assert(token_at(s, behind) == Some(0x66u8));
            lemma_text_end_bounds(s, behind + 2);
            lemma_deepest_passes_text(s, behind + 2, open);
            assert(deepest(s, behind, open) == deepest(s, behind + 2, open));
        }
    } else if token == 0x74 {
    } else {
        lemma_unescape_fails_for_escapes(text_at(s, pos), 0, Seq::empty());
        assert(deepest(s, at, open) == deepest(s, pos, open));
    }
}

/// The same of the pairs of a table, one table more being open in them than
/// behind them.
pub proof fn lemma_pairs_within_depth(
    s: Seq<u8>,
    pos: nat,
    limit: nat,
    pairs: Seq<(Value, Value)>,
    open: nat,
)
    requires
        open >= 1,
        deepest(s, pos, open) <= open + limit,
    ensures
        parse_pairs(s, pos, limit, pairs) != refused::<(Seq<(Value, Value)>, nat)>(),
        parse_pairs(s, pos, limit, pairs) is Ok ==> deepest(
            s,
            pos + parse_pairs(s, pos, limit, pairs).unwrap().1,
            (open - 1) as nat,
        ) <= deepest(s, pos, open),
    decreases limit, left(s.len(), pos), 1nat,
{
    match token_at(s, pos) {
        None => {},
        Some(token) => {
            if token == 0x74 {
            } else {
                lemma_body_within_depth(s, token, pos, limit, open);
                match parse_body(s, token, pos + 2, limit) {
                    Ok((Some(key), read)) => {
                        let second_at = pos + 2 + read;
                        match token_at(s, second_at) {
                            None => {},
                            Some(second) => {
                                if key != Value::Null && second != 0x74 {
                                    lemma_body_within_depth(s, second, second_at, limit, open);
                                    match parse_body(s, second, second_at + 2, limit) {
                                        Ok((Some(value), more)) => {
                                            lemma_pairs_within_depth(
                                                s,
                                                second_at + 2 + more,
                                                limit,
                                                put(pairs, key, value),
                                                open,
                                            );
                                        },
                                        _ => {},
                                    }
                                }
                            },
                        }
                    },
                    _ => {},
                }
            }
        },
    }
}

/// The same of the values of a text, no table being open between them.
pub proof fn lemma_values_within_depth(s: Seq<u8>, pos: nat, values: Seq<Value>)
    requires
        deepest(s, pos, 0) <= MAX_DEPTH,
    ensures
        parse_values(s, pos, values) != refused::<Seq<Value>>(),
    decreases left(s.len(), pos),
{
    match token_at(s, pos) {
        None => {},
        Some(token) => {
            lemma_body_within_depth(s, token, pos, MAX_DEPTH as nat, 0);
            match parse_body(s, token, pos + 2, MAX_DEPTH as nat) {
                Ok((found, read)) => {
                    lemma_values_within_depth(
                        s,
                        pos + 2 + read,
                        match found {
                            Some(value) => values.push(value),
                            None => values,
                        },
                    );
                },
                Err(_) => {},
            }
        },
    }
}

/// A text in which never more tables are open at once than the format
/// allows is not refused for its depth, whatever its tables hold.
pub proof fn lemma_depth_within_limit_is_accepted(s: Seq<u8>)
    requires
        deepest(s, 0, 0) <= MAX_DEPTH,
    ensures
        deserialize_spec(s) != refused::<Seq<Value>>(),
        deserialize_first_spec(s) != refused::<Option<Value>>(),
{
    if token_at(s, 0) == Some(0x31u8) {
        assert(deepest(s, 0, 0) == deepest(s, 2, 0));
        lemma_values_within_depth(s, 2, Seq::empty());
        match token_at(s, 2) {
            None => {},
            Some(token) => {
                lemma_body_within_depth(s, token, 2, MAX_DEPTH as nat, 0);
            },
        }
    }
}

/// The limit of the depth does nothing but refuse: what follows a token is
/// read under a limit as it is read under any greater one, unless it is
/// refused for its depth.
pub proof fn lemma_limit_only_refuses(s: Seq<u8>, token: u8, pos: nat, limit: nat, greater: nat)
    requires
        limit <= greater,
    ensures
        parse_body(s, token, pos, limit) == parse_body(s, token, pos, greater) || parse_body(
            s,
            token,
            pos,
            limit,
        ) == refused::<(Option<Value>, nat)>(),
    decreases limit, left(s.len(), pos), 0nat,
{
    if token == 0x54 && limit > 0 {
        lemma_limit_only_refuses_pairs(
            s,
            pos,
            (limit - 1) as nat,
            (greater - 1) as nat,
            Seq::empty(),
        );
    }
}

/// The same of the pairs of a table.
pub proof fn lemma_limit_only_refuses_pairs(
    s: Seq<u8>,
    pos: nat,
    limit: nat,
    greater: nat,
    pairs: Seq<(Value, Value)>,
)
    requires
        limit <= greater,
    ensures
        parse_pairs(s, pos, limit, pairs) == parse_pairs(s, pos, greater, pairs) || parse_pairs(
            s,
            pos,
            limit,
            pairs,
        ) == refused::<(Seq<(Value, Value)>, nat)>(),
    decreases limit, left(s.len(), pos), 1nat,
{
    match token_at(s, pos) {
        None => {},
        Some(token) => {
            if token != 0x74 {
                lemma_limit_only_refuses(s, token, pos + 2, limit, greater);
                match parse_body(s, token, pos + 2, limit) {
                    Ok((Some(key), read)) => {
                        let second_at = pos + 2 + read;
                        match token_at(s, second_at) {
                            None => {},
                            Some(second) => {
                                if key != Value::Null && second != 0x74 {
                                    lemma_limit_only_refuses(
                                        s,
                                        second,
                                        second_at + 2,
                                        limit,
                                        greater,
                                    );
                                    match parse_body(s, second, second_at + 2, limit) {
                                        Ok((Some(value), more)) => {
                                            lemma_limit_only_refuses_pairs(
                                                s,
                                                second_at + 2 + more,
                                                limit,
                                                greater,
                                                put(pairs, key, value),
                                            );
                                        },
                                        _ => {},
                                    }
                                }
                            },
                        }
                    },
                    _ => {},
                }
            }
        },
    }
}

/// In a text in which never more tables are open at once than the format
/// allows, the limit of the depth plays no part: every value of it is read
/// as it would be read under any greater limit.
pub proof fn lemma_depth_plays_no_part(s: Seq<u8>, pos: nat, greater: nat)
    requires
        deepest(s, pos, 0) <= MAX_DEPTH <= greater,
    ensures
        parse_value(s, pos, MAX_DEPTH as nat) == parse_value(s, pos, greater),
{
    match token_at(s, pos) {
        None => {},
        Some(token) => {
            lemma_body_within_depth(s, token, pos, MAX_DEPTH as nat, 0);
            lemma_limit_only_refuses(s, token, pos + 2, MAX_DEPTH as nat, greater);
        },
    }
}

} // verus!
