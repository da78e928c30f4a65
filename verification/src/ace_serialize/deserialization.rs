//! The reader of the legacy text format.

use crate::ace_serialize::reader::StrReader;
use crate::ace_serialize::{
    deserialize_first_spec, deserialize_spec, parse_body, parse_pairs, parse_scaled, parse_value,
    parse_values, token_at, CONTROL, MAX_DEPTH,
};
use crate::error::CodecError;
use crate::lib_serialize::deserialization::later;
use crate::number::{deserialize_number, is_number};
use crate::value::{
    insert, lemma_model_of_table, models_of, pairs_of, put, LuaMapKey, LuaNumber, LuaValue, Value,
};
use vstd::prelude::*;
use vstd::slice::slice_to_vec;
use vstd::string::StringSliceAdditionalSpecFns;

verus! {

/// The model of a value that may be missing.
pub open spec fn found_model(found: Option<LuaValue>) -> Option<Value> {
    match found {
        Some(value) => Some(value@),
        None => None,
    }
}

/// Reads a mantissa and the exponent that must follow it, as `parse_scaled`
/// says.
fn read_scaled(reader: &mut StrReader<'_>) -> (r: Result<Option<LuaValue>, CodecError>)
    requires
        old(reader).wf(),
    ensures
        final(reader).wf(),
        final(reader).slice == old(reader).slice,
        match parse_scaled(old(reader).slice@, old(reader).index as nat) {
            Ok((found, read)) => r is Ok && found_model(r.unwrap()) == found && final(reader).index
                == old(reader).index + read,
            Err(e) => r == Err::<Option<LuaValue>, CodecError>(e),
        },
{
    let mantissa: &[u8] = reader.read_until_next();
    if !is_number(mantissa) {
        return Err(CodecError::InvalidNumber);
    }
    let token: u8 = match reader.read_identifier() {
        Err(e) => {
            return Err(e);
        },
        Ok(token) => token,
    };
    if token != 0x66 {
        return Err(CodecError::MissingExponent);
    }
    let exponent: &[u8] = reader.read_until_next();
    if !is_number(exponent) {
        return Err(CodecError::InvalidNumber);
    }
    Ok(Some(LuaValue::Number(LuaNumber::Scaled(slice_to_vec(mantissa), slice_to_vec(exponent)))))
}

/// Reads a control token and what follows it, as `parse_value` says: the
/// value, or none for the end marker.
fn deserialize_helper(reader: &mut StrReader<'_>, limit: usize) -> (r: Result<
    Option<LuaValue>,
    CodecError,
>)
    requires
        old(reader).wf(),
    ensures
        final(reader).wf(),
        final(reader).slice == old(reader).slice,
        match parse_value(old(reader).slice@, old(reader).index as nat, limit as nat) {
            Ok((found, read)) => r is Ok && found_model(r.unwrap()) == found && final(reader).index
                == old(reader).index + read,
            Err(e) => r == Err::<Option<LuaValue>, CodecError>(e),
        },
    decreases limit, 0nat,
{
    let token: u8 = match reader.read_identifier() {
        Err(e) => {
            return Err(e);
        },
        Ok(token) => token,
    };
    if token == CONTROL {
        Ok(None)
    } else if token == 0x5a {
        Ok(Some(LuaValue::Null))
    } else if token == 0x42 {
        Ok(Some(LuaValue::Boolean(true)))
    } else if token == 0x62 {
        Ok(Some(LuaValue::Boolean(false)))
    } else if token == 0x53 {
        match reader.parse_str() {
            Err(e) => Err(e),
            Ok(text) => Ok(Some(LuaValue::String(text))),
        }
    } else if token == 0x4e {
        let text: &[u8] = reader.read_until_next();
        match deserialize_number(text) {
            Err(e) => Err(e),
            Ok(number) => Ok(Some(LuaValue::Number(number))),
        }
    } else if token == 0x46 {
        read_scaled(reader)
    } else if token == 0x54 {
        if limit == 0 {
            return Err(CodecError::RecursionLimitExceeded);
        }
        match read_pairs(reader, limit - 1) {
            Err(e) => Err(e),
            Ok(entries) => {
                proof {
                    lemma_model_of_table(entries);
                }
                Ok(Some(LuaValue::Table(entries)))
            },
        }
    } else {
        Err(CodecError::InvalidIdentifier)
    }
}

/// One more pair read: reading on behind it gives what reading from this
/// pair on gives.
pub proof fn lemma_pair_read(s: Seq<u8>, pos: nat, limit: nat, pairs: Seq<(Value, Value)>)
    requires
        token_at(s, pos) is Some,
        token_at(s, pos) != Some(0x74u8),
        parse_value(s, pos, limit) is Ok,
        parse_value(s, pos, limit).unwrap().0 is Some,
        parse_value(s, pos, limit).unwrap().0 != Some(Value::Null),
        token_at(s, pos + parse_value(s, pos, limit).unwrap().1) is Some,
        token_at(s, pos + parse_value(s, pos, limit).unwrap().1) != Some(0x74u8),
        parse_value(s, pos + parse_value(s, pos, limit).unwrap().1, limit) is Ok,
        parse_value(s, pos + parse_value(s, pos, limit).unwrap().1, limit).unwrap().0 is Some,
    ensures
        ({
            let (key, read) = parse_value(s, pos, limit).unwrap();
            let (value, more) = parse_value(s, pos + read, limit).unwrap();
            parse_pairs(s, pos, limit, pairs) == later(
                parse_pairs(s, pos + read + more, limit, put(pairs, key.unwrap(), value.unwrap())),
                read + more,
            )
        }),
{
    let (key, read) = parse_value(s, pos, limit).unwrap();
    let (value, more) = parse_value(s, pos + read, limit).unwrap();
    let first = token_at(s, pos).unwrap();
    let body = parse_body(s, first, pos + 2, limit).unwrap();
    assert(read == 2 + body.1);
    let second = token_at(s, pos + 2 + body.1).unwrap();
    let other = parse_body(s, second, pos + 2 + body.1 + 2, limit).unwrap();
    assert(more == 2 + other.1);
    assert(pos + 2 + body.1 + 2 + other.1 == pos + read + more);
}

/// Reads the pairs of a table up to and with its `^t`, as `parse_pairs` says
/// of a table without pairs read before.
fn read_pairs(reader: &mut StrReader<'_>, limit: usize) -> (r: Result<
    Vec<(LuaMapKey, LuaValue)>,
    CodecError,
>)
    requires
        old(reader).wf(),
    ensures
        final(reader).wf(),
        final(reader).slice == old(reader).slice,
        match parse_pairs(
            old(reader).slice@,
            old(reader).index as nat,
            limit as nat,
            Seq::empty(),
        ) {
            Ok((pairs, read)) => r is Ok && pairs_of(r.unwrap()@) == pairs && final(reader).index
                == old(reader).index + read,
            Err(e) => r == Err::<Vec<(LuaMapKey, LuaValue)>, CodecError>(e),
        },
    decreases limit, 1nat,
{
    let mut entries: Vec<(LuaMapKey, LuaValue)> = Vec::new();
    let ghost s = reader.slice@;
    let ghost start = reader.index as nat;
    assert(pairs_of(entries@) =~= Seq::<(Value, Value)>::empty());
    loop
        invariant
            reader.wf(),
            reader.slice == old(reader).slice,
            s == reader.slice@,
            start == old(reader).index,
            start <= reader.index,
            parse_pairs(s, start, limit as nat, Seq::empty()) == later(
                parse_pairs(s, reader.index as nat, limit as nat, pairs_of(entries@)),
                (reader.index - start) as nat,
            ),
        decreases reader.slice@.len() - reader.index,
    {
        let ghost at = reader.index as nat;
        let token: u8 = match reader.peek_identifier() {
            Err(e) => {
                return Err(e);
            },
            Ok(token) => token,
        };
        if token == 0x74 {
            let _ = reader.read_identifier();
            return Ok(entries);
        }
        let key: LuaValue = match deserialize_helper(reader, limit) {
            Err(e) => {
                return Err(e);
            },
            Ok(None) => {
                return Err(CodecError::MissingKey);
            },
            Ok(Some(key)) => key,
        };
        let key: LuaMapKey = match LuaMapKey::from_value(key) {
            Err(e) => {
                return Err(e);
            },
            Ok(key) => key,
        };
        let second: u8 = match reader.peek_identifier() {
            Err(e) => {
                return Err(e);
            },
            Ok(second) => second,
        };
        if second == 0x74 {
            return Err(CodecError::UnexpectedEndOfTable);
        }
        let value: LuaValue = match deserialize_helper(reader, limit) {
            Err(e) => {
                return Err(e);
            },
            Ok(None) => {
                return Err(CodecError::MissingValue);
            },
            Ok(Some(value)) => value,
        };
        proof {
            lemma_pair_read(s, at, limit as nat, pairs_of(entries@));
        }
        insert(&mut entries, key, value);
    }
}

/// Reads values in the legacy text format.
pub struct Deserializer<'s> {
    remaining_depth: usize,
    reader: StrReader<'s>,
}

impl<'s> Deserializer<'s> {
    /// A reader starts at the start of its text with the whole depth before
    /// it.
    #[verifier::type_invariant]
    spec fn fresh(self) -> bool {
        self.remaining_depth == MAX_DEPTH && self.reader.index == 0
    }

    /// The text that the reader was made for, as bytes.
    pub closed spec fn input(self) -> Seq<u8> {
        self.reader.slice@
    }

    /// A reader of the given text.
    pub fn from_str(slice: &'s str) -> (reader: Self)
        ensures
            reader.input() == slice.spec_bytes(),
    {
        Deserializer { remaining_depth: MAX_DEPTH, reader: StrReader::new(slice) }
    }

    /// A reader of text that is given as bytes. The bytes need not be UTF-8:
    /// the format is made of ASCII, and what else there is stands in strings.
    pub fn from_slice(slice: &'s [u8]) -> (reader: Self)
        ensures
            reader.input() == slice@,
    {
        Deserializer { remaining_depth: MAX_DEPTH, reader: StrReader { slice, index: 0 } }
    }

    /// Reads the text of a number token: the bit pattern of a special
    /// number, or the text itself if it spells a number, or else
    /// `InvalidNumber`.
    pub fn deserialize_number(data: &str) -> (r: Result<LuaNumber, CodecError>)
        ensures
            match crate::number::number_of_text(data.spec_bytes()) {
                Ok(number) => r is Ok && r.unwrap()@ == number,
                Err(e) => r == Err::<LuaNumber, CodecError>(e),
            },
    {
        deserialize_number(data.as_bytes())
    }

    /// All the values of the text, in their order.
    pub fn deserialize(self) -> (r: Result<Vec<LuaValue>, CodecError>)
        ensures
            match deserialize_spec(self.input()) {
                Ok(values) => r is Ok && models_of(r.unwrap()@) == values,
                Err(e) => r == Err::<Vec<LuaValue>, CodecError>(e),
            },
    {
        proof {
            use_type_invariant(&self);
        }
        let limit: usize = self.remaining_depth;
        let mut reader: StrReader<'s> = self.reader;
        let ghost s = reader.slice@;
        match reader.read_identifier() {
            Err(e) => {
                return Err(e);
            },
            Ok(token) => {
                if token != 0x31 {
                    return Err(CodecError::InvalidIdentifier);
                }
            },
        }
        let mut values: Vec<LuaValue> = Vec::new();
        assert(models_of(values@) =~= Seq::<Value>::empty());
        while reader.peek_identifier().is_ok()
            invariant
                reader.wf(),
                limit == MAX_DEPTH,
                s == reader.slice@,
                s == self.input(),
                token_at(s, 0) == Some(0x31u8),
                parse_values(s, reader.index as nat, models_of(values@)) == parse_values(
                    s,
                    2,
                    Seq::empty(),
                ),
            decreases reader.slice@.len() - reader.index,
        {
            let ghost before = models_of(values@);
            match deserialize_helper(&mut reader, limit) {
                Err(e) => {
                    return Err(e);
                },
                Ok(Some(value)) => {
                    values.push(value);
                    assert(models_of(values@) =~= before.push(value@));
                },
                Ok(None) => {},
            }
        }
        Ok(values)
    }

    /// The first value of the text: what follows the token behind the header,
    /// which is none if that token is the end marker.
    pub fn deserialize_first(self) -> (r: Result<Option<LuaValue>, CodecError>)
        ensures
            match deserialize_first_spec(self.input()) {
                Ok(found) => r is Ok && found_model(r.unwrap()) == found,
                Err(e) => r == Err::<Option<LuaValue>, CodecError>(e),
            },
    {
        proof {
            use_type_invariant(&self);
        }
        let limit: usize = self.remaining_depth;
        let mut reader: StrReader<'s> = self.reader;
        match reader.read_identifier() {
            Err(e) => {
                return Err(e);
            },
            Ok(token) => {
                if token != 0x31 {
                    return Err(CodecError::InvalidIdentifier);
                }
            },
        }
        deserialize_helper(&mut reader, limit)
    }
}

} // verus!
