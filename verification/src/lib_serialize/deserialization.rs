//! The reader of the binary tag format.

use crate::error::CodecError;
use crate::lib_serialize::{
    deserialize_first_spec, deserialize_spec, parse_body, parse_pairs, parse_sized, parse_value,
    parse_values, read_be32, read_be64, MAX_DEPTH, REVISION, TAG_BITS, TAG_DECIMAL, TAG_FALSE,
    TAG_NULL, TAG_SCALED, TAG_STRING, TAG_TABLE, TAG_TRUE,
};
use crate::number::is_number;
use crate::value::{
    insert, lemma_model_of_table, models_of, pairs_of, LuaMapKey, LuaNumber, LuaValue, Value,
};
use vstd::prelude::*;
use vstd::slice::{slice_subrange, slice_to_vec};

verus! {

/// The length that the four bytes from `pos` on hold.
fn load_be32(bytes: &[u8], pos: usize) -> (n: usize)
    requires
        pos + 4 <= bytes.len(),
    ensures
        n == read_be32(bytes@, pos as int),
        n <= 0xffff_ffff,
{
    let n: u32 = (bytes[pos] as u32) * 0x100_0000 + (bytes[pos + 1] as u32) * 0x1_0000 + (bytes[pos
        + 2] as u32) * 0x100 + bytes[pos + 3] as u32;
    n as usize
}

/// The bit pattern that the eight bytes from `pos` on hold.
fn load_be64(bytes: &[u8], pos: usize) -> (n: u64)
    requires
        pos + 8 <= bytes.len(),
    ensures
        n == read_be64(bytes@, pos as int),
{
    let high: usize = load_be32(bytes, pos);
    let low: usize = load_be32(bytes, pos + 4);
    (high as u64) * 0x1_0000_0000 + low as u64
}

/// Reads sized bytes at `pos`, as `parse_sized` says.
fn read_sized(bytes: &[u8], pos: usize) -> (r: Result<(Vec<u8>, usize), CodecError>)
    requires
        pos <= bytes.len(),
    ensures
        match parse_sized(bytes@, pos as nat) {
            Ok((text, read)) => r is Ok && r.unwrap().0@ == text && r.unwrap().1 == read && pos
                + read <= bytes.len(),
            Err(e) => r == Err::<(Vec<u8>, usize), CodecError>(e),
        },
{
    if bytes.len() - pos < 4 {
        return Err(CodecError::UnexpectedEndOfInput);
    }
    let len: usize = load_be32(bytes, pos);
    if len > bytes.len() - pos - 4 {
        return Err(CodecError::UnexpectedEndOfInput);
    }
    let text: Vec<u8> = slice_to_vec(slice_subrange(bytes, pos + 4, pos + 4 + len));
    Ok((text, 4 + len))
}

/// A result with its count of bytes read raised by what was read before.
pub open spec fn later<T>(r: Result<(T, nat), CodecError>, by: nat) -> Result<(T, nat), CodecError> {
    match r {
        Err(e) => Err(e),
        Ok((value, read)) => Ok((value, by + read)),
    }
}

/// Reads what follows the tag of a value, as `parse_body` says.
fn read_body(bytes: &[u8], tag: u8, pos: usize, limit: usize) -> (r: Result<
    (LuaValue, usize),
    CodecError,
>)
    requires
        pos <= bytes.len(),
    ensures
        match parse_body(bytes@, tag, pos as nat, limit as nat) {
            Ok((value, read)) => r is Ok && r.unwrap().0@ == value && r.unwrap().1 == read && pos
                + read <= bytes.len(),
            Err(e) => r == Err::<(LuaValue, usize), CodecError>(e),
        },
    decreases limit, 0nat,
{
    if tag == TAG_NULL {
        Ok((LuaValue::Null, 0))
    } else if tag == TAG_FALSE {
        Ok((LuaValue::Boolean(false), 0))
    } else if tag == TAG_TRUE {
        Ok((LuaValue::Boolean(true), 0))
    } else if tag == TAG_BITS {
        if bytes.len() - pos < 8 {
            return Err(CodecError::UnexpectedEndOfInput);
        }
        Ok((LuaValue::Number(LuaNumber::Bits(load_be64(bytes, pos))), 8))
    } else if tag == TAG_DECIMAL {
        match read_sized(bytes, pos) {
            Err(e) => Err(e),
            Ok((text, read)) => {
                if is_number(text.as_slice()) {
                    Ok((LuaValue::Number(LuaNumber::Decimal(text)), read))
                } else {
                    Err(CodecError::InvalidNumber)
                }
            },
        }
    } else if tag == TAG_SCALED {
        match read_sized(bytes, pos) {
            Err(e) => Err(e),
            Ok((mantissa, read)) => {
                if !is_number(mantissa.as_slice()) {
                    return Err(CodecError::InvalidNumber);
                }
                match read_sized(bytes, pos + read) {
                    Err(e) => Err(e),
                    Ok((exponent, more)) => {
                        if is_number(exponent.as_slice()) {
                            Ok(
                                (
                                    LuaValue::Number(LuaNumber::Scaled(mantissa, exponent)),
                                    read + more,
                                ),
                            )
                        } else {
                            Err(CodecError::InvalidNumber)
                        }
                    },
                }
            },
        }
    } else if tag == TAG_STRING {
        match read_sized(bytes, pos) {
            Err(e) => Err(e),
            Ok((text, read)) => Ok((LuaValue::String(text), read)),
        }
    } else if tag == TAG_TABLE {
        if limit == 0 {
            return Err(CodecError::RecursionLimitExceeded);
        }
        if bytes.len() - pos < 4 {
            return Err(CodecError::UnexpectedEndOfInput);
        }
        let count: usize = load_be32(bytes, pos);
        match read_pairs(bytes, pos + 4, count, limit - 1) {
            Err(e) => Err(e),
            Ok((entries, read)) => {
                proof {
                    lemma_model_of_table(entries);
                }
                Ok((LuaValue::Table(entries), 4 + read))
            },
        }
    } else {
        Err(CodecError::InvalidIdentifier)
    }
}

/// Reads a value at `pos`, as `parse_value` says.
fn read_value(bytes: &[u8], pos: usize, limit: usize) -> (r: Result<(LuaValue, usize), CodecError>)
    requires
        pos <= bytes.len(),
    ensures
        match parse_value(bytes@, pos as nat, limit as nat) {
            Ok((value, read)) => r is Ok && r.unwrap().0@ == value && r.unwrap().1 == read && pos
                + read <= bytes.len(),
            Err(e) => r == Err::<(LuaValue, usize), CodecError>(e),
        },
    decreases limit, 1nat,
{
    if pos >= bytes.len() {
        return Err(CodecError::UnexpectedEndOfInput);
    }
    match read_body(bytes, bytes[pos], pos + 1, limit) {
        Err(e) => Err(e),
        Ok((value, read)) => Ok((value, 1 + read)),
    }
}

/// One more pair read: reading on behind it gives what reading from this
/// pair on gives.
proof fn lemma_pair_read(
    bytes: Seq<u8>,
    pos: nat,
    count: nat,
    limit: nat,
    pairs: Seq<(Value, Value)>,
)
    requires
        count > 0,
        parse_value(bytes, pos, limit) is Ok,
        parse_value(bytes, pos, limit).unwrap().0 != Value::Null,
        parse_value(bytes, pos + parse_value(bytes, pos, limit).unwrap().1, limit) is Ok,
    ensures
        ({
            let (key, read) = parse_value(bytes, pos, limit).unwrap();
            let (value, more) = parse_value(bytes, pos + read, limit).unwrap();
            parse_pairs(bytes, pos, count, limit, pairs) == later(
                parse_pairs(
                    bytes,
                    pos + read + more,
                    (count - 1) as nat,
                    limit,
                    crate::value::put(pairs, key, value),
                ),
                read + more,
            )
        }),
{
}

/// Reads `count` pairs at `pos`, as `parse_pairs` says of a table without
/// pairs read before.
fn read_pairs(bytes: &[u8], pos: usize, count: usize, limit: usize) -> (r: Result<
    (Vec<(LuaMapKey, LuaValue)>, usize),
    CodecError,
>)
    requires
        pos <= bytes.len(),
    ensures
        match parse_pairs(bytes@, pos as nat, count as nat, limit as nat, Seq::empty()) {
            Ok((pairs, read)) => r is Ok && pairs_of(r.unwrap().0@) == pairs && r.unwrap().1
                == read && pos + read <= bytes.len(),
            Err(e) => r == Err::<(Vec<(LuaMapKey, LuaValue)>, usize), CodecError>(e),
        },
    decreases limit, count + 2,
{
    let mut entries: Vec<(LuaMapKey, LuaValue)> = Vec::new();
    let mut at: usize = pos;
    let mut left: usize = count;
    assert(pairs_of(entries@) =~= Seq::<(Value, Value)>::empty());
    while left > 0
        invariant
            pos <= at <= bytes.len(),
            left <= count,
            parse_pairs(bytes@, pos as nat, count as nat, limit as nat, Seq::empty()) == later(
                parse_pairs(bytes@, at as nat, left as nat, limit as nat, pairs_of(entries@)),
                (at - pos) as nat,
            ),
        decreases left,
    {
        let (key, read) = match read_value(bytes, at, limit) {
            Err(e) => {
                return Err(e);
            },
            Ok(found) => found,
        };
        let key: LuaMapKey = match LuaMapKey::from_value(key) {
            Err(e) => {
                return Err(e);
            },
            Ok(key) => key,
        };
        let (value, more) = match read_value(bytes, at + read, limit) {
            Err(e) => {
                return Err(e);
            },
            Ok(found) => found,
        };
        proof {
            lemma_pair_read(bytes@, at as nat, left as nat, limit as nat, pairs_of(entries@));
        }
        insert(&mut entries, key, value);
        at = at + read + more;
        left = left - 1;
    }
    Ok((entries, at - pos))
}

/// Reads values in the binary tag format.
pub struct Deserializer<'s> {
    remaining_depth: usize,
    slice: &'s [u8],
}

impl<'s> Deserializer<'s> {
    /// A reader starts with the whole depth before it.
    #[verifier::type_invariant]
    spec fn fresh(self) -> bool {
        self.remaining_depth == MAX_DEPTH
    }

    /// The stream that the reader was made for.
    pub closed spec fn input(self) -> Seq<u8> {
        self.slice@
    }

    /// A reader of the given stream.
    pub fn from_slice(slice: &'s [u8]) -> (reader: Self)
        ensures
            reader.input() == slice@,
    {
        Deserializer { remaining_depth: MAX_DEPTH, slice }
    }

    /// All the values of the stream, in their order.
    pub fn deserialize(self) -> (r: Result<Vec<LuaValue>, CodecError>)
        ensures
            match deserialize_spec(self.input()) {
                Ok(values) => r is Ok && models_of(r.unwrap()@) == values,
                Err(e) => r == Err::<Vec<LuaValue>, CodecError>(e),
            },
    {
        proof {
            use_type_invariant(&self);
        }
        let bytes: &[u8] = self.slice;
        let limit: usize = self.remaining_depth;
        if bytes.len() == 0 || bytes[0] != REVISION {
            return Err(CodecError::InvalidIdentifier);
        }
        let mut values: Vec<LuaValue> = Vec::new();
        let mut pos: usize = 1;
        assert(models_of(values@) =~= Seq::<Value>::empty());
        while pos < bytes.len()
            invariant
                pos <= bytes.len(),
                limit == MAX_DEPTH,
                bytes@ == self.input(),
                bytes@.len() > 0 && bytes@[0] == REVISION,
                parse_values(bytes@, pos as nat, models_of(values@)) == parse_values(
                    bytes@,
                    1,
                    Seq::empty(),
                ),
            decreases bytes.len() - pos,
        {
            match read_body(bytes, bytes[pos], pos + 1, limit) {
                Err(e) => {
                    return Err(e);
                },
                Ok((value, read)) => {
                    let ghost before = models_of(values@);
                    values.push(value);
                    assert(models_of(values@) =~= before.push(value@));
                    pos = pos + 1 + read;
                },
            }
        }
        Ok(values)
    }

    /// The first value of the stream, if it holds one.
    pub fn deserialize_first(self) -> (r: Result<Option<LuaValue>, CodecError>)
        ensures
            match deserialize_first_spec(self.input()) {
                Ok(Some(value)) => r is Ok && r.unwrap() is Some && r.unwrap().unwrap()@ == value,
                Ok(None) => r is Ok && r.unwrap() is None,
                Err(e) => r == Err::<Option<LuaValue>, CodecError>(e),
            },
    {
        proof {
            use_type_invariant(&self);
        }
        let bytes: &[u8] = self.slice;
        if bytes.len() == 0 || bytes[0] != REVISION {
            return Err(CodecError::InvalidIdentifier);
        }
        if bytes.len() == 1 {
            return Ok(None);
        }
        match read_value(bytes, 1, self.remaining_depth) {
            Err(e) => Err(e),
            Ok((value, _)) => Ok(Some(value)),
        }
    }
}

} // verus!
