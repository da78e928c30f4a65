//! The writer of the binary tag format.

use crate::error::CodecError;
use crate::lib_serialize::{
    be32, be64, serialize_number, serialize_pairs, serialize_spec, serialize_value, sized,
    sized_number, then,
    MAX_DEPTH, MAX_LENGTH, REVISION, TAG_BITS, TAG_DECIMAL, TAG_FALSE, TAG_NULL, TAG_SCALED,
    TAG_STRING, TAG_TABLE, TAG_TRUE,
};
use crate::number::is_number;
use crate::value::{lemma_model_of_table, pairs_of, LuaMapKey, LuaNumber, LuaValue, Value};
use vstd::prelude::*;

verus! {

/// Appends a length in four bytes, the highest first.
fn write_be32(out: &mut Vec<u8>, n: usize)
    requires
        n <= MAX_LENGTH,
    ensures
        final(out)@ == old(out)@ + be32(n as nat),
{
    out.push((n / 0x100_0000 % 256) as u8);
    out.push((n / 0x1_0000 % 256) as u8);
    out.push((n / 0x100 % 256) as u8);
    out.push((n % 256) as u8);
    assert(out@ =~= old(out)@ + be32(n as nat));
}

/// Appends a bit pattern in eight bytes, the highest first.
fn write_be64(out: &mut Vec<u8>, n: u64)
    ensures
        final(out)@ == old(out)@ + be64(n),
{
    write_be32(out, (n / 0x1_0000_0000) as usize);
    write_be32(out, (n % 0x1_0000_0000) as usize);
    assert(out@ =~= old(out)@ + be64(n));
}

/// Appends sized bytes, unless they are too many to be sized.
fn write_sized(out: &mut Vec<u8>, text: &[u8]) -> (r: Result<(), CodecError>)
    ensures
        match sized(text@) {
            Ok(bytes) => r is Ok && final(out)@ == old(out)@ + bytes,
            Err(e) => r == Err::<(), CodecError>(e) && final(out)@ == old(out)@,
        },
{
    if text.len() > MAX_LENGTH {
        return Err(CodecError::InvalidLength);
    }
    write_be32(out, text.len());
    out.extend_from_slice(text);
    assert(out@ =~= old(out)@ + (be32(text@.len()) + text@));
    Ok(())
}

/// Appends the sized text of a number, unless it is too long to be sized or
/// spells no number.
fn write_sized_number(out: &mut Vec<u8>, text: &[u8]) -> (r: Result<(), CodecError>)
    ensures
        match sized_number(text@) {
            Ok(bytes) => r is Ok && final(out)@ == old(out)@ + bytes,
            Err(e) => r == Err::<(), CodecError>(e) && final(out)@ == old(out)@,
        },
{
    if text.len() > MAX_LENGTH {
        return Err(CodecError::InvalidLength);
    }
    if !is_number(text) {
        return Err(CodecError::InvalidNumber);
    }
    write_sized(out, text)
}

/// Appends the bytes of a number, as `serialize_number` says.
fn write_number(out: &mut Vec<u8>, number: &LuaNumber) -> (r: Result<(), CodecError>)
    ensures
        match serialize_number(number@) {
            Ok(bytes) => r is Ok && final(out)@ == old(out)@ + bytes,
            Err(e) => r == Err::<(), CodecError>(e),
        },
{
    match number {
        LuaNumber::Bits(bits) => {
            out.push(TAG_BITS);
            write_be64(out, *bits);
            assert(out@ =~= old(out)@ + (seq![TAG_BITS] + be64(*bits)));
            Ok(())
        },
        LuaNumber::Decimal(text) => {
            out.push(TAG_DECIMAL);
            match write_sized_number(out, text.as_slice()) {
                Err(e) => Err(e),
                Ok(()) => {
                    assert(out@ =~= old(out)@ + (seq![TAG_DECIMAL] + sized_number(text@).unwrap()));
                    Ok(())
                },
            }
        },
        LuaNumber::Scaled(mantissa, exponent) => {
            out.push(TAG_SCALED);
            match write_sized_number(out, mantissa.as_slice()) {
                Err(e) => {
                    return Err(e);
                },
                Ok(()) => {},
            }
            match write_sized_number(out, exponent.as_slice()) {
                Err(e) => Err(e),
                Ok(()) => {
                    assert(out@ =~= old(out)@ + ((seq![TAG_SCALED] + sized_number(
                        mantissa@,
                    ).unwrap()) + sized_number(exponent@).unwrap()));
                    Ok(())
                },
            }
        },
    }
}

/// Appends the bytes of a value, as `serialize_value` says.
fn write_value(out: &mut Vec<u8>, value: &LuaValue, limit: usize) -> (r: Result<(), CodecError>)
    ensures
        match serialize_value(value@, limit as nat) {
            Ok(bytes) => r is Ok && final(out)@ == old(out)@ + bytes,
            Err(e) => r == Err::<(), CodecError>(e),
        },
    decreases *value,
{
    match value {
        LuaValue::Null => {
            out.push(TAG_NULL);
            assert(out@ =~= old(out)@ + seq![TAG_NULL]);
            Ok(())
        },
        LuaValue::Boolean(b) => {
            let tag: u8 = if *b {
                TAG_TRUE
            } else {
                TAG_FALSE
            };
            out.push(tag);
            assert(out@ =~= old(out)@ + seq![tag]);
            Ok(())
        },
        LuaValue::Number(number) => write_number(out, number),
        LuaValue::String(text) => {
            out.push(TAG_STRING);
            match write_sized(out, text.as_slice()) {
                Err(e) => Err(e),
                Ok(()) => {
                    assert(out@ =~= old(out)@ + (seq![TAG_STRING] + sized(text@).unwrap()));
                    Ok(())
                },
            }
        },
        LuaValue::Table(entries) => {
            proof {
                lemma_model_of_table(*entries);
            }
            if limit == 0 {
                return Err(CodecError::RecursionLimitExceeded);
            }
            if entries.len() > MAX_LENGTH {
                return Err(CodecError::InvalidLength);
            }
            out.push(TAG_TABLE);
            write_be32(out, entries.len());
            let ghost head = out@;
            assert(head =~= old(out)@ + (seq![TAG_TABLE] + be32(entries@.len())));
            match write_pairs(out, entries, limit - 1) {
                Err(e) => Err(e),
                Ok(()) => {
                    assert(out@ =~= old(out)@ + ((seq![TAG_TABLE] + be32(entries@.len()))
                        + serialize_pairs(pairs_of(entries@), 0, (limit - 1) as nat).unwrap()));
                    Ok(())
                },
            }
        },
    }
}

/// One more pair written: what was written before, and then the pairs from
/// `from` on, is what is written with this pair, and then the pairs behind it.
proof fn lemma_pair_written(pairs: Seq<(Value, Value)>, from: nat, limit: nat, done: Seq<u8>)
    requires
        from < pairs.len(),
        pairs[from as int].0 != Value::Null,
        serialize_value(pairs[from as int].0, limit) is Ok,
        serialize_value(pairs[from as int].1, limit) is Ok,
    ensures
        then(Ok(done), serialize_pairs(pairs, from, limit)) == then(
            Ok(
                done + serialize_value(pairs[from as int].0, limit).unwrap() + serialize_value(
                    pairs[from as int].1,
                    limit,
                ).unwrap(),
            ),
            serialize_pairs(pairs, from + 1, limit),
        ),
{
    let key = serialize_value(pairs[from as int].0, limit).unwrap();
    let val = serialize_value(pairs[from as int].1, limit).unwrap();
    match serialize_pairs(pairs, from + 1, limit) {
        Ok(rest) => {
            assert(done + ((key + val) + rest) =~= done + key + val + rest);
        },
        Err(_) => {},
    }
}

/// Appends the bytes of the pairs of a table, as `serialize_pairs` says.
fn write_pairs(out: &mut Vec<u8>, entries: &Vec<(LuaMapKey, LuaValue)>, limit: usize) -> (r:
    Result<(), CodecError>)
    ensures
        match serialize_pairs(pairs_of(entries@), 0, limit as nat) {
            Ok(bytes) => r is Ok && final(out)@ == old(out)@ + bytes,
            Err(e) => r == Err::<(), CodecError>(e),
        },
    decreases *entries,
{
    let ghost pairs = pairs_of(entries@);
    let ghost head = out@;
    let mut i: usize = 0;
    assert(out@.skip(head.len() as int) =~= Seq::<u8>::empty());
    assert(Seq::<u8>::empty() + Seq::<u8>::empty() =~= Seq::<u8>::empty());
    while i < entries.len()
        invariant
            i <= entries.len(),
            pairs == pairs_of(entries@),
            head == old(out)@,
            head.len() <= out@.len(),
            out@.take(head.len() as int) == head,
            serialize_pairs(pairs, 0, limit as nat) == then(
                Ok(out@.skip(head.len() as int)),
                serialize_pairs(pairs, i as nat, limit as nat),
            ),
        decreases entries.len() - i,
    {
        let ghost before = out@;
        if let LuaValue::Null = entries[i].0.0 {
            return Err(CodecError::NullKeyNotAllowed);
        }
        match write_value(out, &entries[i].0.0, limit) {
            Err(e) => {
                return Err(e);
            },
            Ok(()) => {},
        }
        match write_value(out, &entries[i].1, limit) {
            Err(e) => {
                return Err(e);
            },
            Ok(()) => {},
        }
        proof {
            let key = serialize_value(pairs[i as int].0, limit as nat).unwrap();
            let val = serialize_value(pairs[i as int].1, limit as nat).unwrap();
            lemma_pair_written(pairs, i as nat, limit as nat, before.skip(head.len() as int));
            assert(out@.take(head.len() as int) =~= head);
            assert(out@.skip(head.len() as int) =~= before.skip(head.len() as int) + key + val);
        }
        i = i + 1;
    }
    proof {
        assert(out@ =~= head + out@.skip(head.len() as int));
        assert(out@.skip(head.len() as int) + Seq::<u8>::empty() =~= out@.skip(
            head.len() as int,
        ));
    }
    Ok(())
}

/// The most that a guess at the length makes the writer set aside before it
/// writes: 16 MiB.
pub const MAX_HINT: usize = 0x100_0000;

/// Writes values in the binary tag format.
pub struct Serializer {
    remaining_depth: usize,
    result: Vec<u8>,
}

impl Serializer {
    /// The stream of one value: the revision of the format and the bytes of
    /// the value. `approximate_len` is a guess at the length of the stream,
    /// for the buffer; it does not change the result, and a guess above
    /// `MAX_HINT` counts as `MAX_HINT`.
    ///
    /// A pair whose key stands in its table before is written like any other.
    pub fn serialize(value: &LuaValue, approximate_len: Option<usize>) -> (r: Result<
        Vec<u8>,
        CodecError,
    >)
        ensures
            match serialize_spec(value@) {
                Ok(bytes) => r is Ok && r.unwrap()@ == bytes,
                Err(e) => r == Err::<Vec<u8>, CodecError>(e),
            },
    {
        let capacity: usize = match approximate_len {
            Some(len) => if len <= MAX_HINT {
                len
            } else {
                MAX_HINT
            },
            None => 1024,
        };
        let mut serializer = Serializer {
            remaining_depth: MAX_DEPTH,
            result: Vec::with_capacity(capacity),
        };
        serializer.result.push(REVISION);
        match write_value(&mut serializer.result, value, serializer.remaining_depth) {
            Err(e) => Err(e),
            Ok(()) => {
                assert(serializer.result@ =~= seq![REVISION] + serialize_value(
                    value@,
                    MAX_DEPTH as nat,
                ).unwrap());
                Ok(serializer.result)
            },
        }
    }
}

} // verus!
