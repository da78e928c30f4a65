//! The writer of the legacy text format.

use crate::ace_serialize::{
    bits_text, decimal, escape, escape_byte, serialize_spec, signed, then, token, write_number,
    write_pairs, write_value, CONTROL, ESCAPE, MAX_DEPTH,
};
use crate::error::CodecError;
use crate::number::{is_number, VENDOR_IND, VENDOR_INF};
use crate::value::{lemma_model_of_table, pairs_of, LuaMapKey, LuaNumber, LuaValue, Value};
use vstd::prelude::*;

verus! {

/// Appends a control token.
fn push_token(out: &mut Vec<u8>, second: u8)
    ensures
        final(out)@ == old(out)@ + token(second),
{
    out.push(CONTROL);
    out.push(second);
    assert(out@ =~= old(out)@ + token(second));
}

/// Appends a string with its escapes.
fn push_escaped(out: &mut Vec<u8>, text: &[u8])
    ensures
        final(out)@ == old(out)@ + escape(text@, 0),
{
    let mut at: usize = 0;
    assert(out@ + escape(text@, 0) =~= old(out)@ + escape(text@, 0));
    while at < text.len()
        invariant
            at <= text.len(),
            out@ + escape(text@, at as nat) == old(out)@ + escape(text@, 0),
        decreases text.len() - at,
    {
        let b: u8 = text[at];
        let ghost before = out@;
        if b == 0x1e {
            out.push(ESCAPE);
            out.push(0x7a);
        } else if b <= 0x20 {
            out.push(ESCAPE);
            out.push(b + 0x40);
        } else if b == 0x5e {
            out.push(ESCAPE);
            out.push(0x7d);
        } else if b == 0x7e {
            out.push(ESCAPE);
            out.push(0x7c);
        } else if b == 0x7f {
            out.push(ESCAPE);
            out.push(0x7b);
        } else {
            out.push(b);
        }
        proof {
            assert(out@ =~= before + escape_byte(b));
            assert(before + (escape_byte(b) + escape(text@, (at + 1) as nat)) =~= before
                + escape_byte(b) + escape(text@, (at + 1) as nat));
        }
        at = at + 1;
    }
    assert(out@ + escape(text@, at as nat) =~= out@);
}

/// Appends the decimal digits of a number.
fn push_decimal(out: &mut Vec<u8>, n: u64)
    ensures
        final(out)@ == old(out)@ + decimal(n as nat),
    decreases n,
{
    if n >= 10 {
        push_decimal(out, n / 10);
    }
    out.push((n % 10) as u8 + 0x30);
    assert(out@ =~= old(out)@ + decimal(n as nat));
}

/// Appends a minus sign, if there is to be one, and the decimal digits of a
/// number.
fn push_signed(out: &mut Vec<u8>, negative: bool, n: u64)
    ensures
        final(out)@ == old(out)@ + signed(negative, decimal(n as nat)),
{
    if negative {
        out.push(0x2d);
    }
    push_decimal(out, n);
    assert(out@ =~= old(out)@ + signed(negative, decimal(n as nat)));
}

/// Appends a number that is held by its bit pattern, as `bits_text` says.
fn push_bits(out: &mut Vec<u8>, bits: u64)
    ensures
        final(out)@ == old(out)@ + bits_text(bits),
{
    let negative: bool = bits >= 0x8000_0000_0000_0000;
    let exponent: u64 = bits / 0x10_0000_0000_0000 % 2048;
    let fraction: u64 = bits % 0x10_0000_0000_0000;
    if exponent == 2047 {
        push_token(out, 0x4e);
        if negative {
            out.push(0x2d);
        }
        if fraction == 0 {
            out.extend_from_slice(VENDOR_INF.as_slice());
        } else {
            out.extend_from_slice(VENDOR_IND.as_slice());
        }
    } else if exponent == 0 && fraction == 0 {
        push_token(out, 0x4e);
        push_signed(out, negative, 0);
    } else if exponent == 0 {
        push_token(out, 0x46);
        push_signed(out, negative, fraction);
        push_token(out, 0x66);
        push_signed(out, true, 1074);
    } else {
        push_token(out, 0x46);
        push_signed(out, negative, 0x10_0000_0000_0000 + fraction);
        push_token(out, 0x66);
        if exponent < 1075 {
            push_signed(out, true, 1075 - exponent);
        } else {
            push_signed(out, false, exponent - 1075);
        }
    }
    assert(out@ =~= old(out)@ + bits_text(bits));
}

/// Appends a number, as `write_number` says.
fn push_number(out: &mut Vec<u8>, number: &LuaNumber) -> (r: Result<(), CodecError>)
    ensures
        match write_number(number@) {
            Ok(text) => r is Ok && final(out)@ == old(out)@ + text,
            Err(e) => r == Err::<(), CodecError>(e),
        },
{
    match number {
        LuaNumber::Bits(bits) => {
            push_bits(out, *bits);
            Ok(())
        },
        LuaNumber::Decimal(text) => {
            if !is_number(text.as_slice()) {
                return Err(CodecError::InvalidNumber);
            }
            push_token(out, 0x4e);
            out.extend_from_slice(text.as_slice());
            assert(out@ =~= old(out)@ + (token(0x4e) + text@));
            Ok(())
        },
        LuaNumber::Scaled(mantissa, exponent) => {
            if !is_number(mantissa.as_slice()) || !is_number(exponent.as_slice()) {
                return Err(CodecError::InvalidNumber);
            }
            push_token(out, 0x46);
            out.extend_from_slice(mantissa.as_slice());
            push_token(out, 0x66);
            out.extend_from_slice(exponent.as_slice());
            assert(out@ =~= old(out)@ + (token(0x46) + mantissa@ + token(0x66) + exponent@));
            Ok(())
        },
    }
}

/// Appends a value, as `write_value` says.
fn push_value(out: &mut Vec<u8>, value: &LuaValue, limit: usize) -> (r: Result<(), CodecError>)
    ensures
        match write_value(value@, limit as nat) {
            Ok(text) => r is Ok && final(out)@ == old(out)@ + text,
            Err(e) => r == Err::<(), CodecError>(e),
        },
    decreases *value,
{
    match value {
        LuaValue::Null => {
            push_token(out, 0x5a);
            Ok(())
        },
        LuaValue::Boolean(b) => {
            push_token(
                out,
                if *b {
                    0x42
                } else {
                    0x62
                },
            );
            Ok(())
        },
        LuaValue::Number(number) => push_number(out, number),
        LuaValue::String(text) => {
            push_token(out, 0x53);
            push_escaped(out, text.as_slice());
            assert(out@ =~= old(out)@ + (token(0x53) + escape(text@, 0)));
            Ok(())
        },
        LuaValue::Table(entries) => {
            proof {
                lemma_model_of_table(*entries);
            }
            if limit == 0 {
                return Err(CodecError::RecursionLimitExceeded);
            }
            push_token(out, 0x54);
            match push_pairs(out, entries, limit - 1) {
                Err(e) => Err(e),
                Ok(()) => {
                    push_token(out, 0x74);
                    assert(out@ =~= old(out)@ + (token(0x54) + write_pairs(
                        pairs_of(entries@),
                        0,
                        (limit - 1) as nat,
                    ).unwrap() + token(0x74)));
                    Ok(())
                },
            }
        },
    }
}

/// One more pair written: what was written before, and then the pairs from
/// `from` on, is what is written with this pair, and then the pairs behind it.
proof fn lemma_pair_written(pairs: Seq<(Value, Value)>, from: nat, limit: nat, done: Seq<u8>)
    requires
        from < pairs.len(),
        pairs[from as int].0 != Value::Null,
        write_value(pairs[from as int].0, limit) is Ok,
        write_value(pairs[from as int].1, limit) is Ok,
    ensures
        then(Ok(done), write_pairs(pairs, from, limit)) == then(
            Ok(
                done + write_value(pairs[from as int].0, limit).unwrap() + write_value(
                    pairs[from as int].1,
                    limit,
                ).unwrap(),
            ),
            write_pairs(pairs, from + 1, limit),
        ),
{
    let key = write_value(pairs[from as int].0, limit).unwrap();
    let val = write_value(pairs[from as int].1, limit).unwrap();
    match write_pairs(pairs, from + 1, limit) {
        Ok(rest) => {
            assert(done + ((key + val) + rest) =~= done + key + val + rest);
        },
        Err(_) => {},
    }
}

/// Appends the pairs of a table, as `write_pairs` says.
fn push_pairs(out: &mut Vec<u8>, entries: &Vec<(LuaMapKey, LuaValue)>, limit: usize) -> (r:
    Result<(), CodecError>)
    ensures
        match write_pairs(pairs_of(entries@), 0, limit as nat) {
            Ok(text) => r is Ok && final(out)@ == old(out)@ + text,
            Err(e) => r == Err::<(), CodecError>(e),
        },
    decreases *entries,
{
    let ghost pairs = pairs_of(entries@);
    let ghost head = out@;
    let mut i: usize = 0;
    assert(out@.skip(head.len() as int) =~= Seq::<u8>::empty());
    assert(Seq::<u8>::empty() + Seq::<u8>::empty() =~= Seq::<u8>::empty());
    while i < entries.len()
        invariant
            i <= entries.len(),
            pairs == pairs_of(entries@),
            head == old(out)@,
            head.len() <= out@.len(),
            out@.take(head.len() as int) == head,
            write_pairs(pairs, 0, limit as nat) == then(
                Ok(out@.skip(head.len() as int)),
                write_pairs(pairs, i as nat, limit as nat),
            ),
        decreases entries.len() - i,
    {
        let ghost before = out@;
        if let LuaValue::Null = entries[i].0.0 {
            return Err(CodecError::NullKeyNotAllowed);
        }
        match push_value(out, &entries[i].0.0, limit) {
            Err(e) => {
                return Err(e);
            },
            Ok(()) => {},
        }
        match push_value(out, &entries[i].1, limit) {
            Err(e) => {
                return Err(e);
            },
            Ok(()) => {},
        }
        proof {
            let key = write_value(pairs[i as int].0, limit as nat).unwrap();
            let val = write_value(pairs[i as int].1, limit as nat).unwrap();
            lemma_pair_written(pairs, i as nat, limit as nat, before.skip(head.len() as int));
            assert(out@.take(head.len() as int) =~= head);
            assert(out@.skip(head.len() as int) =~= before.skip(head.len() as int) + key + val);
        }
        i = i + 1;
    }
    proof {
        assert(out@ =~= head + out@.skip(head.len() as int));
        assert(out@.skip(head.len() as int) + Seq::<u8>::empty() =~= out@.skip(
            head.len() as int,
        ));
    }
    Ok(())
}

/// The most that a guess at the length makes the writer set aside before it
/// writes: 16 MiB.
pub const MAX_HINT: usize = 0x100_0000;

/// Writes values in the legacy text format.
pub struct Serializer {
    remaining_depth: usize,
    result: Vec<u8>,
}

impl Serializer {
    /// The legacy text of one value: the header, the value and the end
    /// marker. `approximate_len` is a guess at the length of the text, for
    /// the buffer; it does not change the result.
    ///
    /// The text is given as bytes: it is ASCII but for the bytes of strings,
    /// which are written as they are where they need no escape.
    pub fn serialize(value: &LuaValue, approximate_len: Option<usize>) -> (r: Result<
        Vec<u8>,
        CodecError,
    >)
        ensures
            match serialize_spec(value@) {
                Ok(text) => r is Ok && r.unwrap()@ == text,
                Err(e) => r == Err::<Vec<u8>, CodecError>(e),
            },
    {
        let capacity: usize = match approximate_len {
            Some(len) => if len <= MAX_HINT {
                len
            } else {
                MAX_HINT
            },
            None => 1024,
        };
        let mut serializer = Serializer {
            remaining_depth: MAX_DEPTH,
            result: Vec::with_capacity(capacity),
        };
        push_token(&mut serializer.result, 0x31);
        match push_value(&mut serializer.result, value, serializer.remaining_depth) {
            Err(e) => Err(e),
            Ok(()) => {
                push_token(&mut serializer.result, CONTROL);
                assert(serializer.result@ =~= token(0x31) + write_value(
                    value@,
                    MAX_DEPTH as nat,
                ).unwrap() + token(CONTROL));
                Ok(serializer.result)
            },
        }
    }
}

} // verus!
