//! The binary tag format: every value begins with a tag of one byte, and
//! every length takes four bytes, the highest first.

pub mod deserialization;
pub mod laws;
pub mod serialization;

use crate::error::CodecError;
use crate::number::is_number_text;
use crate::value::{put, Number, Value};
use vstd::prelude::*;

verus! {

/// The first byte of every stream: the revision of the format.
pub const REVISION: u8 = 1;

/// The tag of null. Nothing follows it.
pub const TAG_NULL: u8 = 0;

/// The tag of the boolean false. Nothing follows it.
pub const TAG_FALSE: u8 = 1;

/// The tag of the boolean true. Nothing follows it.
pub const TAG_TRUE: u8 = 2;

/// The tag of a number held by its bit pattern: eight bytes follow, the
/// highest first.
pub const TAG_BITS: u8 = 3;

/// The tag of a number spelled in decimal text: the sized text follows.
pub const TAG_DECIMAL: u8 = 4;

/// The tag of a scaled number: the sized text of the mantissa follows, and
/// then that of the exponent.
pub const TAG_SCALED: u8 = 5;

/// The tag of a string: its sized bytes follow.
pub const TAG_STRING: u8 = 6;

/// The tag of a table: the number of its pairs follows, in four bytes, the
/// highest first, and then the pairs, each a key and its value.
pub const TAG_TABLE: u8 = 7;

/// How deep tables may be nested.
pub const MAX_DEPTH: usize = 128;

/// The greatest length that four bytes can hold.
pub const MAX_LENGTH: usize = 0xffff_ffff;

/// A length in four bytes, the highest first.
pub open spec fn be32(n: nat) -> Seq<u8> {
    seq![
        (n / 0x100_0000 % 256) as u8,
        (n / 0x1_0000 % 256) as u8,
        (n / 0x100 % 256) as u8,
        (n % 256) as u8,
    ]
}

/// The length that the four bytes from `pos` on hold.
pub open spec fn read_be32(bytes: Seq<u8>, pos: int) -> nat {
    (bytes[pos] as nat) * 0x100_0000 + (bytes[pos + 1] as nat) * 0x1_0000 + (bytes[pos
        + 2] as nat) * 0x100 + bytes[pos + 3] as nat
}

/// A bit pattern in eight bytes, the highest first.
pub open spec fn be64(n: u64) -> Seq<u8> {
    be32(n as nat / 0x1_0000_0000) + be32(n as nat % 0x1_0000_0000)
}

/// The bit pattern that the eight bytes from `pos` on hold.
pub open spec fn read_be64(bytes: Seq<u8>, pos: int) -> u64 {
    (read_be32(bytes, pos) * 0x1_0000_0000 + read_be32(bytes, pos + 4)) as u64
}

/// Sized bytes: their number in four bytes, and then the bytes.
pub open spec fn sized(text: Seq<u8>) -> Result<Seq<u8>, CodecError> {
    if text.len() > MAX_LENGTH {
        Err(CodecError::InvalidLength)
    } else {
        Ok(be32(text.len()) + text)
    }
}

/// One stream behind another, where both could be written.
pub open spec fn then(
    first: Result<Seq<u8>, CodecError>,
    second: Result<Seq<u8>, CodecError>,
) -> Result<Seq<u8>, CodecError> {
    match first {
        Err(e) => Err(e),
        Ok(head) => match second {
            Err(e) => Err(e),
            Ok(tail) => Ok(head + tail),
        },
    }
}

/// The sized text of a number: text that is too long to be sized is
/// `InvalidLength`, and text that spells no number is `InvalidNumber`.
pub open spec fn sized_number(text: Seq<u8>) -> Result<Seq<u8>, CodecError> {
    if text.len() > MAX_LENGTH {
        Err(CodecError::InvalidLength)
    } else if !is_number_text(text) {
        Err(CodecError::InvalidNumber)
    } else {
        Ok(be32(text.len()) + text)
    }
}

/// The bytes of a number: its tag and what follows it.
pub open spec fn serialize_number(number: Number) -> Result<Seq<u8>, CodecError> {
    match number {
        Number::Bits(bits) => Ok(seq![TAG_BITS] + be64(bits)),
        Number::Decimal(text) => then(Ok(seq![TAG_DECIMAL]), sized_number(text)),
        Number::Scaled(mantissa, exponent) => then(
            then(Ok(seq![TAG_SCALED]), sized_number(mantissa)),
            sized_number(exponent),
        ),
    }
}

/// The bytes of a value, where tables may be nested `limit` deep.
///
/// A table is written pair by pair in the order of its pairs, and the first
/// thing that cannot be written decides the failure: a table nested too
/// deeply is `RecursionLimitExceeded`, a null key is `NullKeyNotAllowed`,
/// text or a table too long to be sized is `InvalidLength`, number text that
/// spells no number is `InvalidNumber`.
pub open spec fn serialize_value(value: Value, limit: nat) -> Result<Seq<u8>, CodecError>
    decreases value, 0nat,
{
    match value {
        Value::Null => Ok(seq![TAG_NULL]),
        Value::Boolean(b) => Ok(
            seq![
                if b {
                    TAG_TRUE
                } else {
                    TAG_FALSE
                },
            ],
        ),
        Value::Number(number) => serialize_number(number),
        Value::String(text) => then(Ok(seq![TAG_STRING]), sized(text)),
        Value::Table(pairs) => if limit == 0 {
            Err(CodecError::RecursionLimitExceeded)
        } else if pairs.len() > MAX_LENGTH {
            Err(CodecError::InvalidLength)
        } else {
            then(
                Ok(seq![TAG_TABLE] + be32(pairs.len())),
                serialize_pairs(pairs, 0, (limit - 1) as nat),
            )
        },
    }
}

/// The bytes of the pairs of a table from the pair `from` on.
pub open spec fn serialize_pairs(pairs: Seq<(Value, Value)>, from: nat, limit: nat) -> Result<
    Seq<u8>,
    CodecError,
>
    decreases pairs, pairs.len() - from,
{
    if from >= pairs.len() {
        Ok(Seq::empty())
    } else if pairs[from as int].0 == Value::Null {
        Err(CodecError::NullKeyNotAllowed)
    } else {
        then(
            then(
                serialize_value(pairs[from as int].0, limit),
                serialize_value(pairs[from as int].1, limit),
            ),
            serialize_pairs(pairs, from + 1, limit),
        )
    }
}

/// The stream of one value: the revision and the bytes of the value.
pub open spec fn serialize_spec(value: Value) -> Result<Seq<u8>, CodecError> {
    then(Ok(seq![REVISION]), serialize_value(value, MAX_DEPTH as nat))
}

/// Reads sized bytes at `pos`: the bytes, and how many bytes were read in
/// all. The input must hold the four bytes of the length and then as many
/// bytes as the length says.
pub open spec fn parse_sized(bytes: Seq<u8>, pos: nat) -> Result<(Seq<u8>, nat), CodecError> {
    if pos + 4 > bytes.len() {
        Err(CodecError::UnexpectedEndOfInput)
    } else if pos + 4 + read_be32(bytes, pos as int) > bytes.len() {
        Err(CodecError::UnexpectedEndOfInput)
    } else {
        Ok(
            (
                bytes.subrange(pos as int + 4, pos as int + 4 + read_be32(bytes, pos as int)),
                4 + read_be32(bytes, pos as int),
            ),
        )
    }
}

/// Reads what follows the tag of a value, `pos` being the place behind the
/// tag: the value, and how many bytes behind the tag were read. Tables may be
/// nested `limit` deep.
///
/// Input that ends too early is `UnexpectedEndOfInput`; a tag that is none
/// of the known ones is `InvalidIdentifier`; number text that spells no
/// number is `InvalidNumber`; a table nested too deeply is
/// `RecursionLimitExceeded`; a null key is `NullKeyNotAllowed`.
pub open spec fn parse_body(bytes: Seq<u8>, tag: u8, pos: nat, limit: nat) -> Result<
    (Value, nat),
    CodecError,
>
    decreases limit, 0nat,
{
    if tag == TAG_NULL {
        Ok((Value::Null, 0))
    } else if tag == TAG_FALSE {
        Ok((Value::Boolean(false), 0))
    } else if tag == TAG_TRUE {
        Ok((Value::Boolean(true), 0))
    } else if tag == TAG_BITS {
        if pos + 8 > bytes.len() {
            Err(CodecError::UnexpectedEndOfInput)
        } else {
            Ok((Value::Number(Number::Bits(read_be64(bytes, pos as int))), 8))
        }
    } else if tag == TAG_DECIMAL {
        match parse_sized(bytes, pos) {
            Err(e) => Err(e),
            Ok((text, read)) => if is_number_text(text) {
                Ok((Value::Number(Number::Decimal(text)), read))
            } else {
                Err(CodecError::InvalidNumber)
            },
        }
    } else if tag == TAG_SCALED {
        match parse_sized(bytes, pos) {
            Err(e) => Err(e),
            Ok((mantissa, read)) => if !is_number_text(mantissa) {
                Err(CodecError::InvalidNumber)
            } else {
                match parse_sized(bytes, pos + read) {
                    Err(e) => Err(e),
                    Ok((exponent, more)) => if is_number_text(exponent) {
                        Ok((Value::Number(Number::Scaled(mantissa, exponent)), read + more))
                    } else {
                        Err(CodecError::InvalidNumber)
                    },
                }
            },
        }
    } else if tag == TAG_STRING {
        match parse_sized(bytes, pos) {
            Err(e) => Err(e),
            Ok((text, read)) => Ok((Value::String(text), read)),
        }
    } else if tag == TAG_TABLE {
        if limit == 0 {
            Err(CodecError::RecursionLimitExceeded)
        } else if pos + 4 > bytes.len() {
            Err(CodecError::UnexpectedEndOfInput)
        } else {
            match parse_pairs(
                bytes,
                pos + 4,
                read_be32(bytes, pos as int),
                (limit - 1) as nat,
                Seq::empty(),
            ) {
                Err(e) => Err(e),
                Ok((pairs, read)) => Ok((Value::Table(pairs), 4 + read)),
            }
        }
    } else {
        Err(CodecError::InvalidIdentifier)
    }
}

/// Reads a value at `pos`: the value, and how many bytes were read.
pub open spec fn parse_value(bytes: Seq<u8>, pos: nat, limit: nat) -> Result<
    (Value, nat),
    CodecError,
>
    decreases limit, 1nat,
{
    if pos >= bytes.len() {
        Err(CodecError::UnexpectedEndOfInput)
    } else {
        match parse_body(bytes, bytes[pos as int], pos + 1, limit) {
            Err(e) => Err(e),
            Ok((value, read)) => Ok((value, 1 + read)),
        }
    }
}

/// Reads `count` pairs at `pos` and puts them into the pairs read before: the
/// pairs of the table, and how many bytes were read. A key that comes again
/// gets the later value.
pub open spec fn parse_pairs(
    bytes: Seq<u8>,
    pos: nat,
    count: nat,
    limit: nat,
    pairs: Seq<(Value, Value)>,
) -> Result<(Seq<(Value, Value)>, nat), CodecError>
    decreases limit, count + 2,
{
    if count == 0 {
        Ok((pairs, 0))
    } else {
        match parse_value(bytes, pos, limit) {
            Err(e) => Err(e),
            Ok((key, read)) => if key == Value::Null {
                Err(CodecError::NullKeyNotAllowed)
            } else {
                match parse_value(bytes, pos + read, limit) {
                    Err(e) => Err(e),
                    Ok((value, more)) => match parse_pairs(
                        bytes,
                        pos + read + more,
                        (count - 1) as nat,
                        limit,
                        put(pairs, key, value),
                    ) {
                        Err(e) => Err(e),
                        Ok((all, rest)) => Ok((all, read + more + rest)),
                    },
                }
            },
        }
    }
}

/// How many bytes of an input of the given length lie at `pos` and behind it.
pub open spec fn left(len: nat, pos: nat) -> nat {
    if pos < len {
        (len - pos) as nat
    } else {
        0
    }
}

/// Reads values from `pos` to the end of the input and adds them to the
/// values read before.
pub open spec fn parse_values(bytes: Seq<u8>, pos: nat, values: Seq<Value>) -> Result<
    Seq<Value>,
    CodecError,
>
    decreases left(bytes.len(), pos),
{
    if pos >= bytes.len() {
        Ok(values)
    } else {
        match parse_body(bytes, bytes[pos as int], pos + 1, MAX_DEPTH as nat) {
            Err(e) => Err(e),
            Ok((value, read)) => parse_values(bytes, pos + 1 + read, values.push(value)),
        }
    }
}

/// The values of a stream: behind the revision, one value after the other to
/// the end of the input. A stream without the revision is
/// `InvalidIdentifier`.
pub open spec fn deserialize_spec(bytes: Seq<u8>) -> Result<Seq<Value>, CodecError> {
    if bytes.len() == 0 || bytes[0] != REVISION {
        Err(CodecError::InvalidIdentifier)
    } else {
        parse_values(bytes, 1, Seq::empty())
    }
}

/// The first value of a stream, if it holds one.
pub open spec fn deserialize_first_spec(bytes: Seq<u8>) -> Result<Option<Value>, CodecError> {
    if bytes.len() == 0 || bytes[0] != REVISION {
        Err(CodecError::InvalidIdentifier)
    } else if bytes.len() == 1 {
        Ok(None)
    } else {
        match parse_value(bytes, 1, MAX_DEPTH as nat) {
            Err(e) => Err(e),
            Ok((value, _)) => Ok(Some(value)),
        }
    }
}

} // verus!
