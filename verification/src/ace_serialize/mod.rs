//! The legacy text format: control tokens that begin with `^`, each with the
//! text that follows it.

pub mod deserialization;
pub mod laws;
pub mod reader;
pub mod serialization;

use crate::error::CodecError;
use crate::number::{is_number_text, number_of_text, VENDOR_IND, VENDOR_INF};
use crate::value::{put, Number, Value};
use vstd::prelude::*;

verus! {

/// The byte that opens every control token: `^`.
pub const CONTROL: u8 = 0x5e;

/// The byte that opens an escape in a string: `~`.
pub const ESCAPE: u8 = 0x7e;

/// How deep tables may be nested.
pub const MAX_DEPTH: usize = 128;

/// The second byte of the control token at `pos`, if a control token stands
/// there.
pub open spec fn token_at(s: Seq<u8>, pos: nat) -> Option<u8> {
    if pos + 2 <= s.len() && s[pos as int] == CONTROL {
        Some(s[pos as int + 1])
    } else {
        None
    }
}

/// Where the text ends that starts at `pos`: at the next `^`, or at the end
/// of the input.
pub open spec fn text_end(s: Seq<u8>, pos: nat) -> nat
    decreases s.len() - pos,
{
    if pos < s.len() && s[pos as int] != CONTROL {
        text_end(s, pos + 1)
    } else {
        pos
    }
}

/// The text that starts at `pos`.
pub open spec fn text_at(s: Seq<u8>, pos: nat) -> Seq<u8> {
    s.subrange(pos as int, text_end(s, pos) as int)
}

/// The byte that an escape stands for, by the byte behind its `~`: `@` to
/// `y` stand for the bytes 0 to 57, and `z`, `{`, `|` and `}` for the bytes
/// 30, 127, 126 and 94.
pub open spec fn escaped_byte(c: u8) -> Option<u8> {
    if 0x40 <= c <= 0x79 {
        Some((c - 0x40) as u8)
    } else if c == 0x7a {
        Some(0x1e)
    } else if c == 0x7b {
        Some(0x7f)
    } else if c == 0x7c {
        Some(0x7e)
    } else if c == 0x7d {
        Some(0x5e)
    } else {
        None
    }
}

/// The string that the raw text from `from` on stands for, behind what has
/// been read of it: every escape gives its byte, every other byte itself.
/// A `~` that ends the text, or that stands before a byte that makes no
/// escape with it, is `InvalidEscape`.
pub open spec fn unescape(raw: Seq<u8>, from: nat, done: Seq<u8>) -> Result<Seq<u8>, CodecError>
    decreases raw.len() - from,
{
    if from >= raw.len() {
        Ok(done)
    } else if raw[from as int] != ESCAPE {
        unescape(raw, from + 1, done.push(raw[from as int]))
    } else if from + 1 >= raw.len() {
        Err(CodecError::InvalidEscape)
    } else {
        match escaped_byte(raw[from as int + 1]) {
            Some(byte) => unescape(raw, from + 2, done.push(byte)),
            None => Err(CodecError::InvalidEscape),
        }
    }
}

/// How many bytes of an input of the given length lie at `pos` and behind it.
pub open spec fn left(len: nat, pos: nat) -> nat {
    if pos < len {
        (len - pos) as nat
    } else {
        0
    }
}

/// Reads what follows a control token, `token` being its second byte and
/// `pos` the place behind it: the value, or none for the end marker `^^`, and
/// how many bytes behind the token were read. Tables may be nested `limit`
/// deep.
///
/// `^Z` is null, `^B` true and `^b` false; `^S` brings a string, `^N` a
/// number, `^F` a mantissa whose exponent follows behind `^f`, and `^T` the
/// pairs of a table up to `^t`. Any other token is `InvalidIdentifier`.
pub open spec fn parse_body(s: Seq<u8>, token: u8, pos: nat, limit: nat) -> Result<
    (Option<Value>, nat),
    CodecError,
>
    decreases limit, left(s.len(), pos), 0nat,
{
    if token == CONTROL {
        Ok((None, 0))
    } else if token == 0x5a {
        Ok((Some(Value::Null), 0))
    } else if token == 0x42 {
        Ok((Some(Value::Boolean(true)), 0))
    } else if token == 0x62 {
        Ok((Some(Value::Boolean(false)), 0))
    } else if token == 0x53 {
        match unescape(text_at(s, pos), 0, Seq::empty()) {
            Err(e) => Err(e),
            Ok(text) => Ok((Some(Value::String(text)), text_at(s, pos).len())),
        }
    } else if token == 0x4e {
        match number_of_text(text_at(s, pos)) {
            Err(e) => Err(e),
            Ok(number) => Ok((Some(Value::Number(number)), text_at(s, pos).len())),
        }
    } else if token == 0x46 {
        parse_scaled(s, pos)
    } else if token == 0x54 {
        if limit == 0 {
            Err(CodecError::RecursionLimitExceeded)
        } else {
            match parse_pairs(s, pos, (limit - 1) as nat, Seq::empty()) {
                Err(e) => Err(e),
                Ok((pairs, read)) => Ok((Some(Value::Table(pairs)), read)),
            }
        }
    } else {
        Err(CodecError::InvalidIdentifier)
    }
}

/// Reads a control token at `pos` and what follows it: the value, or none for
/// the end marker, and how many bytes were read, the token among them. Where
/// no token stands, that is `InvalidIdentifier`.
pub open spec fn parse_value(s: Seq<u8>, pos: nat, limit: nat) -> Result<
    (Option<Value>, nat),
    CodecError,
> {
    match token_at(s, pos) {
        None => Err(CodecError::InvalidIdentifier),
        Some(token) => match parse_body(s, token, pos + 2, limit) {
            Err(e) => Err(e),
            Ok((found, read)) => Ok((found, 2 + read)),
        },
    }
}

/// Reads a mantissa at `pos` and the exponent that must follow it behind
/// `^f`. Text that spells no number is `InvalidNumber`; a mantissa that no
/// token follows is `InvalidIdentifier`, and one that another token follows
/// is `MissingExponent`.
pub open spec fn parse_scaled(s: Seq<u8>, pos: nat) -> Result<(Option<Value>, nat), CodecError> {
    let mantissa = text_at(s, pos);
    let behind = text_end(s, pos);
    if !is_number_text(mantissa) {
        Err(CodecError::InvalidNumber)
    } else {
        match token_at(s, behind) {
            None => Err(CodecError::InvalidIdentifier),
            Some(token) => if token != 0x66 {
                Err(CodecError::MissingExponent)
            } else if !is_number_text(text_at(s, behind + 2)) {
                Err(CodecError::InvalidNumber)
            } else {
                Ok(
                    (
                        Some(Value::Number(Number::Scaled(mantissa, text_at(s, behind + 2)))),
                        mantissa.len() + 2 + text_at(s, behind + 2).len(),
                    ),
                )
            },
        }
    }
}

/// Reads the pairs of a table at `pos` up to and with its `^t`, and puts them
/// into the pairs read before: the pairs of the table, and how many bytes
/// were read. A key that comes again gets the later value.
///
/// Where no token stands, that is `InvalidIdentifier`. The end marker in the
/// place of a key is `MissingKey`, null there is `NullKeyNotAllowed`; `^t` in
/// the place of a value is `UnexpectedEndOfTable`, the end marker there is
/// `MissingValue`.
pub open spec fn parse_pairs(s: Seq<u8>, pos: nat, limit: nat, pairs: Seq<(Value, Value)>) -> Result<
    (Seq<(Value, Value)>, nat),
    CodecError,
>
    decreases limit, left(s.len(), pos), 1nat,
{
    match token_at(s, pos) {
        None => Err(CodecError::InvalidIdentifier),
        Some(token) => if token == 0x74 {
            Ok((pairs, 2))
        } else {
            match parse_body(s, token, pos + 2, limit) {
                Err(e) => Err(e),
                Ok((None, _)) => Err(CodecError::MissingKey),
                Ok((Some(key), read)) => if key == Value::Null {
                    Err(CodecError::NullKeyNotAllowed)
                } else {
                    match token_at(s, pos + 2 + read) {
                        None => Err(CodecError::InvalidIdentifier),
                        Some(second) => if second == 0x74 {
                            Err(CodecError::UnexpectedEndOfTable)
                        } else {
                            match parse_body(s, second, pos + 2 + read + 2, limit) {
                                Err(e) => Err(e),
                                Ok((None, _)) => Err(CodecError::MissingValue),
                                Ok((Some(value), more)) => match parse_pairs(
                                    s,
                                    pos + 2 + read + 2 + more,
                                    limit,
                                    put(pairs, key, value),
                                ) {
                                    Err(e) => Err(e),
                                    Ok((all, rest)) => Ok((all, 2 + read + 2 + more + rest)),
                                },
                            }
                        },
                    }
                },
            }
        },
    }
}

/// Reads values from `pos` on for as long as a control token stands there,
/// and adds them to the values read before. An end marker gives no value and
/// is passed over. What follows the last value and is no token is left
/// unread.
pub open spec fn parse_values(s: Seq<u8>, pos: nat, values: Seq<Value>) -> Result<
    Seq<Value>,
    CodecError,
>
    decreases left(s.len(), pos),
{
    match token_at(s, pos) {
        None => Ok(values),
        Some(token) => match parse_body(s, token, pos + 2, MAX_DEPTH as nat) {
            Err(e) => Err(e),
            Ok((found, read)) => parse_values(
                s,
                pos + 2 + read,
                match found {
                    Some(value) => values.push(value),
                    None => values,
                },
            ),
        },
    }
}

/// The values of legacy text: behind the header `^1`, one value after the
/// other. Text without the header is `InvalidIdentifier`.
pub open spec fn deserialize_spec(s: Seq<u8>) -> Result<Seq<Value>, CodecError> {
    if token_at(s, 0) != Some(0x31u8) {
        Err(CodecError::InvalidIdentifier)
    } else {
        parse_values(s, 2, Seq::empty())
    }
}

/// The first value of legacy text: what follows the token behind the header
/// `^1`, which is none if that token is the end marker.
pub open spec fn deserialize_first_spec(s: Seq<u8>) -> Result<Option<Value>, CodecError> {
    if token_at(s, 0) != Some(0x31u8) {
        Err(CodecError::InvalidIdentifier)
    } else {
        match token_at(s, 2) {
            None => Err(CodecError::InvalidIdentifier),
            Some(token) => match parse_body(s, token, 4, MAX_DEPTH as nat) {
                Err(e) => Err(e),
                Ok((found, _)) => Ok(found),
            },
        }
    }
}

/// The most tables that are open at once in the text from `pos` on, `open` of
/// them being open before it. The text is gone through token by token: every
/// `^T` opens a table, every `^t` closes one, and what stands between tokens
/// is passed over.
pub open spec fn deepest(s: Seq<u8>, pos: nat, open: nat) -> nat
    decreases left(s.len(), pos),
{
    if pos + 2 > s.len() {
        open
    } else if s[pos as int] != CONTROL {
        deepest(s, pos + 1, open)
    } else if s[pos as int + 1] == 0x54 {
        deepest(s, pos + 2, open + 1)
    } else if s[pos as int + 1] == 0x74 && open > 0 {
        let later = deepest(s, pos + 2, (open - 1) as nat);
        if later > open {
            later
        } else {
            open
        }
    } else {
        deepest(s, pos + 2, open)
    }
}

/// At least as many tables are open at once as are open at the start.
pub proof fn lemma_deepest_at_least(s: Seq<u8>, pos: nat, open: nat)
    ensures
        deepest(s, pos, open) >= open,
    decreases left(s.len(), pos),
{
    if pos + 2 > s.len() {
    } else if s[pos as int] != CONTROL {
        lemma_deepest_at_least(s, pos + 1, open);
    } else if s[pos as int + 1] == 0x54 {
        lemma_deepest_at_least(s, pos + 2, open + 1);
    } else if s[pos as int + 1] == 0x74 && open > 0 {
    } else {
        lemma_deepest_at_least(s, pos + 2, open);
    }
}

/// A control token: `^` and the byte that tells the tokens apart.
pub open spec fn token(second: u8) -> Seq<u8> {
    seq![CONTROL, second]
}

/// How a byte of a string is written: a blank and every control character
/// as an escape, and so `^` and `~`, which the format needs for itself; any
/// other byte as it is.
pub open spec fn escape_byte(b: u8) -> Seq<u8> {
    if b == 0x1e {
        seq![ESCAPE, 0x7au8]
    } else if b <= 0x20 {
        seq![ESCAPE, (b + 0x40) as u8]
    } else if b == 0x5e {
        seq![ESCAPE, 0x7du8]
    } else if b == 0x7e {
        seq![ESCAPE, 0x7cu8]
    } else if b == 0x7f {
        seq![ESCAPE, 0x7bu8]
    } else {
        seq![b]
    }
}

/// How the bytes of a string from `from` on are written.
pub open spec fn escape(text: Seq<u8>, from: nat) -> Seq<u8>
    decreases text.len() - from,
{
    if from >= text.len() {
        Seq::empty()
    } else {
        escape_byte(text[from as int]) + escape(text, from + 1)
    }
}

/// The decimal digits of a natural number.
pub open spec fn decimal(n: nat) -> Seq<u8>
    decreases n,
{
    if n < 10 {
        seq![(0x30 + n) as u8]
    } else {
        decimal(n / 10).push((0x30 + n % 10) as u8)
    }
}

/// A minus sign, if there is to be one, and the text behind it.
pub open spec fn signed(negative: bool, text: Seq<u8>) -> Seq<u8> {
    if negative {
        seq![0x2du8] + text
    } else {
        text
    }
}

/// How a number that is held by its bit pattern is written. Its sign is its
/// highest bit, its exponent the eleven bits below, its fraction the rest.
///
/// The greatest exponent marks infinity, or not-a-number if the fraction is
/// not zero; both are written in their vendor spellings, and what a
/// not-a-number holds besides its sign is not written. Zero is written as
/// `0`. Any other number is written as a whole mantissa and the power of two
/// that scales it.
pub open spec fn bits_text(bits: u64) -> Seq<u8> {
    let negative = bits >= 0x8000_0000_0000_0000;
    let exponent = bits as nat / 0x10_0000_0000_0000 % 2048;
    let fraction = bits as nat % 0x10_0000_0000_0000;
    if exponent == 2047 {
        token(0x4e) + signed(
            negative,
            if fraction == 0 {
                VENDOR_INF@
            } else {
                VENDOR_IND@
            },
        )
    } else if exponent == 0 && fraction == 0 {
        token(0x4e) + signed(negative, decimal(0))
    } else if exponent == 0 {
        token(0x46) + signed(negative, decimal(fraction)) + token(0x66) + signed(
            true,
            decimal(1074),
        )
    } else {
        token(0x46) + signed(negative, decimal(0x10_0000_0000_0000 + fraction)) + token(0x66)
            + signed(
            exponent < 1075,
            decimal(
                if exponent < 1075 {
                    (1075 - exponent) as nat
                } else {
                    (exponent - 1075) as nat
                },
            ),
        )
    }
}

/// How a number is written. Text that spells no number is `InvalidNumber`.
pub open spec fn write_number(number: Number) -> Result<Seq<u8>, CodecError> {
    match number {
        Number::Bits(bits) => Ok(bits_text(bits)),
        Number::Decimal(text) => if is_number_text(text) {
            Ok(token(0x4e) + text)
        } else {
            Err(CodecError::InvalidNumber)
        },
        Number::Scaled(mantissa, exponent) => if is_number_text(mantissa) && is_number_text(
            exponent,
        ) {
            Ok(token(0x46) + mantissa + token(0x66) + exponent)
        } else {
            Err(CodecError::InvalidNumber)
        },
    }
}

/// One text behind another, where both could be written.
pub open spec fn then(
    first: Result<Seq<u8>, CodecError>,
    second: Result<Seq<u8>, CodecError>,
) -> Result<Seq<u8>, CodecError> {
    match first {
        Err(e) => Err(e),
        Ok(head) => match second {
            Err(e) => Err(e),
            Ok(tail) => Ok(head + tail),
        },
    }
}

/// How a value is written, where tables may be nested `limit` deep.
///
/// A table is written pair by pair in the order of its pairs, and the first
/// thing that cannot be written decides the failure: a table nested too
/// deeply is `RecursionLimitExceeded`, a null key is `NullKeyNotAllowed`,
/// number text that spells no number is `InvalidNumber`.
pub open spec fn write_value(value: Value, limit: nat) -> Result<Seq<u8>, CodecError>
    decreases value, 0nat,
{
    match value {
        Value::Null => Ok(token(0x5a)),
        Value::Boolean(b) => Ok(
            token(
                if b {
                    0x42
                } else {
                    0x62
                },
            ),
        ),
        Value::Number(number) => write_number(number),
        Value::String(text) => Ok(token(0x53) + escape(text, 0)),
        Value::Table(pairs) => if limit == 0 {
            Err(CodecError::RecursionLimitExceeded)
        } else {
            then(
                then(Ok(token(0x54)), write_pairs(pairs, 0, (limit - 1) as nat)),
                Ok(token(0x74)),
            )
        },
    }
}

/// How the pairs of a table from the pair `from` on are written.
pub open spec fn write_pairs(pairs: Seq<(Value, Value)>, from: nat, limit: nat) -> Result<
    Seq<u8>,
    CodecError,
>
    decreases pairs, pairs.len() - from,
{
    if from >= pairs.len() {
        Ok(Seq::empty())
    } else if pairs[from as int].0 == Value::Null {
        Err(CodecError::NullKeyNotAllowed)
    } else {
        then(
            then(write_value(pairs[from as int].0, limit), write_value(pairs[from as int].1, limit)),
            write_pairs(pairs, from + 1, limit),
        )
    }
}

/// The legacy text of one value: the header `^1`, the value, and the end
/// marker `^^`.
pub open spec fn serialize_spec(value: Value) -> Result<Seq<u8>, CodecError> {
    then(then(Ok(token(0x31)), write_value(value, MAX_DEPTH as nat)), Ok(token(CONTROL)))
}

} // verus!
