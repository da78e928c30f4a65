//! Numbers as text: which text spells a number, and which spellings stand
//! for the special numbers.

use crate::error::CodecError;
use crate::value::{LuaNumber, Number};
use vstd::prelude::*;
use vstd::slice::slice_to_vec;

verus! {

/// The bit pattern of positive infinity.
pub const POSITIVE_INFINITY: u64 = 0x7ff0_0000_0000_0000;

/// The bit pattern of negative infinity.
pub const NEGATIVE_INFINITY: u64 = 0xfff0_0000_0000_0000;

/// The bit pattern of the quiet not-a-number with a clear sign.
pub const POSITIVE_NAN: u64 = 0x7ff8_0000_0000_0000;

/// The bit pattern of the quiet not-a-number with a set sign.
pub const NEGATIVE_NAN: u64 = 0xfff8_0000_0000_0000;

/// Whether the byte is a decimal digit.
pub open spec fn is_digit(c: u8) -> bool {
    0x30 <= c <= 0x39
}

/// The small letter of a capital ASCII letter, and any other byte as it is.
pub open spec fn lower(c: u8) -> u8 {
    if 0x41 <= c <= 0x5a {
        (c + 0x20) as u8
    } else {
        c
    }
}

/// Whether the text from `from` to its end is the given word of small letters,
/// the case of the text set aside.
pub open spec fn is_word(s: Seq<u8>, from: int, word: Seq<u8>) -> bool {
    &&& s.len() - from == word.len()
    &&& forall|i: int| 0 <= i < word.len() ==> lower(#[trigger] s[from + i]) == word[i]
}

/// Where the run of digits ends that starts at `from`.
pub open spec fn digits_end(s: Seq<u8>, from: int) -> int
    decreases s.len() - from,
{
    if 0 <= from < s.len() && is_digit(s[from]) {
        digits_end(s, from + 1)
    } else {
        from
    }
}

/// The place behind a sign at `from`, if there is one.
pub open spec fn after_sign(s: Seq<u8>, from: int) -> int {
    if 0 <= from < s.len() && (s[from] == 0x2b || s[from] == 0x2d) {
        from + 1
    } else {
        from
    }
}

/// Whether the text from `from` to its end is an exponent: the letter `e`,
/// small or capital, a sign or none, and at least one digit.
pub open spec fn is_exponent(s: Seq<u8>, from: int) -> bool {
    &&& 0 <= from < s.len()
    &&& lower(s[from]) == 0x65
    &&& digits_end(s, after_sign(s, from + 1)) > after_sign(s, from + 1)
    &&& digits_end(s, after_sign(s, from + 1)) == s.len()
}

/// Whether the text from `from` to its end is a decimal number without a sign:
/// digits with at most one point among them, at least one digit in all, and
/// an exponent or none.
pub open spec fn is_decimal(s: Seq<u8>, from: int) -> bool {
    let whole_end = digits_end(s, from);
    let has_point = 0 <= whole_end < s.len() && s[whole_end] == 0x2e;
    let fraction_end = if has_point {
        digits_end(s, whole_end + 1)
    } else {
        whole_end
    };
    let digits = if has_point {
        fraction_end - from - 1
    } else {
        fraction_end - from
    };
    &&& digits > 0
    &&& (fraction_end == s.len() || is_exponent(s, fraction_end))
}

/// The word `inf`.
pub const INF: [u8; 3] = [0x69, 0x6e, 0x66];

/// The word `infinity`.
pub const INFINITY: [u8; 8] = [0x69, 0x6e, 0x66, 0x69, 0x6e, 0x69, 0x74, 0x79];

/// The word `nan`.
pub const NAN: [u8; 3] = [0x6e, 0x61, 0x6e];

/// The spelling `1.#INF`.
pub const VENDOR_INF: [u8; 6] = [0x31, 0x2e, 0x23, 0x49, 0x4e, 0x46];

/// The spelling `1.#IND`.
pub const VENDOR_IND: [u8; 6] = [0x31, 0x2e, 0x23, 0x49, 0x4e, 0x44];

/// Whether the text spells a number: a sign or none, and then `inf`,
/// `infinity` or `nan` in any case, or a decimal number.
pub open spec fn is_number_text(s: Seq<u8>) -> bool {
    let start = after_sign(s, 0);
    ||| is_word(s, start, INF@)
    ||| is_word(s, start, INFINITY@)
    ||| is_word(s, start, NAN@)
    ||| is_decimal(s, start)
}

/// The bit pattern that one of the fixed spellings of a special number has:
/// `inf` and `1.#INF` for infinity, `nan` and `1.#IND` for not-a-number, each
/// as it stands or behind a minus sign.
pub open spec fn special_number(s: Seq<u8>) -> Option<u64> {
    let negative = s.len() > 0 && s[0] == 0x2d;
    let from: int = if negative {
        1
    } else {
        0
    };
    if s.skip(from) == INF@ || s.skip(from) == VENDOR_INF@ {
        Some(
            if negative {
                NEGATIVE_INFINITY
            } else {
                POSITIVE_INFINITY
            },
        )
    } else if s.skip(from) == NAN@ || s.skip(from) == VENDOR_IND@ {
        Some(
            if negative {
                NEGATIVE_NAN
            } else {
                POSITIVE_NAN
            },
        )
    } else {
        None
    }
}

/// The number that the text of a number token stands for: the bit pattern of
/// a special number, or else the text itself if it spells a number.
pub open spec fn number_of_text(s: Seq<u8>) -> Result<Number, CodecError> {
    match special_number(s) {
        Some(bits) => Ok(Number::Bits(bits)),
        None => if is_number_text(s) {
            Ok(Number::Decimal(s))
        } else {
            Err(CodecError::InvalidNumber)
        },
    }
}

/// Whether the text from `from` to its end is exactly the given word.
fn ends_with_exactly(text: &[u8], from: usize, word: &[u8]) -> (b: bool)
    requires
        from <= text.len(),
    ensures
        b == (text@.skip(from as int) == word@),
{
    if text.len() - from != word.len() {
        return false;
    }
    let mut i: usize = 0;
    while i < word.len()
        invariant
            from <= text.len(),
            text.len() - from == word.len(),
            i <= word.len(),
            forall|j: int| 0 <= j < i ==> text[from + j] == word[j],
        decreases word.len() - i,
    {
        if text[from + i] != word[i] {
            assert(text@.skip(from as int)[i as int] != word@[i as int]);
            return false;
        }
        i = i + 1;
    }
    assert(text@.skip(from as int) =~= word@);
    true
}

/// The small letter of a capital ASCII letter, and any other byte as it is.
fn to_lower(c: u8) -> (l: u8)
    ensures
        l == lower(c),
{
    if 0x41 <= c && c <= 0x5a {
        c + 0x20
    } else {
        c
    }
}

/// Whether the text from `from` to its end is the given word of small letters,
/// the case of the text set aside.
fn ends_with_word(text: &[u8], from: usize, word: &[u8]) -> (b: bool)
    requires
        from <= text.len(),
    ensures
        b == is_word(text@, from as int, word@),
{
    if text.len() - from != word.len() {
        return false;
    }
    let mut i: usize = 0;
    while i < word.len()
        invariant
            from <= text.len(),
            text.len() - from == word.len(),
            i <= word.len(),
            forall|j: int| 0 <= j < i ==> lower(#[trigger] text[from + j]) == word[j],
        decreases word.len() - i,
    {
        if to_lower(text[from + i]) != word[i] {
            return false;
        }
        i = i + 1;
    }
    true
}

/// Where the run of digits ends that starts at `from`.
fn skip_digits(text: &[u8], from: usize) -> (end: usize)
    requires
        from <= text.len(),
    ensures
        end == digits_end(text@, from as int),
        from <= end <= text.len(),
{
    let mut at: usize = from;
    while at < text.len() && 0x30 <= text[at] && text[at] <= 0x39
        invariant
            from <= at <= text.len(),
            digits_end(text@, at as int) == digits_end(text@, from as int),
        decreases text.len() - at,
    {
        at = at + 1;
    }
    at
}

/// The place behind a sign at `from`, if there is one.
fn skip_sign(text: &[u8], from: usize) -> (end: usize)
    requires
        from <= text.len(),
    ensures
        end == after_sign(text@, from as int),
        from <= end <= text.len(),
{
    if from < text.len() && (text[from] == 0x2b || text[from] == 0x2d) {
        from + 1
    } else {
        from
    }
}

/// Whether the text from `from` to its end is a decimal number without a
/// sign.
fn ends_with_decimal(text: &[u8], from: usize) -> (b: bool)
    requires
        from <= text.len(),
    ensures
        b == is_decimal(text@, from as int),
{
    let whole_end: usize = skip_digits(text, from);
    let has_point: bool = whole_end < text.len() && text[whole_end] == 0x2e;
    let fraction_end: usize = if has_point {
        skip_digits(text, whole_end + 1)
    } else {
        whole_end
    };
    let digits: usize = if has_point {
        fraction_end - from - 1
    } else {
        fraction_end - from
    };
    if digits == 0 {
        return false;
    }
    if fraction_end == text.len() {
        return true;
    }
    if to_lower(text[fraction_end]) != 0x65 {
        return false;
    }
    let exponent_start: usize = skip_sign(text, fraction_end + 1);
    let exponent_end: usize = skip_digits(text, exponent_start);
    exponent_end > exponent_start && exponent_end == text.len()
}

/// Whether the text spells a number.
pub fn is_number(text: &[u8]) -> (b: bool)
    ensures
        b == is_number_text(text@),
{
    let start: usize = skip_sign(text, 0);
    ends_with_word(text, start, INF.as_slice()) || ends_with_word(text, start, INFINITY.as_slice())
        || ends_with_word(text, start, NAN.as_slice()) || ends_with_decimal(text, start)
}

/// The bit pattern of a special number, if the text is one of their fixed
/// spellings.
pub fn special(text: &[u8]) -> (r: Option<u64>)
    ensures
        r == special_number(text@),
{
    let negative: bool = text.len() > 0 && text[0] == 0x2d;
    let from: usize = if negative {
        1
    } else {
        0
    };
    if ends_with_exactly(text, from, INF.as_slice()) || ends_with_exactly(
        text,
        from,
        VENDOR_INF.as_slice(),
    ) {
        Some(
            if negative {
                NEGATIVE_INFINITY
            } else {
                POSITIVE_INFINITY
            },
        )
    } else if ends_with_exactly(text, from, NAN.as_slice()) || ends_with_exactly(
        text,
        from,
        VENDOR_IND.as_slice(),
    ) {
        Some(
            if negative {
                NEGATIVE_NAN
            } else {
                POSITIVE_NAN
            },
        )
    } else {
        None
    }
}

/// Reads the text of a number token: the bit pattern of a special number, or
/// the text itself if it spells a number, or else `InvalidNumber`.
pub fn deserialize_number(data: &[u8]) -> (r: Result<LuaNumber, CodecError>)
    ensures
        match number_of_text(data@) {
            Ok(number) => r is Ok && r.unwrap()@ == number,
            Err(e) => r == Err::<LuaNumber, CodecError>(e),
        },
{
    match special(data) {
        Some(bits) => Ok(LuaNumber::Bits(bits)),
        None => {
            if is_number(data) {
                Ok(LuaNumber::Decimal(slice_to_vec(data)))
            } else {
                Err(CodecError::InvalidNumber)
            }
        },
    }
}

} // verus!
