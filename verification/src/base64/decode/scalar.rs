//! The scalar decoding kernel: one group of four symbols to a step, by table
//! lookups.

use crate::base64::byte_map::{
    is_symbol, lemma_decode_luts, symbol_value, BAD_SYMBOL, DECODE_LUT0,
    DECODE_LUT1, DECODE_LUT2, DECODE_LUT3,
};
use crate::base64::model::{all_symbols, decode_spec, decoded_len, octet_at, symbol_group};
use crate::error::CodecError;
use vstd::prelude::*;

verus! {

/// The first `n` bytes that the text stands for.
pub open spec fn octets(text: Seq<u8>, n: int) -> Seq<u8> {
    Seq::new(n as nat, |i: int| octet_at(text, i))
}

/// Table entries of symbols fill separate bits, so that their bitwise OR is
/// their sum; and an entry with every bit set makes the OR have every bit set.
pub proof fn lemma_or_of_entries(e0: u32, e1: u32, e2: u32, e3: u32)
    ensures
        e0 < 64 && e1 < 64 && e2 < 64 && e3 < 64 ==> (e0 | (e1 * 64) as u32 | (e2 * 4096) as u32
            | (e3 * 262144) as u32) == e0 + e1 * 64 + e2 * 4096 + e3 * 262144,
        e0 == 0xffff_ffff || e1 == 0xffff_ffff || e2 == 0xffff_ffff || e3 == 0xffff_ffff ==> (e0
            | e1 | e2 | e3) == 0xffff_ffff,
{
    assert(e0 < 64 && e1 < 64 && e2 < 64 && e3 < 64 ==> (e0 | (e1 * 64) as u32 | (e2 * 4096) as u32
        | (e3 * 262144) as u32) == e0 + e1 * 64 + e2 * 4096 + e3 * 262144) by (bit_vector);
    assert(e0 == 0xffff_ffff || e1 == 0xffff_ffff || e2 == 0xffff_ffff || e3 == 0xffff_ffff ==> (e0
        | e1 | e2 | e3) == 0xffff_ffff) by (bit_vector);
}

/// The OR of the four table entries for the symbols at `at` to `at + 3`, where
/// `count` of them exist: the group's number if all are symbols, and
/// `BAD_SYMBOL` if one is not.
fn lookup_group(s: &[u8], at: usize, count: usize) -> (word: u32)
    requires
        2 <= count <= 4,
        at % 4 == 0,
        at + count <= s.len(),
        count < 4 ==> at + count == s.len(),
    ensures
        (forall|j: int| at <= j < at + count ==> is_symbol(#[trigger] s[j])) ==> word
            == symbol_group(s@, at as int / 4) && word < 16777216,
        (exists|j: int| at <= j < at + count && !is_symbol(#[trigger] s[j])) ==> word
            == BAD_SYMBOL,
{
    let c0: u8 = s[at];
    let c1: u8 = s[at + 1];
    let e0: u32 = DECODE_LUT0[c0 as usize];
    let e1: u32 = DECODE_LUT1[c1 as usize];
    let e2: u32 = if count >= 3 {
        DECODE_LUT2[s[at + 2] as usize]
    } else {
        0
    };
    let e3: u32 = if count >= 4 {
        DECODE_LUT3[s[at + 3] as usize]
    } else {
        0
    };
    proof {
        lemma_decode_luts(c0);
        lemma_decode_luts(c1);
        if count >= 3 {
            lemma_decode_luts(s[at + 2]);
        }
        if count >= 4 {
            lemma_decode_luts(s[at + 3]);
        }
        let q = at as int / 4;
        assert(4 * q == at);
        if forall|j: int| at <= j < at + count ==> is_symbol(#[trigger] s[j]) {
            assert(is_symbol(s[at as int]));
            assert(is_symbol(s[at + 1]));
            let v0 = symbol_value(c0) as u32;
            let v1 = symbol_value(c1) as u32;
            let v2 = if count >= 3 {
                assert(is_symbol(s[at + 2]));
                symbol_value(s[at + 2]) as u32
            } else {
                0u32
            };
            let v3 = if count >= 4 {
                assert(is_symbol(s[at + 3]));
                symbol_value(s[at + 3]) as u32
            } else {
                0u32
            };
            lemma_or_of_entries(v0, v1, v2, v3);
        } else {
            let j = choose|j: int| at <= j < at + count && !is_symbol(#[trigger] s[j]);
            assert(j == at || j == at + 1 || j == at + 2 || j == at + 3);
            lemma_or_of_entries(e0, e1, e2, e3);
        }
    }
    e0 | e1 | e2 | e3
}

/// Decodes the text from the symbol at `start` on, after everything before it
/// has been decoded into `buf` behind the first `mark` bytes, and appends what
/// it decodes. On failure it cuts `buf` back to `mark`.
pub(crate) fn decode_from(s: &[u8], start: usize, mark: usize, buf: &mut Vec<u8>) -> (r: Result<
    (),
    CodecError,
>)
    requires
        start <= s.len(),
        start % 4 == 0,
        s.len() % 4 != 1,
        mark <= old(buf).len(),
        forall|j: int| 0 <= j < start ==> is_symbol(#[trigger] s[j]),
        old(buf)@ == old(buf)@.take(mark as int) + octets(s@, 3 * (start as int / 4)),
    ensures
        match decode_spec(s@) {
            Ok(bytes) => r is Ok && final(buf)@ == old(buf)@.take(mark as int) + bytes,
            Err(e) => r == Err::<(), CodecError>(e) && final(buf)@ == old(buf)@.take(mark as int),
        },
{
    let ghost base = buf@.take(mark as int);
    let len: usize = s.len();
    let mut at: usize = start;
    while len - at >= 4
        invariant
            len == s.len(),
            len % 4 != 1,
            at <= len,
            at % 4 == 0,
            mark <= buf.len(),
            forall|j: int| 0 <= j < at ==> is_symbol(#[trigger] s[j]),
            buf@ == base + octets(s@, 3 * (at as int / 4)),
            base == buf@.take(mark as int),
            base == old(buf)@.take(mark as int),
        decreases len - at,
    {
        let word: u32 = lookup_group(s, at, 4);
        if word == BAD_SYMBOL {
            buf.truncate(mark);
            proof {
                assert(exists|j: int| at <= j < at + 4 && !is_symbol(#[trigger] s[j]));
                assert(!all_symbols(s@));
                assert(buf@ =~= base);
            }
            return Err(CodecError::InvalidSymbol);
        }
        assert(forall|j: int| at <= j < at + 4 ==> is_symbol(#[trigger] s[j]));
        buf.push((word % 256) as u8);
        buf.push((word / 256 % 256) as u8);
        buf.push((word / 65536 % 256) as u8);
        proof {
            let q = at as int / 4;
            assert(octet_at(s@, 3 * q) == (word % 256) as u8);
            assert(octet_at(s@, 3 * q + 1) == (word / 256 % 256) as u8);
            assert(octet_at(s@, 3 * q + 2) == (word / 65536 % 256) as u8);
            assert((at + 4) as int / 4 == q + 1);
            assert(buf@ =~= base + octets(s@, 3 * (q + 1)));
            assert(buf@.take(mark as int) =~= base);
        }
        at += 4;
    }
    let rest: usize = len - at;
    if rest >= 2 {
        let word: u32 = lookup_group(s, at, rest);
        if word == BAD_SYMBOL {
            buf.truncate(mark);
            proof {
                assert(exists|j: int| at <= j < at + rest && !is_symbol(#[trigger] s[j]));
                assert(!all_symbols(s@));
                assert(buf@ =~= base);
            }
            return Err(CodecError::InvalidSymbol);
        }
        assert(forall|j: int| at <= j < at + rest ==> is_symbol(#[trigger] s[j]));
        buf.push((word % 256) as u8);
        if rest == 3 {
            buf.push((word / 256 % 256) as u8);
        }
        proof {
            let q = at as int / 4;
            assert(octet_at(s@, 3 * q) == (word % 256) as u8);
            assert(octet_at(s@, 3 * q + 1) == (word / 256 % 256) as u8);
        }
    }
    proof {
        assert(all_symbols(s@));
        assert(decoded_len(s@.len()) == 3 * (at as int / 4) + if rest >= 2 {
            rest - 1
        } else {
            0
        });
        assert(buf@ =~= base + octets(s@, decoded_len(s@.len()) as int));
    }
    Ok(())
}

/// Decodes unpadded text and appends the bytes to `buf`. On failure `buf` is
/// left as it was.
///
/// Each group of four symbols is looked up in four tables, one for each
/// place, and the entries are joined by a bitwise OR: a byte that is no symbol
/// shows at once in the joined word.
pub fn decode(s: &[u8], buf: &mut Vec<u8>) -> (r: Result<(), CodecError>)
    ensures
        match decode_spec(s@) {
            Ok(bytes) => r is Ok && final(buf)@ == old(buf)@ + bytes,
            Err(e) => r == Err::<(), CodecError>(e) && final(buf)@ == old(buf)@,
        },
{
    if s.len() % 4 == 1 {
        return Err(CodecError::InvalidLength);
    }
    let mark: usize = buf.len();
    proof {
        assert(buf@.take(mark as int) =~= buf@);
        assert(buf@ =~= buf@.take(mark as int) + octets(s@, 0));
    }
    decode_from(s, 0, mark, buf)
}

} // verus!
