//! The scalar encoding kernel: one group of three bytes to a step, by table
//! lookups.

use crate::base64::byte_map::{encode_map, symbol_of, ByteMap};
use crate::base64::model::{byte_group, encode_spec, encoded_len, sextet_at};
use vstd::prelude::*;

verus! {

/// The first `n` symbols of the encoding of `data`.
pub open spec fn symbols(data: Seq<u8>, n: int) -> Seq<u8> {
    Seq::new(n as nat, |j: int| symbol_of(sextet_at(data, j)))
}

/// Reducing a number to a byte does not change its low six bits.
proof fn lemma_low_six_bits(x: int)
    requires
        0 <= x,
    ensures
        x % 256 % 64 == x % 64,
{
}

/// The symbol of the low six bits of `x`, looked up by the low byte of `x`.
fn lookup(map: &ByteMap, x: u32) -> (c: u8)
    requires
        forall|b: u8| #![auto] map.0[b as int] == symbol_of(b as int % 64),
    ensures
        c == symbol_of(x as int % 64),
{
    proof {
        lemma_low_six_bits(x as int);
    }
    *map.get((x % 256) as u8)
}

/// Encodes the bytes from `start` on, after everything before them has been
/// encoded at the end of `buf`, and appends the symbols.
pub(crate) fn encode_from(data: &[u8], start: usize, buf: &mut Vec<u8>)
    requires
        start <= data.len(),
        start % 3 == 0,
        old(buf)@.len() >= 4 * (start as int / 3),
        old(buf)@.skip(old(buf)@.len() - 4 * (start as int / 3)) == symbols(
            data@,
            4 * (start as int / 3),
        ),
    ensures
        final(buf)@ == old(buf)@.take(old(buf)@.len() - 4 * (start as int / 3)) + encode_spec(
            data@,
        ),
{
    let map: ByteMap = encode_map();
    let ghost base = buf@.take(buf@.len() - 4 * (start as int / 3));
    let len: usize = data.len();
    let mut at: usize = start;
    proof {
        assert(buf@ =~= base + symbols(data@, 4 * (start as int / 3)));
    }
    while len - at >= 3
        invariant
            len == data.len(),
            at <= len,
            at % 3 == 0,
            forall|b: u8| #![auto] map.0[b as int] == symbol_of(b as int % 64),
            buf@ == base + symbols(data@, 4 * (at as int / 3)),
        decreases len - at,
    {
        let word: u32 = data[at] as u32 + 256 * (data[at + 1] as u32) + 65536 * (data[at + 2] as u32);
        buf.push(lookup(&map, word));
        buf.push(lookup(&map, word / 64));
        buf.push(lookup(&map, word / 4096));
        buf.push(lookup(&map, word / 262144));
        proof {
            let q = at as int / 3;
            assert(3 * q == at);
            assert(word == byte_group(data@, q));
            assert(sextet_at(data@, 4 * q) == word % 64);
            assert(sextet_at(data@, 4 * q + 1) == word / 64 % 64);
            assert(sextet_at(data@, 4 * q + 2) == word / 4096 % 64);
            assert(sextet_at(data@, 4 * q + 3) == word / 262144 % 64);
            assert((at + 3) as int / 3 == q + 1);
            assert(buf@ =~= base + symbols(data@, 4 * (q + 1)));
        }
        at += 3;
    }
    let rest: usize = len - at;
    if rest > 0 {
        let word: u32 = if rest == 2 {
            data[at] as u32 + 256 * (data[at + 1] as u32)
        } else {
            data[at] as u32
        };
        buf.push(lookup(&map, word));
        buf.push(lookup(&map, word / 64));
        if rest == 2 {
            buf.push(lookup(&map, word / 4096));
        }
        proof {
            let q = at as int / 3;
            assert(3 * q == at);
            assert(word == byte_group(data@, q));
            assert(sextet_at(data@, 4 * q) == word % 64);
            assert(sextet_at(data@, 4 * q + 1) == word / 64 % 64);
            assert(sextet_at(data@, 4 * q + 2) == word / 4096 % 64);
        }
    }
    proof {
        assert(encoded_len(data@.len()) == 4 * (at as int / 3) + if rest > 0 {
            rest + 1
        } else {
            0
        });
        assert(buf@ =~= base + encode_spec(data@));
    }
}

/// Encodes the bytes as unpadded text and appends the symbols to `buf`.
///
/// Each group of three bytes is taken as a 24-bit word and split into four
/// 6-bit digits, each of which is looked up in the table. A last group of one
/// or two bytes gives two or three symbols.
pub fn encode(data: &[u8], buf: &mut Vec<u8>)
    ensures
        final(buf)@ == old(buf)@ + encode_spec(data@),
{
    proof {
        assert(buf@.skip(buf@.len() as int) =~= symbols(data@, 0));
        assert(buf@.take(buf@.len() as int) =~= buf@);
    }
    encode_from(data, 0, buf)
}

} // verus!
