//! The decoders of the two oldest forms of an export string, which read
//! printable text leniently.

pub mod legacy;
pub mod modern;

use crate::base64::byte_map::{lenient_value, lookup_map, ByteMap};
use vstd::prelude::*;

verus! {

/// The value of the symbol at `j`, read leniently: 0 for a byte that is no
/// symbol, and 0 where the text has ended.
pub open spec fn lenient_or_zero(text: Seq<u8>, j: int) -> int {
    if 0 <= j < text.len() {
        lenient_value(text[j])
    } else {
        0
    }
}

/// The symbols `4q` to `4q + 3`, read leniently, as one 24-bit number, the
/// first symbol in the lowest place.
pub open spec fn lenient_group(text: Seq<u8>, q: int) -> int {
    lenient_or_zero(text, 4 * q) + 64 * lenient_or_zero(text, 4 * q + 1) + 4096 * lenient_or_zero(
        text,
        4 * q + 2,
    ) + 262144 * lenient_or_zero(text, 4 * q + 3)
}

/// The byte number `i` that the text stands for when it is read leniently.
pub open spec fn lenient_octet_at(text: Seq<u8>, i: int) -> u8 {
    let word = lenient_group(text, i / 3);
    let place = i % 3;
    if place == 0 {
        (word % 256) as u8
    } else if place == 1 {
        (word / 256 % 256) as u8
    } else {
        (word / 65536 % 256) as u8
    }
}

/// The bytes that the first `count` symbols of the text stand for when they
/// are read leniently: one byte for every eight bits, rounded down.
pub open spec fn lenient_octets(text: Seq<u8>, count: nat) -> Seq<u8> {
    Seq::new((3 * count) / 4, |i: int| lenient_octet_at(text.take(count as int), i))
}

/// The first `n` bytes that the text stands for when it is read leniently.
pub open spec fn lenient_prefix(text: Seq<u8>, n: int) -> Seq<u8> {
    Seq::new(n as nat, |i: int| lenient_octet_at(text, i))
}

/// The number that the symbols from `at` on make, `rest` of them being there.
fn lookup_group(map: &ByteMap, s: &[u8], at: usize, rest: usize, Ghost(text): Ghost<Seq<u8>>) -> (word:
    u32)
    requires
        1 <= rest <= 4,
        at % 4 == 0,
        at + rest <= s.len(),
        text.len() <= s.len(),
        text == s@.take(text.len() as int),
        rest < 4 ==> at + rest == text.len(),
        rest == 4 ==> at + rest <= text.len(),
        forall|c: u8| #![auto] map.0[c as int] == lenient_value(c),
    ensures
        word == lenient_group(text, at as int / 4),
        word < 16777216,
{
    let v0: u32 = *map.get(s[at]) as u32;
    let v1: u32 = if rest > 1 {
        *map.get(s[at + 1]) as u32
    } else {
        0
    };
    let v2: u32 = if rest > 2 {
        *map.get(s[at + 2]) as u32
    } else {
        0
    };
    let v3: u32 = if rest > 3 {
        *map.get(s[at + 3]) as u32
    } else {
        0
    };
    proof {
        let q = at as int / 4;
        assert(4 * q == at);
        assert(lenient_or_zero(text, 4 * q) == v0);
        assert(lenient_or_zero(text, 4 * q + 1) == v1);
        assert(lenient_or_zero(text, 4 * q + 2) == v2);
        assert(lenient_or_zero(text, 4 * q + 3) == v3);
    }
    v0 + 64 * v1 + 4096 * v2 + 262144 * v3
}

/// How many symbols are decoded when `count` are asked for of a text of `len`
/// symbols: no more than there are.
pub open spec fn at_most(count: nat, len: nat) -> nat {
    if count <= len {
        count
    } else {
        len
    }
}

/// Decodes the first `count` symbols of the text leniently, or all of it if it
/// has fewer: a byte that is no symbol counts as the symbol of the value 0,
/// and symbols that do not fill a byte are dropped.
pub fn decode_symbols(s: &[u8], count: usize) -> (result: Vec<u8>)
    ensures
        result@ == lenient_octets(s@, at_most(count as nat, s@.len())),
{
    let count: usize = if count <= s.len() {
        count
    } else {
        s.len()
    };
    let map: ByteMap = lookup_map();
    let ghost text = s@.take(count as int);
    let mut result: Vec<u8> = Vec::with_capacity(count / 4 * 3 + 2);
    let mut at: usize = 0;
    assert(result@ =~= lenient_prefix(text, 0));
    while count - at >= 4
        invariant
            at <= count <= s.len(),
            at % 4 == 0,
            text == s@.take(count as int),
            forall|c: u8| #![auto] map.0[c as int] == lenient_value(c),
            result@ == lenient_prefix(text, 3 * (at as int / 4)),
        decreases count - at,
    {
        let word: u32 = lookup_group(&map, s, at, 4, Ghost(text));
        result.push((word % 256) as u8);
        result.push((word / 256 % 256) as u8);
        result.push((word / 65536 % 256) as u8);
        proof {
            let q = at as int / 4;
            assert(lenient_octet_at(text, 3 * q) == (word % 256) as u8);
            assert(lenient_octet_at(text, 3 * q + 1) == (word / 256 % 256) as u8);
            assert(lenient_octet_at(text, 3 * q + 2) == (word / 65536 % 256) as u8);
            assert((at + 4) as int / 4 == q + 1);
            assert(result@ =~= lenient_prefix(text, 3 * (q + 1)));
        }
        at = at + 4;
    }
    let rest: usize = count - at;
    if rest >= 2 {
        let word: u32 = lookup_group(&map, s, at, rest, Ghost(text));
        result.push((word % 256) as u8);
        if rest == 3 {
            result.push((word / 256 % 256) as u8);
        }
        proof {
            let q = at as int / 4;
            assert(lenient_octet_at(text, 3 * q) == (word % 256) as u8);
            assert(lenient_octet_at(text, 3 * q + 1) == (word / 256 % 256) as u8);
        }
    }
    proof {
        assert((3 * count) / 4 == 3 * (at as int / 4) + if rest >= 2 {
            rest - 1
        } else {
            0
        });
        assert(result@ =~= lenient_octets(s@, count as nat));
    }
    result
}

} // verus!
