//! The wide decoding kernels: sixteen or thirty-two symbols to a step, every
//! lane of a step handled in the same way.

use crate::base64::byte_map::{is_symbol, symbol_value};
use crate::base64::decode::scalar::{decode_from, octets};
use crate::base64::model::{all_symbols, decode_spec, octet_at, symbol_group};
use crate::error::CodecError;
use vstd::prelude::*;

verus! {

/// What a lane holds if its byte was no symbol.
pub const BAD_LANE: u8 = 0xff;

/// The value of one lane, found by the range that its byte lies in and not by
/// a table: the value of a symbol, and `BAD_LANE` for any other byte.
pub fn lane_value(c: u8) -> (v: u8)
    ensures
        is_symbol(c) ==> v == symbol_value(c) && v < 64,
        !is_symbol(c) ==> v == BAD_LANE,
{
    if 0x30 <= c && c <= 0x39 {
        c - 0x30
    } else if 0x61 <= c && c <= 0x7a {
        c - 0x61 + 10
    } else if 0x41 <= c && c <= 0x5a {
        c - 0x41 + 36
    } else if c == 0x28 {
        62
    } else if c == 0x29 {
        63
    } else {
        BAD_LANE
    }
}

/// The OR of lanes stays below 64 exactly as long as every lane is below 64.
proof fn lemma_flags(flags: u8, v: u8)
    ensures
        (flags | v) < 64 <==> flags < 64 && v < 64,
{
    assert((flags | v) < 64 <==> flags < 64 && v < 64) by (bit_vector);
}

/// Loads the values of the `width` bytes from `at` on into `lanes`, and says
/// whether all of them are symbols.
fn load_block(s: &[u8], at: usize, width: usize, lanes: &mut [u8; 32]) -> (ok: bool)
    requires
        width <= 32,
        at + width <= s.len(),
    ensures
        ok == (forall|j: int| at <= j < at + width ==> is_symbol(#[trigger] s[j])),
        ok ==> forall|k: int|
            0 <= k < width ==> (#[trigger] final(lanes)[k]) == symbol_value(s[at + k]),
{
    let mut flags: u8 = 0;
    let mut lane: usize = 0;
    while lane < width
        invariant
            lane <= width <= 32,
            at + width <= s.len(),
            flags < 64 <==> (forall|j: int| at <= j < at + lane ==> is_symbol(#[trigger] s[j])),
            forall|k: int|
                0 <= k < lane && is_symbol(s[at + k]) ==> (#[trigger] lanes[k]) == symbol_value(
                    s[at + k],
                ),
        decreases width - lane,
    {
        let v: u8 = lane_value(s[at + lane]);
        proof {
            lemma_flags(flags, v);
            if (flags | v) < 64 {
                assert forall|j: int| at <= j < at + lane + 1 implies is_symbol(
                    #[trigger] s[j],
                ) by {
                    if j == at + lane {
                    }
                }
            } else if flags < 64 {
                assert(!is_symbol(s[at + lane]));
            }
        }
        flags = flags | v;
        lanes[lane] = v;
        lane += 1;
    }
    flags < 64
}

/// Decodes with `width` lanes to a step and appends the bytes to `buf`. A step
/// loads all its lanes and tests them together before it packs any; what
/// is left after the last full step goes to the scalar kernel.
fn decode_blocks(s: &[u8], buf: &mut Vec<u8>, width: usize) -> (r: Result<(), CodecError>)
    requires
        width == 16 || width == 32,
    ensures
        match decode_spec(s@) {
            Ok(bytes) => r is Ok && final(buf)@ == old(buf)@ + bytes,
            Err(e) => r == Err::<(), CodecError>(e) && final(buf)@ == old(buf)@,
        },
{
    let len: usize = s.len();
    if len % 4 == 1 {
        return Err(CodecError::InvalidLength);
    }
    let mark: usize = buf.len();
    let ghost base = buf@;
    let mut lanes: [u8; 32] = [0u8; 32];
    let mut at: usize = 0;
    proof {
        assert(buf@ =~= base + octets(s@, 0));
    }
    while len - at >= width
        invariant
            width == 16 || width == 32,
            len == s.len(),
            len % 4 != 1,
            at <= len,
            at % 4 == 0,
            mark == base.len(),
            base == old(buf)@,
            forall|j: int| 0 <= j < at ==> is_symbol(#[trigger] s[j]),
            buf@ == base + octets(s@, 3 * (at as int / 4)),
        decreases len - at,
    {
        let ok: bool = load_block(s, at, width, &mut lanes);
        if !ok {
            buf.truncate(mark);
            proof {
                assert(!all_symbols(s@));
                assert(buf@ =~= base);
            }
            return Err(CodecError::InvalidSymbol);
        }
        let mut group: usize = 0;
        while group < width / 4
            invariant
                width == 16 || width == 32,
                group <= width / 4,
                at % 4 == 0,
                at + width <= s.len(),
                forall|j: int| 0 <= j < at + width ==> is_symbol(#[trigger] s[j]),
                forall|k: int|
                    0 <= k < width ==> (#[trigger] lanes[k]) == symbol_value(s[at + k]),
                buf@ == base + octets(s@, 3 * (at as int / 4 + group)),
            decreases width / 4 - group,
        {
            let v0: u32 = lanes[4 * group] as u32;
            let v1: u32 = lanes[4 * group + 1] as u32;
            let v2: u32 = lanes[4 * group + 2] as u32;
            let v3: u32 = lanes[4 * group + 3] as u32;
            proof {
                assert(is_symbol(s[at + 4 * group]));
                assert(is_symbol(s[at + 4 * group + 1]));
                assert(is_symbol(s[at + 4 * group + 2]));
                assert(is_symbol(s[at + 4 * group + 3]));
            }
            let low: u32 = v0 + 64 * v1;
            let high: u32 = v2 + 64 * v3;
            let word: u32 = low + 4096 * high;
            buf.push((word % 256) as u8);
            buf.push((word / 256 % 256) as u8);
            buf.push((word / 65536 % 256) as u8);
            proof {
                let q = at as int / 4 + group;
                assert(4 * q == at + 4 * group);
                assert(word == symbol_group(s@, q));
                assert(octet_at(s@, 3 * q) == (word % 256) as u8);
                assert(octet_at(s@, 3 * q + 1) == (word / 256 % 256) as u8);
                assert(octet_at(s@, 3 * q + 2) == (word / 65536 % 256) as u8);
                assert(buf@ =~= base + octets(s@, 3 * (q + 1)));
            }
            group += 1;
        }
        proof {
            assert((at + width) as int / 4 == at as int / 4 + width / 4);
        }
        at += width;
    }
    proof {
        assert(buf@.take(mark as int) =~= base);
    }
    decode_from(s, at, mark, buf)
}

/// Decodes unpadded text sixteen symbols to a step, the width of a 128-bit
/// register, and appends the bytes to `buf`. It gives what the scalar kernel
/// gives, and on failure leaves `buf` as it was.
pub fn decode16(s: &[u8], buf: &mut Vec<u8>) -> (r: Result<(), CodecError>)
    ensures
        match decode_spec(s@) {
            Ok(bytes) => r is Ok && final(buf)@ == old(buf)@ + bytes,
            Err(e) => r == Err::<(), CodecError>(e) && final(buf)@ == old(buf)@,
        },
{
    decode_blocks(s, buf, 16)
}

/// Decodes unpadded text thirty-two symbols to a step, the width of a 256-bit
/// register, and appends the bytes to `buf`. It gives what the scalar kernel
/// gives, and on failure leaves `buf` as it was.
pub fn decode32(s: &[u8], buf: &mut Vec<u8>) -> (r: Result<(), CodecError>)
    ensures
        match decode_spec(s@) {
            Ok(bytes) => r is Ok && final(buf)@ == old(buf)@ + bytes,
            Err(e) => r == Err::<(), CodecError>(e) && final(buf)@ == old(buf)@,
        },
{
    decode_blocks(s, buf, 32)
}

} // verus!
