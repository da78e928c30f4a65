//! The wide encoding kernels: sixteen or thirty-two symbols to a step, every
//! lane of a step handled in the same way.

use crate::base64::byte_map::symbol_of;
use crate::base64::encode::scalar::{encode_from, symbols};
use crate::base64::model::{byte_group, encode_spec, sextet_at};
use vstd::prelude::*;

verus! {

/// The symbol of one lane, found by the range that its value lies in and not
/// by a table.
fn lane_symbol(v: u8) -> (c: u8)
    requires
        v < 64,
    ensures
        c == symbol_of(v as int),
{
    if v < 10 {
        v + 0x30
    } else if v < 36 {
        v + 0x57
    } else if v < 62 {
        v + 0x1d
    } else {
        v - 22
    }
}

/// Encodes with `width` lanes to a step and appends the symbols to `buf`. A
/// step spreads three quarters of `width` bytes over its lanes and turns
/// every lane into its symbol in the same way; it is taken only while `width`
/// bytes are left to read. What is left after the last step goes to the scalar kernel.
fn encode_blocks(data: &[u8], buf: &mut Vec<u8>, width: usize)
    requires
        width == 16 || width == 32,
    ensures
        final(buf)@ == old(buf)@ + encode_spec(data@),
{
    let len: usize = data.len();
    let ghost base = buf@;
    let mut lanes: [u8; 32] = [0u8; 32];
    let mut at: usize = 0;
    proof {
        assert(buf@ =~= base + symbols(data@, 0));
    }
    while len - at >= width
        invariant
            width == 16 || width == 32,
            len == data.len(),
            at <= len,
            at % 3 == 0,
            base == old(buf)@,
            buf@ == base + symbols(data@, 4 * (at as int / 3)),
        decreases len - at,
    {
        let mut group: usize = 0;
        while group < width / 4
            invariant
                width == 16 || width == 32,
                group <= width / 4,
                at % 3 == 0,
                at + width <= data.len(),
                forall|k: int|
                    0 <= k < 4 * group ==> (#[trigger] lanes[k]) == sextet_at(
                        data@,
                        4 * (at as int / 3) + k,
                    ),
            decreases width / 4 - group,
        {
            let from: usize = at + 3 * group;
            let word: u32 = data[from] as u32 + 256 * (data[from + 1] as u32) + 65536 * (data[from
                + 2] as u32);
            let ghost before = lanes@;
            lanes[4 * group] = (word % 64) as u8;
            lanes[4 * group + 1] = (word / 64 % 64) as u8;
            lanes[4 * group + 2] = (word / 4096 % 64) as u8;
            lanes[4 * group + 3] = (word / 262144 % 64) as u8;
            proof {
                let q = at as int / 3 + group;
                assert(3 * q == from);
                assert(word == byte_group(data@, q));
                assert forall|k: int| 0 <= k < 4 * (group + 1) implies (#[trigger] lanes[k])
                    == sextet_at(data@, 4 * (at as int / 3) + k) by {
                    if k < 4 * group {
                        assert(lanes[k] == before[k]);
                    } else {
                        assert((4 * (at as int / 3) + k) / 4 == q);
                    }
                }
            }
            group += 1;
        }
        let mut lane: usize = 0;
        while lane < width
            invariant
                width == 16 || width == 32,
                lane <= width,
                forall|k: int|
                    0 <= k < width ==> (#[trigger] lanes[k]) == sextet_at(
                        data@,
                        4 * (at as int / 3) + k,
                    ),
                buf@ == base + symbols(data@, 4 * (at as int / 3) + lane),
            decreases width - lane,
        {
            let v: u8 = lanes[lane];
            assert(v == sextet_at(data@, 4 * (at as int / 3) + lane));
            buf.push(lane_symbol(v));
            proof {
                assert(buf@ =~= base + symbols(data@, 4 * (at as int / 3) + lane + 1));
            }
            lane += 1;
        }
        proof {
            assert((at + 3 * (width / 4)) as int / 3 == at as int / 3 + width / 4);
        }
        at += 3 * (width / 4);
    }
    proof {
        let done = 4 * (at as int / 3);
        assert(buf@.skip(buf@.len() - done) =~= symbols(data@, done));
        assert(buf@.take(buf@.len() - done) =~= base);
    }
    encode_from(data, at, buf)
}

/// Encodes the bytes sixteen symbols to a step, the width of a 128-bit
/// register, and appends the symbols to `buf`. It gives what the scalar kernel
/// gives.
pub fn encode16(data: &[u8], buf: &mut Vec<u8>)
    ensures
        final(buf)@ == old(buf)@ + encode_spec(data@),
{
    encode_blocks(data, buf, 16)
}

/// Encodes the bytes thirty-two symbols to a step, the width of a 256-bit
/// register, and appends the symbols to `buf`. It gives what the scalar kernel
/// gives.
pub fn encode32(data: &[u8], buf: &mut Vec<u8>)
    ensures
        final(buf)@ == old(buf)@ + encode_spec(data@),
{
    encode_blocks(data, buf, 32)
}

} // verus!
