//! The legacy container: stored content, or content coded with a table of
//! prefix codes. There is a decoder for it and no encoder.

use crate::error::CodecError;
use std::collections::BTreeMap;
use vstd::arithmetic::div_mod::lemma_multiply_divide_lt;
use vstd::arithmetic::power2::{lemma2_to64, lemma2_to64_rest, lemma_pow2_adds, pow2};
use vstd::prelude::*;
use vstd::slice::{slice_subrange, slice_to_vec};

verus! {

/// The powers of two up to 2^40, for moving bits by multiplying and dividing.
pub const POW2: [u64; 41] = [
    1, 2, 4, 8,
    16, 32, 64, 128,
    256, 512, 1024, 2048,
    4096, 8192, 16384, 32768,
    65536, 131072, 262144, 524288,
    1048576, 2097152, 4194304, 8388608,
    16777216, 33554432, 67108864, 134217728,
    268435456, 536870912, 1073741824, 2147483648,
    4294967296, 8589934592, 17179869184, 34359738368,
    68719476736, 137438953472, 274877906944, 549755813888,
    1099511627776,
];

/// The table holds the powers of two.
pub proof fn lemma_pow2_table(k: nat)
    requires
        k <= 40,
    ensures
        POW2[k as int] == pow2(k),
        0 < pow2(k) <= 0x100_0000_0000,
{
    lemma2_to64();
    lemma2_to64_rest();
}

/// Bits that have been read and not yet used: `count` of them, the first read
/// in the lowest place of the number `bits`.
pub struct BitQueue {
    pub bits: nat,
    pub count: nat,
}

/// A code table: from the length and the bits of a code to its symbol.
pub type CodeMap = Map<(nat, nat), u8>;

/// Where the decoder stands in its input, and the bits it holds.
pub struct Cursor {
    pub pos: nat,
    pub queue: BitQueue,
}

/// The cursor while a table is being read, and the table so far.
pub struct Header {
    pub cursor: Cursor,
    pub table: CodeMap,
}

/// A field of a table entry: how many bits of the queue it takes, terminator
/// left out, and the length and the bits of the code it holds.
pub struct Field {
    pub cut: nat,
    pub len: nat,
    pub code: nat,
}

/// Puts the next byte of the input on top of the queue. More than 32 waiting
/// bits are an error, and so is the end of the input.
pub open spec fn feed_spec(bytes: Seq<u8>, cursor: Cursor) -> Result<Cursor, CodecError> {
    if cursor.queue.count > 32 {
        Err(CodecError::EncodingTooLong)
    } else if cursor.pos >= bytes.len() {
        Err(CodecError::UnexpectedEndOfInput)
    } else {
        Ok(
            Cursor {
                pos: cursor.pos + 1,
                queue: BitQueue {
                    bits: cursor.queue.bits + bytes[cursor.pos as int] as nat * pow2(
                        cursor.queue.count,
                    ),
                    count: cursor.queue.count + 8,
                },
            },
        )
    }
}

/// The queue without its lowest `k` bits.
pub open spec fn drop_bits(queue: BitQueue, k: nat) -> BitQueue {
    BitQueue { bits: queue.bits / pow2(k), count: (queue.count - k) as nat }
}

/// Reads a field from the lowest bits of the queue, having read `cut` bits of
/// it that gave `len` bits of code. Two set bits in a row end the field. Before
/// that, a set bit (which a clear bit follows) is a set bit of the code and a
/// clear bit is a clear bit of the code, the first in the lowest place. Where
/// the queue ends before the field does, there is no field yet.
pub open spec fn scan_field(queue: BitQueue, cut: nat, len: nat, code: nat) -> Option<Field>
    decreases queue.count - cut,
{
    if cut + 2 > queue.count {
        None
    } else if queue.bits / pow2(cut) % 4 == 3 {
        Some(Field { cut, len, code })
    } else if queue.bits / pow2(cut) % 2 == 1 {
        scan_field(queue, cut + 2, len + 1, code + pow2(len))
    } else {
        scan_field(queue, cut + 1, len + 1, code)
    }
}

/// Feeds one byte, and then more for as long as the queue holds no whole
/// field.
pub open spec fn read_field(bytes: Seq<u8>, cursor: Cursor) -> Result<(Cursor, Field), CodecError>
    decreases bytes.len() - cursor.pos,
{
    match feed_spec(bytes, cursor) {
        Err(e) => Err(e),
        Ok(fed) => match scan_field(fed.queue, 0, 0, 0) {
            Some(field) => Ok((fed, field)),
            None => read_field(bytes, fed),
        },
    }
}

/// Reads one entry of the table: the symbol, a byte, and then the field with
/// its code. A code without bits is refused. A later entry for a code takes
/// the place of an earlier one.
pub open spec fn read_entry(bytes: Seq<u8>, header: Header) -> Result<Header, CodecError> {
    match feed_spec(bytes, header.cursor) {
        Err(e) => Err(e),
        Ok(fed) => {
            let symbol = (fed.queue.bits % 256) as u8;
            let after = Cursor { pos: fed.pos, queue: drop_bits(fed.queue, 8) };
            match read_field(bytes, after) {
                Err(e) => Err(e),
                Ok((cursor, field)) => if field.len == 0 {
                    Err(CodecError::InsufficientData)
                } else {
                    Ok(
                        Header {
                            cursor: Cursor {
                                pos: cursor.pos,
                                queue: drop_bits(cursor.queue, field.cut + 2),
                            },
                            table: header.table.insert((field.len, field.code), symbol),
                        },
                    )
                },
            }
        },
    }
}

/// Reads `count` entries of the table, one after the other.
pub open spec fn read_entries(bytes: Seq<u8>, header: Header, count: nat) -> Result<
    Header,
    CodecError,
>
    decreases count,
{
    if count == 0 {
        Ok(header)
    } else {
        match read_entry(bytes, header) {
            Err(e) => Err(e),
            Ok(next) => read_entries(bytes, next, (count - 1) as nat),
        }
    }
}

/// The shortest length from `len` up to the number of waiting bits for which
/// the lowest bits of the queue are a code of the table.
pub open spec fn find_code(table: CodeMap, queue: BitQueue, len: nat) -> Option<nat>
    decreases queue.count + 1 - len,
{
    if len > queue.count {
        None
    } else if table.contains_key((len, queue.bits % pow2(len))) {
        Some(len)
    } else {
        find_code(table, queue, len + 1)
    }
}

/// The shortest length that is tried: seven below the number of waiting bits.
pub open spec fn shortest_tried(queue: BitQueue) -> nat {
    if queue.count >= 7 {
        (queue.count - 7) as nat
    } else {
        0
    }
}

/// Takes symbols off the queue for as long as a code is found, and adds them
/// to `out`.
pub open spec fn drain(table: CodeMap, queue: BitQueue, out: Seq<u8>) -> (BitQueue, Seq<u8>)
    decreases queue.count,
{
    match find_code(table, queue, shortest_tried(queue)) {
        Some(len) => if 0 < len <= queue.count {
            drain(
                table,
                drop_bits(queue, len),
                out.push(table[(len, queue.bits % pow2(len))]),
            )
        } else {
            (queue, out)
        },
        None => (queue, out),
    }
}

/// Decodes the rest of the input: takes off what symbols the queue gives,
/// feeds a byte, and so on until the input has ended. More than 32 waiting
/// bits are an error.
pub open spec fn unpack(bytes: Seq<u8>, table: CodeMap, cursor: Cursor, out: Seq<u8>) -> Result<
    Seq<u8>,
    CodecError,
>
    decreases bytes.len() - cursor.pos,
{
    if cursor.queue.count > 32 {
        Err(CodecError::EncodingTooLong)
    } else {
        let (queue, longer) = drain(table, cursor.queue, out);
        match feed_spec(bytes, Cursor { pos: cursor.pos, queue }) {
            Ok(fed) => unpack(bytes, table, fed, longer),
            Err(_) => Ok(longer),
        }
    }
}

/// What a legacy container holds.
///
/// Its first byte is the tag of the codec. Under tag 1 the rest is the content
/// as it stands. Under tag 3 follow the number of table entries less one, in a
/// byte; the size of the content, in three bytes that are not all zero; the
/// table; and the coded content. The size only announces the content: it
/// does not bound it.
pub open spec fn decompress_spec(bytes: Seq<u8>) -> Result<Seq<u8>, CodecError> {
    if bytes.len() == 0 {
        Err(CodecError::UnknownCodec)
    } else if bytes[0] == 1 {
        Ok(bytes.skip(1))
    } else if bytes[0] != 3 {
        Err(CodecError::UnknownCodec)
    } else if bytes.len() < 5 {
        Err(CodecError::InsufficientData)
    } else if bytes[2] == 0 && bytes[3] == 0 && bytes[4] == 0 {
        Err(CodecError::InsufficientData)
    } else {
        let start = Header {
            cursor: Cursor { pos: 5, queue: BitQueue { bits: 0, count: 0 } },
            table: Map::empty(),
        };
        match read_entries(bytes, start, bytes[1] as nat + 1) {
            Err(e) => Err(e),
            Ok(header) => unpack(bytes, header.table, header.cursor, Seq::empty()),
        }
    }
}


/// The bit queue of the decoder: a number and a count of bits. As the model
/// sees it, it is the `BitQueue` with the same two numbers.
pub struct BitAccumulator {
    pub value: u64,
    pub len: usize,
}

impl View for BitAccumulator {
    type V = BitQueue;

    open spec fn view(&self) -> BitQueue {
        BitQueue { bits: self.value as nat, count: self.len as nat }
    }
}

impl BitAccumulator {
    /// At most 40 bits wait, and the number holds no bit beyond them.
    pub open spec fn wf(&self) -> bool {
        self.len <= 40 && self.value < pow2(self.len as nat)
    }

    /// The empty queue.
    pub fn new() -> (queue: Self)
        ensures
            queue.wf(),
            queue@ == (BitQueue { bits: 0, count: 0 }),
    {
        proof {
            lemma_pow2_table(0);
        }
        BitAccumulator { value: 0, len: 0 }
    }

    /// Puts a byte on top of the waiting bits.
    pub fn push_byte(&mut self, byte: u8)
        requires
            old(self).wf(),
            old(self).len <= 32,
        ensures
            final(self).wf(),
            final(self)@ == (BitQueue {
                bits: old(self)@.bits + byte as nat * pow2(old(self)@.count),
                count: old(self)@.count + 8,
            }),
    {
        proof {
            lemma_pow2_table(self.len as nat);
            lemma_pow2_table(8);
            lemma_pow2_adds(self.len as nat, 8);
            assert(byte as nat * pow2(self.len as nat) <= 255 * pow2(self.len as nat))
                by (nonlinear_arith);
        }
        self.value = self.value + byte as u64 * POW2[self.len];
        self.len = self.len + 8;
    }

    /// Takes the lowest `k` bits away.
    pub fn drop_low(&mut self, k: usize)
        requires
            old(self).wf(),
            k <= old(self).len,
        ensures
            final(self).wf(),
            final(self)@ == drop_bits(old(self)@, k as nat),
    {
        proof {
            lemma_pow2_table(k as nat);
            lemma_pow2_adds(k as nat, (self.len - k) as nat);
            lemma_multiply_divide_lt(
                self.value as int,
                pow2(k as nat) as int,
                pow2((self.len - k) as nat) as int,
            );
        }
        self.value = self.value / POW2[k];
        self.len = self.len - k;
    }

    /// The lowest `k` bits, as a number.
    pub fn low(&self, k: usize) -> (bits: u64)
        requires
            k <= 40,
        ensures
            bits == self@.bits % pow2(k as nat),
            bits < pow2(k as nat),
    {
        proof {
            lemma_pow2_table(k as nat);
        }
        self.value % POW2[k]
    }

    /// The two bits at `at` and above it, as a number below 4.
    pub fn pair(&self, at: usize) -> (bits: u64)
        requires
            at <= 40,
        ensures
            bits == self@.bits / pow2(at as nat) % 4,
    {
        proof {
            lemma_pow2_table(at as nat);
        }
        self.value / POW2[at] % 4
    }
}

/// The place of a code in the exec table: its length above 40 bits that hold
/// the code itself.
pub open spec fn code_key(len: nat, code: nat) -> u64 {
    (len * 0x100_0000_0000 + code) as u64
}

/// The code table of the decoder, keyed by length and code in one number.
pub struct CodeTable {
    pub codes: BTreeMap<u64, u8>,
}

impl View for CodeTable {
    type V = CodeMap;

    open spec fn view(&self) -> CodeMap {
        Map::new(
            |k: (nat, nat)|
                k.0 <= 40 && k.1 < 0x100_0000_0000 && self.codes@.contains_key(code_key(k.0, k.1)),
            |k: (nat, nat)| self.codes@[code_key(k.0, k.1)],
        )
    }
}

impl CodeTable {
    /// The table without entries.
    pub fn new() -> (table: Self)
        ensures
            table@ == Map::<(nat, nat), u8>::empty(),
    {
        let table = CodeTable { codes: BTreeMap::new() };
        assert(table@ =~= Map::<(nat, nat), u8>::empty());
        table
    }

    /// Sets the symbol of a code.
    pub fn insert(&mut self, len: usize, code: u64, symbol: u8)
        requires
            len <= 40,
            code < 0x100_0000_0000,
        ensures
            final(self)@ == old(self)@.insert((len as nat, code as nat), symbol),
    {
        let key: u64 = len as u64 * 0x100_0000_0000 + code;
        self.codes.insert(key, symbol);
        proof {
            assert(key == code_key(len as nat, code as nat));
            assert forall|k: (nat, nat)| k.0 <= 40 && k.1 < 0x100_0000_0000 && code_key(k.0, k.1)
                == key implies k == (len as nat, code as nat) by {}
            assert(self@ =~= old(self)@.insert((len as nat, code as nat), symbol));
        }
    }

    /// The symbol of a code, if the table has the code.
    pub fn get(&self, len: usize, code: u64) -> (symbol: Option<u8>)
        requires
            len <= 40,
            code < 0x100_0000_0000,
        ensures
            symbol == if self@.contains_key((len as nat, code as nat)) {
                Some(self@[(len as nat, code as nat)])
            } else {
                None::<u8>
            },
    {
        let key: u64 = len as u64 * 0x100_0000_0000 + code;
        match self.codes.get(&key) {
            Some(symbol) => Some(*symbol),
            None => None,
        }
    }
}


/// The cursor that an input position and a bit queue make.
pub open spec fn cursor_at(pos: usize, queue: BitAccumulator) -> Cursor {
    Cursor { pos: pos as nat, queue: queue@ }
}

/// Puts the next byte of the input on top of the queue, as `feed_spec` says.
/// On failure nothing is changed.
fn feed(bytes: &[u8], pos: &mut usize, queue: &mut BitAccumulator) -> (r: Result<(), CodecError>)
    requires
        old(queue).wf(),
        *old(pos) <= bytes.len(),
    ensures
        match feed_spec(bytes@, cursor_at(*old(pos), *old(queue))) {
            Ok(fed) => r is Ok && cursor_at(*final(pos), *final(queue)) == fed && final(queue).wf()
                && *final(pos) == *old(pos) + 1 && *final(pos) <= bytes.len(),
            Err(e) => r == Err::<(), CodecError>(e) && *final(pos) == *old(pos) && *final(queue)
                == *old(queue),
        },
{
    if queue.len > 32 {
        return Err(CodecError::EncodingTooLong);
    }
    if *pos >= bytes.len() {
        return Err(CodecError::UnexpectedEndOfInput);
    }
    queue.push_byte(bytes[*pos]);
    *pos = *pos + 1;
    Ok(())
}

/// A field as the decoder holds it.
pub struct FieldBits {
    pub cut: usize,
    pub len: usize,
    pub code: u64,
}

impl View for FieldBits {
    type V = Field;

    open spec fn view(&self) -> Field {
        Field { cut: self.cut as nat, len: self.len as nat, code: self.code as nat }
    }
}

/// Reads a field from the lowest bits of the queue, if a whole field is
/// there.
fn scan(queue: &BitAccumulator) -> (r: Option<FieldBits>)
    requires
        queue.wf(),
    ensures
        match scan_field(queue@, 0, 0, 0) {
            Some(field) => r is Some && r.unwrap()@ == field && field.cut + 2 <= queue.len
                && field.len <= field.cut && field.code < pow2(field.len),
            None => r is None,
        },
{
    let mut cut: usize = 0;
    let mut len: usize = 0;
    let mut code: u64 = 0;
    proof {
        lemma_pow2_table(0);
    }
    while cut + 2 <= queue.len
        invariant
            queue.wf(),
            len <= cut <= queue.len,
            code < pow2(len as nat),
            scan_field(queue@, cut as nat, len as nat, code as nat) == scan_field(queue@, 0, 0, 0),
        decreases queue.len - cut,
    {
        let pair: u64 = queue.pair(cut);
        if pair == 3 {
            return Some(FieldBits { cut, len, code });
        }
        proof {
            lemma_pow2_table(len as nat);
            lemma_pow2_table((len + 1) as nat);
            lemma_pow2_adds(len as nat, 1);
            lemma_pow2_table(1);
        }
        if pair % 2 == 1 {
            code = code + POW2[len];
            cut = cut + 2;
        } else {
            cut = cut + 1;
        }
        len = len + 1;
    }
    None
}

/// Feeds one byte, and then more for as long as the queue holds no whole
/// field; gives the field.
fn take_field(bytes: &[u8], pos: &mut usize, queue: &mut BitAccumulator) -> (r: Result<
    FieldBits,
    CodecError,
>)
    requires
        old(queue).wf(),
        *old(pos) <= bytes.len(),
    ensures
        match read_field(bytes@, cursor_at(*old(pos), *old(queue))) {
            Ok((cursor, field)) => r is Ok && r.unwrap()@ == field && cursor_at(
                *final(pos),
                *final(queue),
            ) == cursor && final(queue).wf() && *final(pos) <= bytes.len() && field.cut + 2
                <= final(queue).len && field.len <= field.cut && field.code < pow2(field.len),
            Err(e) => r == Err::<FieldBits, CodecError>(e),
        },
{
    loop
        invariant
            queue.wf(),
            *pos <= bytes.len(),
            read_field(bytes@, cursor_at(*pos, *queue)) == read_field(
                bytes@,
                cursor_at(*old(pos), *old(queue)),
            ),
        decreases bytes.len() - *pos,
    {
        match feed(bytes, pos, queue) {
            Err(e) => {
                return Err(e);
            },
            Ok(()) => {},
        }
        match scan(queue) {
            Some(field) => {
                return Ok(field);
            },
            None => {},
        }
    }
}

/// Reads one entry of the table, as `read_entry` says.
fn take_entry(
    bytes: &[u8],
    pos: &mut usize,
    queue: &mut BitAccumulator,
    table: &mut CodeTable,
) -> (r: Result<(), CodecError>)
    requires
        old(queue).wf(),
        *old(pos) <= bytes.len(),
    ensures
        match read_entry(
            bytes@,
            Header { cursor: cursor_at(*old(pos), *old(queue)), table: old(table)@ },
        ) {
            Ok(header) => r is Ok && cursor_at(*final(pos), *final(queue)) == header.cursor
                && final(table)@ == header.table && final(queue).wf() && *final(pos)
                <= bytes.len(),
            Err(e) => r == Err::<(), CodecError>(e),
        },
{
    match feed(bytes, pos, queue) {
        Err(e) => {
            return Err(e);
        },
        Ok(()) => {},
    }
    let low: u64 = queue.low(8);
    proof {
        lemma_pow2_table(8);
    }
    let symbol: u8 = low as u8;
    queue.drop_low(8);
    let field: FieldBits = match take_field(bytes, pos, queue) {
        Err(e) => {
            return Err(e);
        },
        Ok(field) => field,
    };
    if field.len == 0 {
        return Err(CodecError::InsufficientData);
    }
    proof {
        lemma_pow2_table(field.len as nat);
    }
    table.insert(field.len, field.code, symbol);
    queue.drop_low(field.cut + 2);
    Ok(())
}

/// The shortest code that the lowest bits of the queue hold, among the
/// lengths that are tried, and its symbol.
fn find(table: &CodeTable, queue: &BitAccumulator) -> (r: Option<(usize, u8)>)
    requires
        queue.wf(),
    ensures
        match find_code(table@, queue@, shortest_tried(queue@)) {
            Some(len) => r == Some((len as usize, table@[(len, queue@.bits % pow2(len))]))
                && len <= queue.len,
            None => r is None,
        },
{
    let count: usize = queue.len;
    let mut len: usize = if count >= 7 {
        count - 7
    } else {
        0
    };
    while len <= count
        invariant
            queue.wf(),
            count == queue.len,
            len <= count + 1,
            find_code(table@, queue@, len as nat) == find_code(
                table@,
                queue@,
                shortest_tried(queue@),
            ),
        decreases count + 1 - len,
    {
        let code: u64 = queue.low(len);
        proof {
            lemma_pow2_table(len as nat);
        }
        match table.get(len, code) {
            Some(symbol) => {
                return Some((len, symbol));
            },
            None => {},
        }
        len = len + 1;
    }
    None
}

/// Takes symbols off the queue for as long as a code is found, and appends
/// them to `out`.
fn drain_queue(table: &CodeTable, queue: &mut BitAccumulator, out: &mut Vec<u8>)
    requires
        old(queue).wf(),
    ensures
        (final(queue)@, final(out)@) == drain(table@, old(queue)@, old(out)@),
        final(queue).wf(),
        final(queue).len <= old(queue).len,
{
    loop
        invariant
            queue.wf(),
            queue.len <= old(queue).len,
            drain(table@, queue@, out@) == drain(table@, old(queue)@, old(out)@),
        decreases queue.len,
    {
        match find(table, queue) {
            Some((len, symbol)) => {
                if len == 0 {
                    return ;
                }
                out.push(symbol);
                queue.drop_low(len);
            },
            None => {
                return ;
            },
        }
    }
}

/// Unpacks a legacy container: the content that it holds, or why it holds
/// none.
///
/// The tag is looked at first, so a stored container of any length gives its
/// content. A coded container shorter than its header, or one that announces
/// no content, or one whose table has a code without bits, is
/// `InsufficientData`; one that ends inside its table is
/// `UnexpectedEndOfInput`; one that leaves more than 32 bits waiting is
/// `EncodingTooLong`.
pub fn decompress(bytes: &[u8]) -> (r: Result<Vec<u8>, CodecError>)
    ensures
        match decompress_spec(bytes@) {
            Ok(content) => r is Ok && r.unwrap()@ == content,
            Err(e) => r == Err::<Vec<u8>, CodecError>(e),
        },
{
    let len: usize = bytes.len();
    if len == 0 {
        return Err(CodecError::UnknownCodec);
    }
    if bytes[0] == 1 {
        let content: Vec<u8> = slice_to_vec(slice_subrange(bytes, 1, len));
        assert(content@ =~= bytes@.skip(1));
        return Ok(content);
    }
    if bytes[0] != 3 {
        return Err(CodecError::UnknownCodec);
    }
    if len < 5 {
        return Err(CodecError::InsufficientData);
    }
    let num_symbols: usize = bytes[1] as usize + 1;
    let announced_size: usize = bytes[2] as usize + 256 * (bytes[3] as usize) + 65536
        * (bytes[4] as usize);
    if announced_size == 0 {
        return Err(CodecError::InsufficientData);
    }
    let mut table: CodeTable = CodeTable::new();
    let mut queue: BitAccumulator = BitAccumulator::new();
    let mut pos: usize = 5;
    let mut entry: usize = 0;
    while entry < num_symbols
        invariant
            entry <= num_symbols,
            queue.wf(),
            pos <= bytes.len(),
            decompress_spec(bytes@) == match read_entries(
                bytes@,
                Header { cursor: cursor_at(pos, queue), table: table@ },
                (num_symbols - entry) as nat,
            ) {
                Err(e) => Err::<Seq<u8>, CodecError>(e),
                Ok(header) => unpack(bytes@, header.table, header.cursor, Seq::<u8>::empty()),
            },
        decreases num_symbols - entry,
    {
        match take_entry(bytes, &mut pos, &mut queue, &mut table) {
            Err(e) => {
                return Err(e);
            },
            Ok(()) => {},
        }
        entry = entry + 1;
    }
    let mut result: Vec<u8> = Vec::with_capacity(announced_size);
    while queue.len <= 32
        invariant
            queue.wf(),
            pos <= bytes.len(),
            decompress_spec(bytes@) == unpack(bytes@, table@, cursor_at(pos, queue), result@),
        decreases bytes.len() - pos,
    {
        drain_queue(&table, &mut queue, &mut result);
        match feed(bytes, &mut pos, &mut queue) {
            Ok(()) => {},
            Err(_) => {
                return Ok(result);
            },
        }
    }
    Err(CodecError::EncodingTooLong)
}


/// A stored container gives its content as it stands, whatever the content.
pub proof fn lemma_stored_container(content: Seq<u8>)
    ensures
        decompress_spec(seq![1u8] + content) == Ok::<Seq<u8>, CodecError>(content),
{
    assert((seq![1u8] + content).skip(1) =~= content);
}

/// A coded container of fewer than five bytes is refused as too short.
pub proof fn lemma_short_coded_container(bytes: Seq<u8>)
    requires
        0 < bytes.len() < 5,
        bytes[0] == 3,
    ensures
        decompress_spec(bytes) == Err::<Seq<u8>, CodecError>(CodecError::InsufficientData),
{
}

} // verus!
