//! What encoding and decoding mean, and the proof that decoding undoes
//! encoding.

use crate::base64::byte_map::{is_symbol, lemma_symbol_of_value, symbol_of, symbol_value};
use crate::error::CodecError;
use vstd::prelude::*;

verus! {

/// How many symbols encode `n` bytes: one for every six bits, rounded up.
pub open spec fn encoded_len(n: nat) -> nat {
    (4 * n + 2) / 3
}

/// How many bytes `m` symbols decode to: one for every eight bits, rounded
/// down.
pub open spec fn decoded_len(m: nat) -> nat {
    (3 * m) / 4
}

/// The byte at `i`, and 0 where the data has ended.
pub open spec fn byte_or_zero(data: Seq<u8>, i: int) -> int {
    if 0 <= i < data.len() {
        data[i] as int
    } else {
        0
    }
}

/// The bytes `3q`, `3q + 1` and `3q + 2` as one 24-bit number, the first byte
/// in the lowest place.
pub open spec fn byte_group(data: Seq<u8>, q: int) -> int {
    byte_or_zero(data, 3 * q) + 256 * byte_or_zero(data, 3 * q + 1) + 65536 * byte_or_zero(
        data,
        3 * q + 2,
    )
}

/// The 6-bit digit number `j` of the data: four of them to each group of three
/// bytes, the lowest first.
pub open spec fn sextet_at(data: Seq<u8>, j: int) -> int {
    let word = byte_group(data, j / 4);
    let place = j % 4;
    if place == 0 {
        word % 64
    } else if place == 1 {
        word / 64 % 64
    } else if place == 2 {
        word / 4096 % 64
    } else {
        word / 262144 % 64
    }
}

/// The text that encodes `data`: the symbols of its 6-bit digits. A last
/// group of one or two bytes gives two or three symbols, the missing bits
/// being zero.
pub open spec fn encode_spec(data: Seq<u8>) -> Seq<u8> {
    Seq::new(encoded_len(data.len()), |j: int| symbol_of(sextet_at(data, j)))
}

/// The value of the symbol at `j`, and 0 where the text has ended.
pub open spec fn value_or_zero(text: Seq<u8>, j: int) -> int {
    if 0 <= j < text.len() {
        symbol_value(text[j])
    } else {
        0
    }
}

/// The symbols `4q` to `4q + 3` as one 24-bit number, the first symbol in the
/// lowest place.
pub open spec fn symbol_group(text: Seq<u8>, q: int) -> int {
    value_or_zero(text, 4 * q) + 64 * value_or_zero(text, 4 * q + 1) + 4096 * value_or_zero(
        text,
        4 * q + 2,
    ) + 262144 * value_or_zero(text, 4 * q + 3)
}

/// The byte number `i` that the text stands for: three of them to each group
/// of four symbols, the lowest first.
pub open spec fn octet_at(text: Seq<u8>, i: int) -> u8 {
    let word = symbol_group(text, i / 3);
    let place = i % 3;
    if place == 0 {
        (word % 256) as u8
    } else if place == 1 {
        (word / 256 % 256) as u8
    } else {
        (word / 65536 % 256) as u8
    }
}

/// Whether every byte of the text is a symbol of the alphabet.
pub open spec fn all_symbols(text: Seq<u8>) -> bool {
    forall|j: int| 0 <= j < text.len() ==> is_symbol(#[trigger] text[j])
}

/// The bytes that the unpadded text stands for.
///
/// A text that leaves one symbol over after groups of four has no decoding:
/// six bits make no byte. Otherwise every byte of it must be a symbol. A last
/// group of two or three symbols gives one or two bytes; its highest bits are
/// dropped.
pub open spec fn decode_spec(text: Seq<u8>) -> Result<Seq<u8>, CodecError> {
    if text.len() % 4 == 1 {
        Err(CodecError::InvalidLength)
    } else if !all_symbols(text) {
        Err(CodecError::InvalidSymbol)
    } else {
        Ok(Seq::new(decoded_len(text.len()), |i: int| octet_at(text, i)))
    }
}

/// Text that leaves one symbol over after groups of four is refused for its
/// length, whatever it holds; any other text with a byte outside the alphabet
/// is refused for that byte.
pub proof fn lemma_rejected_text(text: Seq<u8>)
    ensures
        text.len() % 4 == 1 ==> decode_spec(text) == Err::<Seq<u8>, CodecError>(
            CodecError::InvalidLength,
        ),
        text.len() % 4 != 1 && (exists|j: int| 0 <= j < text.len() && !is_symbol(#[trigger] text[j]))
            ==> decode_spec(text) == Err::<Seq<u8>, CodecError>(CodecError::InvalidSymbol),
        text.len() % 4 != 1 && all_symbols(text) ==> decode_spec(text) is Ok,
{
}

/// The symbols of an encoding give its 6-bit digits back, and past its end
/// the digits are zero.
pub proof fn lemma_encoded_values(data: Seq<u8>, j: int)
    requires
        0 <= j,
    ensures
        0 <= sextet_at(data, j) < 64,
        value_or_zero(encode_spec(data), j) == sextet_at(data, j),
{
    lemma_symbol_of_value(sextet_at(data, j));
}

/// A number below 2^24 is the sum of its four digits to the base 64.
pub proof fn lemma_digits_to_base_64(word: int)
    requires
        0 <= word < 16777216,
    ensures
        word % 64 + 64 * (word / 64 % 64) + 4096 * (word / 4096 % 64) + 262144 * (word / 262144
            % 64) == word,
{
    let d1 = word / 64;
    let d2 = d1 / 64;
    let d3 = d2 / 64;
    assert(d2 == word / 4096);
    assert(d3 == word / 262144);
    assert(d3 < 64);
}

/// Three bytes are the three digits to the base 256 of the number they make.
pub proof fn lemma_digits_to_base_256(b0: int, b1: int, b2: int)
    requires
        0 <= b0 < 256,
        0 <= b1 < 256,
        0 <= b2 < 256,
    ensures
        (b0 + 256 * b1 + 65536 * b2) % 256 == b0,
        (b0 + 256 * b1 + 65536 * b2) / 256 % 256 == b1,
        (b0 + 256 * b1 + 65536 * b2) / 65536 % 256 == b2,
{
    let word = b0 + 256 * b1 + 65536 * b2;
    assert(word / 256 == b1 + 256 * b2);
    assert(word / 65536 == b2);
}

/// A group of symbols of an encoding holds the number of the group of bytes
/// that it was made from.
pub proof fn lemma_encoded_group(data: Seq<u8>, q: int)
    requires
        0 <= q,
    ensures
        symbol_group(encode_spec(data), q) == byte_group(data, q),
{
    lemma_encoded_values(data, 4 * q);
    lemma_encoded_values(data, 4 * q + 1);
    lemma_encoded_values(data, 4 * q + 2);
    lemma_encoded_values(data, 4 * q + 3);
    lemma_digits_to_base_64(byte_group(data, q));
}

/// Encoded text decodes to the bytes it was made from.
pub proof fn lemma_decode_encode(data: Seq<u8>)
    ensures
        decode_spec(encode_spec(data)) == Ok::<Seq<u8>, CodecError>(data),
{
    let text = encode_spec(data);
    assert(text.len() % 4 != 1);
    assert(decoded_len(text.len()) == data.len());
    assert forall|j: int| 0 <= j < text.len() implies is_symbol(#[trigger] text[j]) by {
        lemma_encoded_values(data, j);
    }
    let decoded = Seq::new(decoded_len(text.len()), |i: int| octet_at(text, i));
    assert forall|i: int| 0 <= i < data.len() implies decoded[i] == data[i] by {
        let q = i / 3;
        lemma_encoded_group(data, q);
        lemma_digits_to_base_256(
            byte_or_zero(data, 3 * q),
            byte_or_zero(data, 3 * q + 1),
            byte_or_zero(data, 3 * q + 2),
        );
    }
    assert(decoded =~= data);
}

} // verus!
