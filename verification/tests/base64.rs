use weakauras_codec::base64::byte_map::{encode_map, lookup_map, ByteMap};
use weakauras_codec::base64::decode::{
    calculate_capacity as decoded_capacity, decode, decode_slice_with, decode_with, scalar as decode_scalar,
    wide as decode_wide,
};
use weakauras_codec::base64::encode::{
    calculate_capacity as encoded_capacity, encode, encode_raw, encode_with, encode_with_prefix,
    scalar as encode_scalar, wide as encode_wide,
};
use weakauras_codec::base64::Kernel;
use weakauras_codec::error::CodecError;

const ALPHABET: &str = "0123456789abcdefghijklmnopqrstuvwxyzABCDEFGHIJKLMNOPQRSTUVWXYZ()";

fn symbols(count: usize) -> Vec<u8> {
    (b'0'..=b'9')
        .chain(b'a'..=b'z')
        .chain(b'A'..=b'Z')
        .chain(b'('..=b')')
        .cycle()
        .take(count)
        .collect()
}

fn bytes(count: usize) -> Vec<u8> {
    (0..=255).cycle().take(count).collect()
}

#[test]
fn scalar_and_sse_return_same_values() {
    let data: Vec<u8> = symbols(1024 * 1024 + 3);

    let cap = data.len() * 3 / 4;
    let mut buf1 = Vec::with_capacity(cap);
    let mut buf2 = Vec::with_capacity(cap);

    decode_scalar::decode(&data, &mut buf1).unwrap();
    decode_wide::decode16(&data, &mut buf2).unwrap();

    assert_eq!(buf1, buf2);
}

#[test]
fn scalar_and_avx2_return_same_values() {
    let data: Vec<u8> = symbols(1024 * 1024 + 3);

    let cap = data.len() * 3 / 4;
    let mut buf1 = Vec::with_capacity(cap);
    let mut buf2 = Vec::with_capacity(cap);

    decode_scalar::decode(&data, &mut buf1).unwrap();
    decode_wide::decode32(&data, &mut buf2).unwrap();

    assert_eq!(buf1, buf2);
}

#[test]
fn mod_scalar_and_sse_return_same_values() {
    let data: Vec<u8> = bytes(1024 * 30 + 3);

    let cap = (data.len() * 4 + 2) / 3;
    let mut buf1 = Vec::with_capacity(cap);
    let mut buf2 = Vec::with_capacity(cap);

    encode_scalar::encode(&data, &mut buf1);
    encode_wide::encode16(&data, &mut buf2);

    assert_eq!(buf1, buf2);
}

#[test]
fn mod_scalar_and_avx2_return_same_values() {
    let data: Vec<u8> = bytes(1024 * 30 + 3);

    let cap = (data.len() * 4 + 2) / 3;
    let mut buf1 = Vec::with_capacity(cap);
    let mut buf2 = Vec::with_capacity(cap);

    encode_scalar::encode(&data, &mut buf1);
    encode_wide::encode32(&data, &mut buf2);

    assert_eq!(buf1, buf2);
}

#[test]
fn alphabet_runs_through_digits_letters_and_brackets() {
    // The 48 bytes whose 6-bit digits are 0, 1, 2, ... 63 in this order.
    let mut data: Vec<u8> = Vec::new();
    for group in 0..16u32 {
        let v = [4 * group, 4 * group + 1, 4 * group + 2, 4 * group + 3];
        let word = v[0] + (v[1] << 6) + (v[2] << 12) + (v[3] << 18);
        data.push(word as u8);
        data.push((word >> 8) as u8);
        data.push((word >> 16) as u8);
    }
    assert_eq!(encode(&data).unwrap(), ALPHABET);
    assert_eq!(decode(ALPHABET).unwrap(), data);
}

#[test]
fn encodes_known_bytes() {
    assert_eq!(encode(&[]).unwrap(), "");
    assert_eq!(encode(&[0xff]).unwrap(), ")3");
    assert_eq!(encode(&[0xff, 0xff]).unwrap(), "))f");
    assert_eq!(encode(&[0xff, 0xff, 0xff]).unwrap(), "))))");
    assert_eq!(encode(&[1, 2, 3]).unwrap(), "18M0");
    assert_eq!(encode(&[0, 0, 0]).unwrap(), "0000");
    assert_eq!(encode_raw(&[1, 2, 3, 0xff]).unwrap(), "18M0)3");
}

#[test]
fn decodes_known_text() {
    assert_eq!(decode("").unwrap(), Vec::<u8>::new());
    assert_eq!(decode(")3").unwrap(), vec![0xff]);
    assert_eq!(decode("))f").unwrap(), vec![0xff, 0xff]);
    assert_eq!(decode("18M0").unwrap(), vec![1, 2, 3]);
    assert_eq!(decode("18M0)3").unwrap(), vec![1, 2, 3, 0xff]);
}

#[test]
fn last_group_drops_its_highest_bits() {
    // Two symbols hold twelve bits, of which eight make the byte.
    assert_eq!(decode("))").unwrap(), vec![0xff]);
    assert_eq!(decode(")))").unwrap(), vec![0xff, 0xff]);
}

#[test]
fn decode_of_encode_is_identity() {
    for len in 0..200 {
        let data: Vec<u8> = (0..len).map(|i| (i * 37 + len * 11) as u8).collect();
        let text = encode(&data).unwrap();
        assert_eq!(text.len(), (len * 4 + 2) / 3);
        assert_eq!(decode(&text).unwrap(), data, "length {}", len);
    }
}

#[test]
fn kernels_agree_at_every_boundary() {
    for len in 0..140 {
        let data: Vec<u8> = (0..len).map(|i| (i * 101 + 7) as u8).collect();
        let scalar = encode_with(Kernel::Scalar, &data).unwrap();
        assert_eq!(scalar, encode_with(Kernel::Lanes16, &data).unwrap(), "length {}", len);
        assert_eq!(scalar, encode_with(Kernel::Lanes32, &data).unwrap(), "length {}", len);

        let text = symbols(len);
        let expected = decode_slice_with(Kernel::Scalar, &text);
        assert_eq!(expected, decode_slice_with(Kernel::Lanes16, &text), "length {}", len);
        assert_eq!(expected, decode_slice_with(Kernel::Lanes32, &text), "length {}", len);
        assert_eq!(expected.is_err(), len % 4 == 1);
    }
}

#[test]
fn kernels_agree_on_a_bad_symbol_anywhere() {
    for len in [2usize, 3, 4, 15, 16, 18, 31, 32, 35, 64, 67] {
        for bad in 0..len {
            let mut text = symbols(len);
            text[bad] = b'!';
            for kernel in [Kernel::Scalar, Kernel::Lanes16, Kernel::Lanes32] {
                assert_eq!(
                    decode_slice_with(kernel, &text),
                    Err(CodecError::InvalidSymbol),
                    "length {} bad {}",
                    len,
                    bad
                );
            }
        }
    }
}

#[test]
fn kernels_leave_the_buffer_alone_on_failure() {
    let mut text = symbols(40);
    text[37] = b' ';
    let mut buf = vec![1u8, 2, 3];
    assert_eq!(decode_scalar::decode(&text, &mut buf), Err(CodecError::InvalidSymbol));
    assert_eq!(buf, vec![1u8, 2, 3]);
    assert_eq!(decode_wide::decode16(&text, &mut buf), Err(CodecError::InvalidSymbol));
    assert_eq!(buf, vec![1u8, 2, 3]);
    assert_eq!(decode_wide::decode32(&text, &mut buf), Err(CodecError::InvalidSymbol));
    assert_eq!(buf, vec![1u8, 2, 3]);
    assert_eq!(decode_scalar::decode(b"0", &mut buf), Err(CodecError::InvalidLength));
    assert_eq!(buf, vec![1u8, 2, 3]);
}

#[test]
fn kernels_append_to_the_buffer() {
    let mut buf = vec![9u8];
    decode_scalar::decode(b"18M0", &mut buf).unwrap();
    assert_eq!(buf, vec![9u8, 1, 2, 3]);
    let mut out = b"!".to_vec();
    encode_scalar::encode(&[1, 2, 3], &mut out);
    assert_eq!(out, b"!18M0".to_vec());
    encode_wide::encode16(&[0xff], &mut out);
    assert_eq!(out, b"!18M0)3".to_vec());
}

#[test]
fn length_of_one_over_groups_of_four_is_rejected() {
    for len in [1usize, 5, 9, 13, 17, 33, 65] {
        let text = String::from_utf8(symbols(len)).unwrap();
        assert_eq!(decode(&text), Err(CodecError::InvalidLength));
        assert_eq!(decode_with(Kernel::Scalar, &text), Err(CodecError::InvalidLength));
        assert_eq!(decode_with(Kernel::Lanes32, &text), Err(CodecError::InvalidLength));
    }
    // The length is looked at before the symbols are.
    assert_eq!(decode("!"), Err(CodecError::InvalidLength));
}

#[test]
fn byte_outside_the_alphabet_is_rejected() {
    for bad in ["ab+d", "ab/d", "ab=d", "a d", "ab\n", "ab~", "[]", "ab\u{e9}"] {
        assert_eq!(decode(bad), Err(CodecError::InvalidSymbol), "{:?}", bad);
    }
    for c in 0..=255u8 {
        let text = [b'0', c];
        let valid = ALPHABET.as_bytes().contains(&c);
        assert_eq!(decode_slice_with(Kernel::Scalar, &text).is_ok(), valid, "byte {}", c);
    }
}

#[test]
fn capacities_are_exact() {
    assert_eq!(decoded_capacity(""), Ok(0));
    assert_eq!(decoded_capacity("00"), Ok(1));
    assert_eq!(decoded_capacity("000"), Ok(2));
    assert_eq!(decoded_capacity("0000"), Ok(3));
    assert_eq!(decoded_capacity("0"), Err(CodecError::InvalidLength));
    assert_eq!(decoded_capacity("00000"), Err(CodecError::InvalidLength));
    assert_eq!(decoded_capacity("000000"), Ok(4));
    assert_eq!(encoded_capacity(&[]), Ok(0));
    assert_eq!(encoded_capacity(&[0]), Ok(2));
    assert_eq!(encoded_capacity(&[0, 0]), Ok(3));
    assert_eq!(encoded_capacity(&[0, 0, 0]), Ok(4));
    assert_eq!(encoded_capacity(&[0; 100]), Ok(134));
}

#[test]
fn prefix_stands_before_the_encoding() {
    assert_eq!(encode_with_prefix(&[1, 2, 3], "!WA:2!").unwrap(), "!WA:2!18M0");
    assert_eq!(encode_with_prefix(&[], "!").unwrap(), "!");
    assert_eq!(encode_with_prefix(&[0xff], "\u{e9}").unwrap(), "\u{e9})3");
}

#[test]
fn byte_map_has_an_entry_for_every_byte() {
    let encoding: ByteMap = encode_map();
    let lookup: ByteMap = lookup_map();
    for b in 0..=255u8 {
        let symbol = *encoding.get(b);
        assert_eq!(symbol, ALPHABET.as_bytes()[(b % 64) as usize]);
        assert_eq!(*lookup.get(symbol), b % 64);
    }
    assert_eq!(*lookup.get(b'!'), 0);
    let mut map = ByteMap([0u8; 256]);
    *map.get_mut(200) = 7;
    assert_eq!(*map.get(200), 7);
    assert_eq!(*map.get(199), 0);
}
