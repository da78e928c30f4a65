use weakauras_codec::decoder::legacy;
use weakauras_codec::decoder::modern;
use weakauras_codec::decoder::decode_symbols;
use weakauras_codec::error::CodecError;
use weakauras_codec::huffman::{decompress, BitAccumulator, CodeTable};

#[test]
fn stored_container_gives_its_content() {
    assert_eq!(decompress(&[1]).unwrap(), Vec::<u8>::new());
    assert_eq!(decompress(&[1, 7]).unwrap(), vec![7]);
    assert_eq!(decompress(&[1, 3, 0, 0, 0]).unwrap(), vec![3, 0, 0, 0]);
    let payload: Vec<u8> = (0..=255).collect();
    let mut container = vec![1u8];
    container.extend_from_slice(&payload);
    assert_eq!(decompress(&container).unwrap(), payload);
}

#[test]
fn short_coded_container_is_insufficient() {
    assert_eq!(decompress(&[3]), Err(CodecError::InsufficientData));
    assert_eq!(decompress(&[3, 0]), Err(CodecError::InsufficientData));
    assert_eq!(decompress(&[3, 0, 1]), Err(CodecError::InsufficientData));
    assert_eq!(decompress(&[3, 0, 1, 0]), Err(CodecError::InsufficientData));
}

#[test]
fn container_that_announces_nothing_is_insufficient() {
    assert_eq!(decompress(&[3, 0, 0, 0, 0, 97, 3]), Err(CodecError::InsufficientData));
}

#[test]
fn other_tags_are_unknown() {
    assert_eq!(decompress(&[]), Err(CodecError::UnknownCodec));
    assert_eq!(decompress(&[0, 1, 2, 3, 4, 5]), Err(CodecError::UnknownCodec));
    assert_eq!(decompress(&[2, 1, 2, 3, 4, 5]), Err(CodecError::UnknownCodec));
    assert_eq!(decompress(&[255]), Err(CodecError::UnknownCodec));
}

#[test]
fn table_that_ends_early_is_unexpected_end() {
    assert_eq!(decompress(&[3, 0, 1, 0, 0]), Err(CodecError::UnexpectedEndOfInput));
    assert_eq!(decompress(&[3, 0, 1, 0, 0, 97]), Err(CodecError::UnexpectedEndOfInput));
    assert_eq!(decompress(&[3, 0, 1, 0, 0, 97, 0]), Err(CodecError::UnexpectedEndOfInput));
    // Two entries are announced and one is there.
    assert_eq!(decompress(&[3, 1, 1, 0, 0, 97, 6]), Err(CodecError::UnexpectedEndOfInput));
}

#[test]
fn field_without_end_is_too_long() {
    assert_eq!(
        decompress(&[3, 0, 1, 0, 0, 97, 0, 0, 0, 0, 0, 0]),
        Err(CodecError::EncodingTooLong)
    );
}

#[test]
fn code_without_bits_is_insufficient() {
    assert_eq!(decompress(&[3, 0, 1, 0, 0, 97, 3]), Err(CodecError::InsufficientData));
}

#[test]
fn coded_container_is_decoded() {
    // Four symbols with codes of three bits: a = 000, b = 100, c = 010 and
    // d = 111, the first bit of a code being the first read. The content is
    // "abcdabcddcba"; the bits that fill the last byte read as one more "a".
    let container = [3u8, 3, 12, 0, 0, 97, 88, 44, 30, 147, 201, 170, 17, 29, 209, 175, 0];
    assert_eq!(decompress(&container).unwrap(), b"abcdabcddcbaa".to_vec());
}

#[test]
fn bits_that_fill_the_last_byte_are_decoded_too() {
    // One entry, a = 0, and behind it nothing but five bits that fill the byte.
    assert_eq!(decompress(&[3, 0, 1, 0, 0, 97, 6]).unwrap(), b"aaaaa".to_vec());
}

#[test]
fn accumulator_takes_and_gives_bits() {
    let mut queue = BitAccumulator::new();
    queue.push_byte(0b1011_0110);
    assert_eq!(queue.len, 8);
    assert_eq!(queue.low(3), 0b110);
    assert_eq!(queue.pair(1), 0b11);
    queue.drop_low(3);
    assert_eq!(queue.value, 0b10110);
    assert_eq!(queue.len, 5);
    queue.push_byte(0xff);
    assert_eq!(queue.value, 0b10110 + (0xff << 5));
    assert_eq!(queue.len, 13);
}

#[test]
fn table_keeps_the_later_symbol_of_a_code() {
    let mut table = CodeTable::new();
    assert_eq!(table.get(3, 5), None);
    table.insert(3, 5, 65);
    table.insert(4, 5, 66);
    assert_eq!(table.get(3, 5), Some(65));
    assert_eq!(table.get(4, 5), Some(66));
    assert_eq!(table.get(3, 4), None);
    table.insert(3, 5, 67);
    assert_eq!(table.get(3, 5), Some(67));
}

#[test]
fn lenient_decoding_counts_strangers_as_zero() {
    assert_eq!(decode_symbols(b"18M0", 4), vec![1, 2, 3]);
    assert_eq!(decode_symbols(b"18M0", 3), vec![1, 2]);
    assert_eq!(decode_symbols(b"18M0", 2), vec![1]);
    assert_eq!(decode_symbols(b"18M0", 1), Vec::<u8>::new());
    assert_eq!(decode_symbols(b"!8M!", 4), vec![0, 2, 3]);
    assert_eq!(decode_symbols(b"18M0", 9), vec![1, 2, 3]);
    assert_eq!(modern::decode_for_print("18M0)3"), vec![1, 2, 3, 0xff]);
    assert_eq!(modern::decode_for_print("18M0)"), vec![1, 2, 3]);
    assert_eq!(modern::decode_for_print(""), Vec::<u8>::new());
}

#[test]
fn legacy_decoder_gives_three_bytes_for_four_symbols() {
    assert_eq!(legacy::decode_for_print(""), Vec::<u8>::new());
    assert_eq!(legacy::decode_for_print("1"), Vec::<u8>::new());
    assert_eq!(legacy::decode_for_print("))))"), vec![255, 255, 255]);
    assert_eq!(legacy::decode_for_print("18M0"), vec![1, 2, 3]);
    assert_eq!(legacy::decode_for_print("18M00"), vec![1, 2, 3]);
    assert_eq!(legacy::decode_for_print("18M0)3"), vec![1, 2, 3, 0xff]);
    assert_eq!(legacy::decode_for_print("18M0)30"), vec![1, 2, 3, 0xff, 0]);
    assert_eq!(legacy::decode_for_print("!8M!"), vec![0, 2, 3]);
    for text in ["", "0", "18", "18M", "18M0", "18M0)", "18M0)3", "a(Z)09!z"] {
        assert_eq!(legacy::decode_for_print(text), modern::decode_for_print(text), "{:?}", text);
    }
}

#[test]
fn legacy_decode_unpacks_a_stored_container() {
    // [1, 2, 3] is "18M0": the tag of a stored container and its content.
    assert_eq!(legacy::decode("18M0").unwrap(), vec![2, 3]);
    assert_eq!(legacy::decode("18M0)3").unwrap(), vec![2, 3, 0xff]);
    assert_eq!(legacy::decode("").unwrap_err(), CodecError::UnknownCodec);
    // [3, 0, 1, 0] is a coded container that is too short.
    assert_eq!(legacy::decode("30g000").unwrap_err(), CodecError::InsufficientData);
    // [3, 0, 1, 0, 0] has its header and no table.
    assert_eq!(legacy::decode("30g0000").unwrap_err(), CodecError::UnexpectedEndOfInput);
    assert_eq!(legacy::decompress_huffman(&[1, 5, 6]).unwrap(), vec![5, 6]);
}
