use godot_wasm_bindgen::error::DecodeError;
use godot_wasm_bindgen::util::{append, prepend, read_tagged, tag_length};
use godot_wasm_bindgen::varint::{encode_unsigned, leb128_unsigned, not_end_byte};

#[test]
fn encodes_small_values_in_one_byte() {
    assert_eq!(encode_unsigned(0), vec![0u8]);
    assert_eq!(encode_unsigned(64), vec![64u8]);
    assert_eq!(encode_unsigned(127), vec![127u8]);
}

#[test]
fn encodes_with_continuation_bytes() {
    assert_eq!(encode_unsigned(128), vec![0x80u8, 0x01]);
    assert_eq!(encode_unsigned(300), vec![0xacu8, 0x02]);
    assert_eq!(encode_unsigned(624485), vec![0xe5u8, 0x8e, 0x26]);
}

#[test]
fn encodes_the_largest_value_in_ten_bytes() {
    assert_eq!(
        encode_unsigned(u64::MAX),
        vec![0xffu8, 0xff, 0xff, 0xff, 0xff, 0xff, 0xff, 0xff, 0xff, 0x01]
    );
}

#[test]
fn decodes_and_leaves_the_rest() {
    let input = [0xe5u8, 0x8e, 0x26, 7, 8];
    let (rest, v) = leb128_unsigned(&input).unwrap();
    assert_eq!(v, 624485);
    assert_eq!(rest, &[7u8, 8][..]);
}

#[test]
fn decoding_undoes_encoding() {
    let values = [
        0u64,
        1,
        63,
        64,
        127,
        128,
        255,
        256,
        16383,
        16384,
        0xffff_ffff,
        0x1_0000_0000,
        u64::MAX - 1,
        u64::MAX,
    ];
    for v in values {
        let bytes = encode_unsigned(v);
        let (rest, back) = leb128_unsigned(&bytes).unwrap();
        assert_eq!(back, v);
        assert!(rest.is_empty());
    }
}

#[test]
fn encoding_is_the_shortest() {
    // 0x80 0x00 also decodes to 0, from two bytes; the encoding has one.
    let (rest, v) = leb128_unsigned(&[0x80, 0x00]).unwrap();
    assert_eq!(v, 0);
    assert!(rest.is_empty());
    assert_eq!(encode_unsigned(0).len(), 1);
    assert_eq!(encode_unsigned(127).len(), 1);
    assert_eq!(encode_unsigned(128).len(), 2);
    assert_eq!(encode_unsigned(16383).len(), 2);
    assert_eq!(encode_unsigned(16384).len(), 3);
}

#[test]
fn truncated_integer_is_unexpected_eof() {
    assert_eq!(leb128_unsigned(&[]), Err(DecodeError::UnexpectedEof));
    assert_eq!(leb128_unsigned(&[0x80, 0x80]), Err(DecodeError::UnexpectedEof));
    assert_eq!(leb128_unsigned(&[0xff; 9]), Err(DecodeError::UnexpectedEof));
}

#[test]
fn value_beyond_64_bits_is_overflow() {
    let input = [0xffu8, 0xff, 0xff, 0xff, 0xff, 0xff, 0xff, 0xff, 0xff, 0x02];
    assert_eq!(leb128_unsigned(&input), Err(DecodeError::Overflow));
}

#[test]
fn tenth_continuation_byte_is_overflow() {
    let input = [0x80u8, 0x80, 0x80, 0x80, 0x80, 0x80, 0x80, 0x80, 0x80, 0x80, 0x00];
    assert_eq!(leb128_unsigned(&input), Err(DecodeError::Overflow));
}

#[test]
fn end_bytes_have_the_high_bit_clear() {
    assert!(!not_end_byte(0));
    assert!(!not_end_byte(127));
    assert!(not_end_byte(128));
    assert!(not_end_byte(255));
}

#[test]
fn prepend_puts_data_in_front() {
    let mut bytes = vec![3u8, 4, 5];
    prepend(&mut bytes, &[1, 2]);
    assert_eq!(bytes, vec![1u8, 2, 3, 4, 5]);
    prepend(&mut bytes, &[]);
    assert_eq!(bytes, vec![1u8, 2, 3, 4, 5]);
}

#[test]
fn append_puts_data_behind() {
    let mut bytes = vec![1u8];
    append(&mut bytes, &[2, 3]);
    assert_eq!(bytes, vec![1u8, 2, 3]);
}

#[test]
fn tag_length_prefixes_the_length() {
    let mut bytes = vec![9u8, 8, 7];
    tag_length(&mut bytes);
    assert_eq!(bytes, vec![3u8, 9, 8, 7]);
    let mut long = vec![0u8; 200];
    tag_length(&mut long);
    assert_eq!(long.len(), 202);
    assert_eq!(&long[..2], &[0xc8u8, 0x01][..]);
    let mut empty: Vec<u8> = Vec::new();
    tag_length(&mut empty);
    assert_eq!(empty, vec![0u8]);
}

#[test]
fn read_tagged_takes_exactly_the_block() {
    let input = [2u8, 10, 11, 12];
    let (rest, block) = read_tagged(&input).unwrap();
    assert_eq!(block, &[10u8, 11][..]);
    assert_eq!(rest, &[12u8][..]);
}

#[test]
fn read_tagged_undoes_tag_length() {
    let mut bytes = vec![5u8, 6, 7, 8];
    tag_length(&mut bytes);
    bytes.push(99);
    let (rest, block) = read_tagged(&bytes).unwrap();
    assert_eq!(block, &[5u8, 6, 7, 8][..]);
    assert_eq!(rest, &[99u8][..]);
}

#[test]
fn short_block_is_unexpected_eof() {
    assert_eq!(read_tagged(&[3, 1, 2]), Err(DecodeError::UnexpectedEof));
    assert_eq!(read_tagged(&[]), Err(DecodeError::UnexpectedEof));
}
