use tdx::wire::{encode_varint, ByteReader, ByteWriter, Field};
use tdx::TdxError;

#[test]
fn varint_decodes_sign_and_continuation_bytes() {
    let cases: &[(&[u8], i64)] = &[
        (&[0x00], 0),
        (&[0x3f], 63),
        (&[0x7f], -63),
        (&[0x80, 0x01], 64),
        (&[0xc0, 0x01], -64),
        (&[0xbf, 0x7f], 63 + (0x7f << 6)),
        (&[0x81, 0x80, 0x01], 1 + (1 << 13)),
    ];
    for (bytes, expected) in cases {
        let mut reader = ByteReader::new(bytes);
        assert_eq!(reader.varint().unwrap(), *expected, "{bytes:02x?}");
        assert_eq!(reader.remaining(), 0);
    }
}

#[test]
fn test_encoder_round_trips() {
    for value in [
        0,
        1,
        -1,
        63,
        -64,
        8_191,
        -8_192,
        1_234_567_890,
        -987_654_321,
    ] {
        let mut bytes = Vec::new();
        encode_varint(value, &mut bytes);
        assert_eq!(ByteReader::new(&bytes).varint().unwrap(), value);
    }
}

#[test]
fn truncated_input_is_a_decode_error_not_a_panic() {
    assert!(ByteReader::new(&[0x80]).varint().is_err());
    assert!(ByteReader::new(&[0x01, 0x02, 0x03]).u32().is_err());
}

#[test]
fn writer_uses_little_endian() {
    let mut writer = ByteWriter::new();
    writer.u8(1).u16(0x0203).u32(0x0405_0607).bytes(b"ab");
    assert_eq!(writer.as_slice(), &[1, 3, 2, 7, 6, 5, 4, b'a', b'b']);
}

#[test]
fn varint_round_trip_holds_at_the_extremes_and_stops_at_the_encoding() {
    for value in [i64::MAX, i64::MIN, i64::MIN + 1, 1 << 62, -(1 << 55), 127, -128] {
        let mut bytes = Vec::new();
        encode_varint(value, &mut bytes);
        let length = bytes.len();
        bytes.extend_from_slice(&[0xff, 0xee]);
        let mut reader = ByteReader::new(&bytes);
        assert_eq!(reader.varint().unwrap(), value);
        assert_eq!(reader.remaining(), 2, "the reader stops right after {value}");
        assert!(length <= 10);
    }
}

#[test]
fn varint_of_i64_min_round_trips() {
    let mut bytes = Vec::new();
    encode_varint(i64::MIN, &mut bytes);
    assert_eq!(bytes, [0xc0, 0x80, 0x80, 0x80, 0x80, 0x80, 0x80, 0x80, 0x80, 0x02]);
    let mut reader = ByteReader::new(&bytes);
    assert_eq!(reader.varint().unwrap(), i64::MIN);
    assert_eq!(reader.remaining(), 0);
}

#[test]
fn varint_with_a_tenth_byte_is_too_long() {
    let bytes = [0x80, 0x80, 0x80, 0x80, 0x80, 0x80, 0x80, 0x80, 0x80, 0x80, 0x00];
    let mut reader = ByteReader::new(&bytes);
    assert!(matches!(reader.varint(), Err(TdxError::Decode(_))));
}

#[test]
fn varint_ninth_byte_fills_the_top_two_bits() {
    // Eight continuation bytes of zero, then a ninth byte carrying 0b11 at bit 62.
    let bytes = [0x80, 0x80, 0x80, 0x80, 0x80, 0x80, 0x80, 0x80, 0x80, 0x03];
    assert_eq!(ByteReader::new(&bytes).varint().unwrap(), -(1i64 << 62));
    let bytes = [0x80, 0x80, 0x80, 0x80, 0x80, 0x80, 0x80, 0x80, 0x80, 0x01];
    assert_eq!(ByteReader::new(&bytes).varint().unwrap(), 1i64 << 62);
}

#[test]
fn reader_reads_little_endian_and_signed_values() {
    let bytes = [0x34, 0x12, 0xfe, 0xff, 0x78, 0x56, 0x34, 0x12, 9];
    let mut reader = ByteReader::new(&bytes);
    assert_eq!(reader.u16().unwrap(), 0x1234);
    assert_eq!(reader.i16().unwrap(), -2);
    assert_eq!(reader.u32().unwrap(), 0x1234_5678);
    assert_eq!(reader.u8().unwrap(), 9);
    assert!(matches!(reader.u8(), Err(TdxError::Decode(_))));
}

#[test]
fn take_and_skip_fail_without_consuming() {
    let bytes = [1, 2, 3, 4, 5];
    let mut reader = ByteReader::new(&bytes);
    assert_eq!(reader.take(2).unwrap(), &[1, 2]);
    assert!(reader.take(4).is_err());
    assert_eq!(reader.remaining(), 3);
    assert!(reader.skip(4).is_err());
    assert_eq!(reader.remaining(), 3);
    reader.skip(1).unwrap();
    assert_eq!(reader.array::<2>().unwrap(), [4, 5]);
    assert!(reader.array::<1>().is_err());
}

#[test]
fn writer_output_reads_back() {
    let mut writer = ByteWriter::new();
    writer.u16(0xbeef).u32(0xdead_beef).u8(7);
    let mut reader = ByteReader::new(writer.as_slice());
    assert_eq!(reader.u16().unwrap(), 0xbeef);
    assert_eq!(reader.u32().unwrap(), 0xdead_beef);
    assert_eq!(reader.u8().unwrap(), 7);
    assert_eq!(reader.remaining(), 0);
}

#[test]
fn fields_read_a_layout_in_order() {
    let mut bytes = vec![5, 0x10, 0x00, 0xff, 0xff];
    encode_varint(-300, &mut bytes);
    bytes.extend_from_slice(&7u32.to_le_bytes());
    let mut reader = ByteReader::new(&bytes);
    let values = reader
        .fields(&[Field::U8, Field::U16, Field::I16, Field::Varint, Field::U32])
        .unwrap();
    assert_eq!(values, vec![5, 16, -1, -300, 7]);
    assert!(ByteReader::new(&bytes[..4]).fields(&[Field::U8, Field::U32]).is_err());
}

#[test]
fn decode_error_text_names_the_shortfall() {
    let error = ByteReader::new(&[1, 2]).take(5).unwrap_err();
    assert_eq!(error.to_string(), "decode: need 5 bytes at offset 0, only 2 left");
}

#[test]
fn default_writer_is_empty() {
    let mut writer = ByteWriter::default();
    assert!(writer.as_slice().is_empty());
    writer.u8(7);
    assert_eq!(writer.as_slice(), &[7]);
}
