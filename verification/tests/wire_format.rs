use slsk_protocol::codec::{
    checked_frame_len_u32, checked_frame_len_u8, split_frame_u32, split_frame_u8, frame_message_u32, frame_message_u8, read_bool, read_bytes, read_frame_u32, read_frame_u8, read_i32_le,
    read_raw_bytes, read_string, read_string_list, read_u16_le, read_u32_le, read_u32_list, read_u64_le, read_u8,
    write_bool, write_bytes, write_i32_le, write_string, write_u16_le, write_u32_le, write_u64_le, write_u8,
    ByteReader,
};
use slsk_protocol::error::{decimal_string, message_with_number, Error, IoErrorKind};
use slsk_protocol::md5::hex_lower;

#[test]
fn u32_is_little_endian() {
    let mut out = Vec::new();
    write_u32_le(&mut out, 0x1234_5678).unwrap();
    assert_eq!(out, vec![0x78, 0x56, 0x34, 0x12]);
    let mut r = ByteReader::new(&out);
    assert_eq!(read_u32_le(&mut r).unwrap(), 0x1234_5678);
    assert_eq!(r.position(), 4);
}

#[test]
fn integers_round_trip() {
    let mut out = Vec::new();
    write_u8(&mut out, 0xab).unwrap();
    write_u16_le(&mut out, 0xbeef).unwrap();
    write_i32_le(&mut out, -2).unwrap();
    write_u64_le(&mut out, 0x0102_0304_0506_0708).unwrap();
    assert_eq!(
        out,
        vec![0xab, 0xef, 0xbe, 0xfe, 0xff, 0xff, 0xff, 0x08, 0x07, 0x06, 0x05, 0x04, 0x03, 0x02, 0x01]
    );
    let mut r = ByteReader::new(&out);
    assert_eq!(read_u8(&mut r).unwrap(), 0xab);
    assert_eq!(read_u16_le(&mut r).unwrap(), 0xbeef);
    assert_eq!(read_i32_le(&mut r).unwrap(), -2);
    assert_eq!(read_u64_le(&mut r).unwrap(), 0x0102_0304_0506_0708);
    assert_eq!(r.position(), out.len());
}

#[test]
fn bool_is_one_byte_and_nonzero_reads_true() {
    let mut out = Vec::new();
    write_bool(&mut out, true).unwrap();
    write_bool(&mut out, false).unwrap();
    assert_eq!(out, vec![1, 0]);
    let data = [0u8, 2, 1];
    let mut r = ByteReader::new(&data);
    assert!(!read_bool(&mut r).unwrap());
    assert!(read_bool(&mut r).unwrap());
    assert!(read_bool(&mut r).unwrap());
}

#[test]
fn string_is_length_prefixed_utf8() {
    let mut out = Vec::new();
    write_string(&mut out, "héllo").unwrap();
    assert_eq!(out, vec![6, 0, 0, 0, b'h', 0xc3, 0xa9, b'l', b'l', b'o']);
    let mut r = ByteReader::new(&out);
    assert_eq!(read_string(&mut r).unwrap(), "héllo");
}

#[test]
fn bytes_are_length_prefixed() {
    let mut out = Vec::new();
    write_bytes(&mut out, &[9, 8, 7]).unwrap();
    assert_eq!(out, vec![3, 0, 0, 0, 9, 8, 7]);
    let mut r = ByteReader::new(&out);
    assert_eq!(read_bytes(&mut r).unwrap(), vec![9, 8, 7]);
    let mut r2 = ByteReader::new(&out);
    assert_eq!(read_raw_bytes(&mut r2, 2).unwrap(), vec![3, 0]);
}

#[test]
fn reading_past_the_end_is_eof() {
    let data = [1u8, 2];
    let mut r = ByteReader::new(&data);
    assert!(matches!(read_u32_le(&mut r), Err(Error::Io(IoErrorKind::UnexpectedEof))));
    let mut r2 = ByteReader::new(&[5, 0, 0, 0, b'a']);
    assert!(matches!(read_string(&mut r2), Err(Error::Io(IoErrorKind::UnexpectedEof))));
}

#[test]
fn invalid_utf8_is_an_encoding_error() {
    let data = [2u8, 0, 0, 0, 0xff, 0xfe];
    let mut r = ByteReader::new(&data);
    assert!(matches!(read_string(&mut r), Err(Error::Encoding(_))));
}

#[test]
fn lists_read_in_order() {
    let mut out = Vec::new();
    write_string(&mut out, "a").unwrap();
    write_string(&mut out, "bc").unwrap();
    write_u32_le(&mut out, 7).unwrap();
    write_u32_le(&mut out, 9).unwrap();
    let mut r = ByteReader::new(&out);
    assert_eq!(read_string_list(&mut r, 2).unwrap(), vec!["a".to_string(), "bc".to_string()]);
    assert_eq!(read_u32_list(&mut r, 2).unwrap(), vec![7, 9]);
    assert!(matches!(read_u32_list(&mut r, 1), Err(Error::Io(IoErrorKind::UnexpectedEof))));
}

#[test]
fn u32_frame_has_length_code_and_body() {
    let frame = frame_message_u32(1, &[9, 9]);
    assert_eq!(frame, vec![6, 0, 0, 0, 1, 0, 0, 0, 9, 9]);
    let mut r = ByteReader::new(&frame);
    let (code, body) = read_frame_u32(&mut r).unwrap();
    assert_eq!(code, 1);
    assert_eq!(body, vec![9, 9]);
}

#[test]
fn u8_frame_has_length_code_and_body() {
    let frame = frame_message_u8(3, &[7]);
    assert_eq!(frame, vec![2, 0, 0, 0, 3, 7]);
    let mut r = ByteReader::new(&frame);
    let (code, body) = read_frame_u8(&mut r).unwrap();
    assert_eq!(code, 3);
    assert_eq!(body, vec![7]);
}

#[test]
fn short_u32_frame_is_refused() {
    let data = [3u8, 0, 0, 0, 1, 2, 3];
    let mut r = ByteReader::new(&data);
    match read_frame_u32(&mut r) {
        Err(Error::Protocol(m)) => assert_eq!(m, "frame too short: 3"),
        other => panic!("unexpected {:?}", other),
    }
}

#[test]
fn empty_u8_frame_is_refused() {
    let data = [0u8, 0, 0, 0];
    let mut r = ByteReader::new(&data);
    match read_frame_u8(&mut r) {
        Err(Error::Protocol(m)) => assert_eq!(m, "empty frame"),
        other => panic!("unexpected {:?}", other),
    }
}

#[test]
fn truncated_frame_is_eof() {
    let data = [8u8, 0, 0, 0, 1, 0, 0, 0];
    let mut r = ByteReader::new(&data);
    assert!(matches!(read_frame_u32(&mut r), Err(Error::Io(IoErrorKind::UnexpectedEof))));
}

#[test]
fn decimal_text_of_numbers() {
    assert_eq!(decimal_string(0), "0");
    assert_eq!(decimal_string(1_234_567_890), "1234567890");
    assert_eq!(decimal_string(u64::MAX), "18446744073709551615");
    assert_eq!(message_with_number("unknown user status", 7), "unknown user status 7");
}

#[test]
fn hex_is_lowercase_two_digits_per_byte() {
    assert_eq!(hex_lower(&[0x00, 0xab, 0x0f, 0xff]), "00ab0fff");
    assert_eq!(hex_lower(&[]), "");
}

#[test]
fn frame_lengths_of_live_connections() {
    assert_eq!(checked_frame_len_u32(4, "server").unwrap(), 4);
    match checked_frame_len_u32(2, "peer") {
        Err(Error::Protocol(m)) => assert_eq!(m, "peer frame too short: 2"),
        other => panic!("unexpected {:?}", other),
    }
    assert_eq!(checked_frame_len_u8(1, "peer-init").unwrap(), 1);
    match checked_frame_len_u8(0, "distributed") {
        Err(Error::Protocol(m)) => assert_eq!(m, "empty distributed frame"),
        other => panic!("unexpected {:?}", other),
    }
}

#[test]
fn frame_contents_split_into_code_and_body() {
    assert_eq!(split_frame_u32(&[0x2a, 0x01, 0, 0, 7, 8]), (0x012a, vec![7, 8]));
    assert_eq!(split_frame_u32(&[1, 0, 0, 0]), (1, vec![]));
    assert_eq!(split_frame_u8(&[3, 9]), (3, vec![9]));
}
