use mcping::codec::{read_string_from, write_string_to, ProtocolError, VarInt};

fn encode_varint(v: i32) -> Vec<u8> {
    let mut out = Vec::new();
    VarInt(v).write_to(&mut out);
    out
}

fn decode_varint(bytes: &Vec<u8>) -> Result<i32, ProtocolError> {
    let mut pos = 0usize;
    VarInt::read_from(bytes, &mut pos).map(|v| v.0)
}

#[test]
fn varint_single_byte_encodings() {
    assert_eq!(encode_varint(0), vec![0x00]);
    assert_eq!(encode_varint(1), vec![0x01]);
    assert_eq!(encode_varint(127), vec![0x7f]);
}

#[test]
fn varint_multi_byte_encodings() {
    assert_eq!(encode_varint(128), vec![0x80, 0x01]);
    assert_eq!(encode_varint(255), vec![0xff, 0x01]);
    assert_eq!(encode_varint(25565), vec![0xdd, 0xc7, 0x01]);
    assert_eq!(encode_varint(2097151), vec![0xff, 0xff, 0x7f]);
    assert_eq!(encode_varint(2147483647), vec![0xff, 0xff, 0xff, 0xff, 0x07]);
}

#[test]
fn varint_negative_encodings() {
    assert_eq!(encode_varint(-1), vec![0xff, 0xff, 0xff, 0xff, 0x0f]);
    assert_eq!(encode_varint(-2147483648), vec![0x80, 0x80, 0x80, 0x80, 0x08]);
}

#[test]
fn varint_round_trip_many_values() {
    let values = [
        0, 1, -1, 127, 128, 255, 300, 25565, 2097151, -2097152, 2147483647, -2147483648,
    ];
    for &v in values.iter() {
        let encoded = encode_varint(v);
        assert!(encoded.len() >= 1 && encoded.len() <= 5);
        assert_eq!(decode_varint(&encoded), Ok(v));
    }
}

#[test]
fn varint_round_trip_ignores_trailing_bytes() {
    let mut encoded = encode_varint(300);
    let used = encoded.len();
    encoded.push(0xaa);
    encoded.push(0xbb);
    let mut pos = 0usize;
    assert_eq!(VarInt::read_from(&encoded, &mut pos), Ok(VarInt(300)));
    assert_eq!(pos, used);
}

#[test]
fn varint_unterminated_is_too_large() {
    let bytes = vec![0x80, 0x80, 0x80, 0x80, 0x80, 0x01];
    assert_eq!(decode_varint(&bytes), Err(ProtocolError::VarIntTooLarge));
}

#[test]
fn varint_truncated_is_eof() {
    let bytes = vec![0x80, 0x80];
    assert_eq!(decode_varint(&bytes), Err(ProtocolError::UnexpectedEof));
    let empty: Vec<u8> = Vec::new();
    assert_eq!(decode_varint(&empty), Err(ProtocolError::UnexpectedEof));
}

fn encode_string(s: &str) -> Vec<u8> {
    let mut out = Vec::new();
    write_string_to(s, &mut out);
    out
}

#[test]
fn string_encoding_is_length_prefixed_utf8() {
    assert_eq!(encode_string(""), vec![0x00]);
    assert_eq!(encode_string("hi"), vec![0x02, b'h', b'i']);
    // a two-byte UTF-8 character: the prefix counts bytes, not chars
    assert_eq!(encode_string("\u{00a7}"), vec![0x02, 0xc2, 0xa7]);
}

#[test]
fn string_round_trip() {
    let cases = ["", "hi", "A Minecraft Server", "\u{00a7}1\u{0}47", "\u{1f600}motd"];
    for s in cases.iter() {
        let encoded = encode_string(s);
        let mut pos = 0usize;
        let decoded = read_string_from(&encoded, &mut pos).unwrap();
        assert_eq!(&decoded, s);
        assert_eq!(pos, encoded.len());
    }
}

#[test]
fn string_decode_replaces_invalid_utf8() {
    // length 2, then two bytes that are not valid UTF-8
    let bytes = vec![0x02, 0xff, 0xfe];
    let mut pos = 0usize;
    let decoded = read_string_from(&bytes, &mut pos).unwrap();
    assert_eq!(decoded, "\u{fffd}\u{fffd}");
}

#[test]
fn string_decode_truncated_is_eof() {
    let bytes = vec![0x05, b'a', b'b'];
    let mut pos = 0usize;
    assert_eq!(read_string_from(&bytes, &mut pos), Err(ProtocolError::UnexpectedEof));
}

#[test]
fn get_or_picks_value_or_default() {
    assert_eq!(mcping::get_or(Some("x".to_string()), "none"), "x");
    assert_eq!(mcping::get_or(None, "none"), "none");
}
