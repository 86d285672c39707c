use mcping::netutil::{Element, PacketBuilder, PacketUtils};
use mcping::query::{QueryPinger, QueryPingError};

fn pinger() -> QueryPinger {
    QueryPinger { read_timeout_ms: 5000 }
}

#[test]
fn write_packet_frames_payload() {
    let packet = PacketUtils::write_packet(vec![0xaa, 0xbb], 0x09, 1);
    assert_eq!(packet, vec![0xfe, 0xfd, 0x09, 0x00, 0x00, 0x00, 0x01, 0xaa, 0xbb]);
}

#[test]
fn write_string_terminates_with_nul() {
    assert_eq!(PacketUtils::write_string("ab".to_string()), vec![b'a', b'b', 0x00]);
    assert_eq!(PacketUtils::write_string(String::new()), vec![0x00]);
}

#[test]
fn read_string_stops_at_nul() {
    let data = vec![b'h', b'i', 0x00, b'x'];
    let mut pos = 0usize;
    assert_eq!(PacketUtils::read_string(&data, &mut pos), Some("hi".to_string()));
    assert_eq!(pos, 3);
}

#[test]
fn read_string_without_nul_is_none() {
    let data = vec![b'h', b'i'];
    let mut pos = 0usize;
    assert_eq!(PacketUtils::read_string(&data, &mut pos), None);
    assert_eq!(pos, 2);
}

#[test]
fn read_byte_and_int32() {
    let data = vec![0x2a, 0x00, 0x91, 0x2b, 0x5b];
    let mut pos = 0usize;
    assert_eq!(PacketUtils::read_byte(&data, &mut pos), Some(0x2a));
    assert_eq!(PacketUtils::read_int32(&data, &mut pos), Some(9513819));
    assert_eq!(PacketUtils::read_byte(&data, &mut pos), None);
    let mut short_pos = 2usize;
    assert_eq!(PacketUtils::read_int32(&data, &mut short_pos), None);
}

#[test]
fn builder_serializes_fields_in_order() {
    let mut b = PacketBuilder::new();
    b.insert_string("ab");
    b.insert_byte(0x07);
    b.insert_short(-2);
    b.insert_int(258);
    b.insert_bytearray(vec![0x01, 0x02]);
    let packet = b.build(0x00, 1);
    let expected: Vec<u8> = vec![
        0xfe, 0xfd, 0x00, 0x00, 0x00, 0x00, 0x01, // header with session id 1
        b'a', b'b', 0x00, // string
        0x07, // byte
        0xff, 0xfe, // short -2 big-endian
        0x00, 0x00, 0x01, 0x02, // int 258 big-endian
        0x01, 0x02, // raw bytes
    ];
    assert_eq!(packet, expected);
}

#[test]
fn element_clone_is_usable() {
    let e = Element::StringElement { val: "x".to_string() };
    let _e2 = e.clone();
}

#[test]
fn handshake_packet_bytes() {
    assert_eq!(pinger().handshake_packet(1), vec![0xfe, 0xfd, 0x09, 0x00, 0x00, 0x00, 0x01]);
}

#[test]
fn stat_request_packet_bytes() {
    let packet = pinger().stat_request_packet(1, 9513819);
    let expected: Vec<u8> = vec![
        0xfe, 0xfd, 0x00, 0x00, 0x00, 0x00, 0x01, // header
        0x00, 0x91, 0x2b, 0x5b, // challenge token big-endian
        0x00, 0x00, 0x00, 0x00, // padding
    ];
    assert_eq!(packet, expected);
}

fn challenge_reply(session_id_bytes: [u8; 4], token: &str) -> Vec<u8> {
    let mut data = vec![0x09];
    data.extend_from_slice(&session_id_bytes);
    data.extend_from_slice(token.as_bytes());
    data.push(0x00);
    data
}

#[test]
fn challenge_token_is_parsed() {
    let data = challenge_reply([0, 0, 0, 1], "9513819");
    assert_eq!(pinger().parse_challenge(&data, 1), Ok(9513819));
}

#[test]
fn challenge_negative_token_is_parsed() {
    let data = challenge_reply([0, 0, 0, 1], "-42");
    assert_eq!(pinger().parse_challenge(&data, 1), Ok(-42));
}

#[test]
fn challenge_session_id_mismatch() {
    let data = challenge_reply([0, 0, 0, 2], "9513819");
    assert_eq!(pinger().parse_challenge(&data, 1), Err(QueryPingError::PacketMismatch));
}

#[test]
fn challenge_wrong_type_byte() {
    let mut data = challenge_reply([0, 0, 0, 1], "9513819");
    data[0] = 0x00;
    assert_eq!(pinger().parse_challenge(&data, 1), Err(QueryPingError::PacketMismatch));
}

#[test]
fn challenge_bad_tokens_are_rejected() {
    // no NUL terminator
    let mut data = challenge_reply([0, 0, 0, 1], "9513819");
    data.pop();
    assert_eq!(pinger().parse_challenge(&data, 1), Err(QueryPingError::BadResponseString));
    // not a number
    let data = challenge_reply([0, 0, 0, 1], "12x4");
    assert_eq!(pinger().parse_challenge(&data, 1), Err(QueryPingError::BadResponseString));
    // out of i32 range
    let data = challenge_reply([0, 0, 0, 1], "99999999999");
    assert_eq!(pinger().parse_challenge(&data, 1), Err(QueryPingError::BadResponseString));
    // empty
    let data = challenge_reply([0, 0, 0, 1], "");
    assert_eq!(pinger().parse_challenge(&data, 1), Err(QueryPingError::BadResponseString));
    // interior NUL
    let data = challenge_reply([0, 0, 0, 1], "95\u{0}13");
    assert_eq!(pinger().parse_challenge(&data, 1), Err(QueryPingError::BadResponseString));
}

#[test]
fn challenge_token_with_leading_zeros() {
    let data = challenge_reply([0, 0, 0, 1], "0000000000000123");
    assert_eq!(pinger().parse_challenge(&data, 1), Ok(123));
}

fn stat_reply(session_id_bytes: [u8; 4], body: &[u8]) -> Vec<u8> {
    let mut data = vec![0x00];
    data.extend_from_slice(&session_id_bytes);
    data.extend_from_slice(&[0u8; 11]); // padding before the key/value section
    data.extend_from_slice(body);
    data
}

#[test]
fn stat_empty_sections_yield_empty_map_and_players() {
    let mut body = vec![0x00]; // the key section ends immediately
    body.extend_from_slice(&[0u8; 10]); // padding before the player section
    body.push(0x00); // the player section ends immediately
    let data = stat_reply([0, 0, 0, 1], &body);
    let parsed = pinger().parse_stat_response(&data, 1).unwrap();
    assert_eq!(parsed.hostname, "");
    assert_eq!(parsed.plugins, None);
    assert!(parsed.unrecognised.is_empty());
    assert!(parsed.players.is_empty());
}

#[test]
fn stat_fields_and_players_are_parsed() {
    let mut body = Vec::new();
    for (k, v) in [
        ("hostname", "A Minecraft Server"),
        ("gametype", "SMP"),
        ("version", "1.21"),
        ("plugins", "Essentials"),
        ("map", "world"),
        ("numplayers", "2"),
        ("maxplayers", "20"),
        ("hostport", "25565"),
        ("hostip", "10.0.0.1"),
        ("whitelist", "off"),
    ] {
        body.extend_from_slice(k.as_bytes());
        body.push(0);
        body.extend_from_slice(v.as_bytes());
        body.push(0);
    }
    body.push(0x00);
    body.extend_from_slice(&[0u8; 10]);
    body.extend_from_slice(b"Alice\0Bob\0\0");
    let data = stat_reply([0, 0, 0, 1], &body);
    let parsed = pinger().parse_stat_response(&data, 1).unwrap();
    assert_eq!(parsed.hostname, "A Minecraft Server");
    assert_eq!(parsed.game_type, "SMP");
    assert_eq!(parsed.version, "1.21");
    assert_eq!(parsed.plugins.as_deref(), Some("Essentials"));
    assert_eq!(parsed.map, "world");
    assert_eq!(parsed.num_players, "2");
    assert_eq!(parsed.max_players, "20");
    assert_eq!(parsed.host_port, "25565");
    assert_eq!(parsed.host_ip, "10.0.0.1");
    assert_eq!(parsed.unrecognised, vec![("whitelist".to_string(), "off".to_string())]);
    assert_eq!(parsed.players, vec!["Alice".to_string(), "Bob".to_string()]);
}

#[test]
fn stat_session_id_mismatch() {
    let mut body = vec![0x00];
    body.extend_from_slice(&[0u8; 10]);
    body.push(0x00);
    let data = stat_reply([0, 0, 0, 9], &body);
    assert!(matches!(
        pinger().parse_stat_response(&data, 1),
        Err(QueryPingError::PacketMismatch)
    ));
}

#[test]
fn stat_truncated_reply_is_bad() {
    // ends inside the key/value section
    let data = stat_reply([0, 0, 0, 1], b"hostname");
    assert!(matches!(
        pinger().parse_stat_response(&data, 1),
        Err(QueryPingError::BadResponseString)
    ));
    // ends inside the padding after the key/value section
    let data = stat_reply([0, 0, 0, 1], &[0x00, 0x00, 0x00]);
    assert!(matches!(
        pinger().parse_stat_response(&data, 1),
        Err(QueryPingError::BadResponseString)
    ));
}
