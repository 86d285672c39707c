use mcping::legacy::{parse_legacy_response, LegacyPinger, LegacyPingError};

fn units_of(s: &str) -> Vec<u16> {
    s.encode_utf16().collect()
}

#[test]
fn request_bytes_are_exact() {
    let p = LegacyPinger { protocol_version: 0, hostname: "A".to_string() };
    let expected: Vec<u8> = vec![
        0xfe, 0x01, 0xfa, // opening bytes and plugin-message marker
        0x00, 0x0b, // channel name length: 11 UTF-16 units
        0x00, b'M', 0x00, b'C', 0x00, b'|', 0x00, b'P', 0x00, b'i', 0x00, b'n', 0x00, b'g',
        0x00, b'H', 0x00, b'o', 0x00, b's', 0x00, b't',
        0x00, 0x08, // payload length: hostname units + 7
        0x00, // protocol version byte
        0x00, 0x01, // hostname length: 1 unit
        0x00, b'A',
        0x00, 0x00, 0x63, 0xdd, // port 25565 as 32-bit big-endian
    ];
    assert_eq!(p.build_request(25565).unwrap(), expected);
}

#[test]
fn request_refused_when_hostname_overflows_prefix() {
    let long = "x".repeat(0x10000);
    let p = LegacyPinger { protocol_version: 0, hostname: long };
    assert!(p.build_request(25565).is_none());
}

#[test]
fn sixteen_variant_parses_with_extra_block() {
    let units = units_of("\u{00a7}1\u{0}47\u{0}55\u{0}A Minecraft Server\u{0}5\u{0}20");
    let data = parse_legacy_response(0xff, &units).unwrap();
    assert_eq!(data.motd.as_deref(), Some("A Minecraft Server"));
    assert_eq!(data.online_players.as_deref(), Some("5"));
    assert_eq!(data.max_players.as_deref(), Some("20"));
    assert!(data.unrecognised.is_empty());
    let extra = data.extra.expect("the marker variant carries the extra block");
    assert_eq!(extra.protocol_version.as_deref(), Some("47"));
    assert_eq!(extra.server_version.as_deref(), Some("55"));
}

#[test]
fn pre_sixteen_variant_parses_without_extra_block() {
    let units = units_of("A Minecraft Server\u{00a7}5\u{00a7}20");
    let data = parse_legacy_response(0xff, &units).unwrap();
    assert_eq!(data.motd.as_deref(), Some("A Minecraft Server"));
    assert_eq!(data.online_players.as_deref(), Some("5"));
    assert_eq!(data.max_players.as_deref(), Some("20"));
    assert!(data.unrecognised.is_empty());
    assert!(data.extra.is_none());
}

#[test]
fn trailing_fields_are_kept_as_unrecognised() {
    let units = units_of("\u{00a7}1\u{0}47\u{0}55\u{0}motd\u{0}5\u{0}20\u{0}more\u{0}here");
    let data = parse_legacy_response(0xff, &units).unwrap();
    assert_eq!(data.unrecognised, vec!["more".to_string(), "here".to_string()]);
}

#[test]
fn single_field_reply_is_unexpected() {
    // the marker variant with only one NUL-separated field
    let units = units_of("\u{00a7}1\u{0}47");
    match parse_legacy_response(0xff, &units) {
        Err(LegacyPingError::UnexpectedReply(field)) => assert_eq!(field, "47"),
        other => panic!("expected an unexpected-reply error, got {:?}", other),
    }
    // the plain variant with no section sign at all
    let units = units_of("A Minecraft Server");
    match parse_legacy_response(0xff, &units) {
        Err(LegacyPingError::UnexpectedReply(field)) => {
            assert_eq!(field, "A Minecraft Server");
        },
        other => panic!("expected an unexpected-reply error, got {:?}", other),
    }
}

#[test]
fn wrong_packet_id_is_reported() {
    let units = units_of("whatever");
    match parse_legacy_response(0x2a, &units) {
        Err(LegacyPingError::WrongId(b)) => assert_eq!(b, 0x2a),
        other => panic!("expected a wrong-id error, got {:?}", other),
    }
}

#[test]
fn unpaired_surrogate_is_invalid_string_data() {
    let units: Vec<u16> = vec![0xd800, b'x' as u16];
    match parse_legacy_response(0xff, &units) {
        Err(LegacyPingError::InvalidStringData) => {},
        other => panic!("expected an invalid-string error, got {:?}", other),
    }
}

#[test]
fn non_ascii_motd_survives_utf16() {
    // a motd with a character outside the basic multilingual plane
    let units = units_of("caf\u{e9} \u{1f600}\u{00a7}5\u{00a7}20");
    let data = parse_legacy_response(0xff, &units).unwrap();
    assert_eq!(data.motd.as_deref(), Some("caf\u{e9} \u{1f600}"));
}
