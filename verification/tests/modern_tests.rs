use mcping::codec::ProtocolError;
use mcping::modern::{ModernPinger, ModernPingError};

fn pinger(protocol_version: i32, hostname: &str) -> ModernPinger {
    ModernPinger { protocol_version, hostname: hostname.to_string(), read_timeout_ms: 5000 }
}

#[test]
fn handshake_bytes_are_deterministic() {
    let p = pinger(-1, "example.com");
    let expected: Vec<u8> = vec![
        0x15, // frame length: 21 bytes of body
        0x00, // packet id 0
        0xff, 0xff, 0xff, 0xff, 0x0f, // protocol version -1
        0x0b, // hostname byte length 11
        b'e', b'x', b'a', b'm', b'p', b'l', b'e', b'.', b'c', b'o', b'm',
        0x63, 0xdd, // port 25565 big-endian
        0x01, // next state: status
    ];
    assert_eq!(p.handshake_packet(25565), expected);
    // the same inputs give the same bytes again
    assert_eq!(p.handshake_packet(25565), expected);
}

#[test]
fn handshake_port_changes_exactly_two_bytes() {
    let p = pinger(-1, "example.com");
    let a = p.handshake_packet(25565);
    let b = p.handshake_packet(25566);
    assert_eq!(a.len(), b.len());
    let n = a.len();
    for i in 0..n {
        if i == n - 3 || i == n - 2 {
            continue;
        }
        assert_eq!(a[i], b[i], "byte {} changed with the port", i);
    }
    assert_eq!(&a[n - 3..n - 1], &[0x63, 0xdd]);
    assert_eq!(&b[n - 3..n - 1], &[0x63, 0xde]);
}

#[test]
fn fixed_packets() {
    let p = pinger(-1, "example.com");
    assert_eq!(p.status_request_packet(), vec![0x01, 0x00]);
    assert_eq!(p.ping_packet(), vec![0x09, 0x01, 0, 0, 0, 0, 0, 0, 0, 0]);
}

fn frame_status_response(packet_id: i32, json: &str) -> Vec<u8> {
    let mut body = Vec::new();
    mcping::codec::VarInt(packet_id).write_to(&mut body);
    mcping::codec::write_string_to(json, &mut body);
    let mut out = Vec::new();
    mcping::codec::VarInt(body.len() as i32).write_to(&mut out);
    out.extend_from_slice(&body);
    out
}

#[test]
fn status_response_returns_json_text() {
    let p = pinger(-1, "example.com");
    let json = "{\"version\":{\"name\":\"1.21\",\"protocol\":767}}";
    let data = frame_status_response(0x00, json);
    assert_eq!(p.parse_status_response(&data).unwrap(), json);
}

#[test]
fn status_response_wrong_id_reports_observed_and_expected() {
    let p = pinger(-1, "example.com");
    let data = frame_status_response(0x02, "{}");
    match p.parse_status_response(&data) {
        Err(ModernPingError::WrongId(observed, expected)) => {
            assert_eq!(observed, 2);
            assert_eq!(expected, 0);
        },
        other => panic!("expected a wrong-id error, got {:?}", other),
    }
}

#[test]
fn status_response_truncated_is_protocol_error() {
    let p = pinger(-1, "example.com");
    let data = vec![0x10, 0x00, 0x20, b'{'];
    match p.parse_status_response(&data) {
        Err(ModernPingError::ProtocolError(ProtocolError::UnexpectedEof)) => {},
        other => panic!("expected an eof error, got {:?}", other),
    }
}

#[test]
fn status_response_unterminated_length_is_protocol_error() {
    let p = pinger(-1, "example.com");
    let data = vec![0x80, 0x80, 0x80, 0x80, 0x80, 0x80];
    match p.parse_status_response(&data) {
        Err(ModernPingError::ProtocolError(ProtocolError::VarIntTooLarge)) => {},
        other => panic!("expected a too-large error, got {:?}", other),
    }
}
