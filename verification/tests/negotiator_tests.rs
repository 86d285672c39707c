use mcping::legacy::{LegacyPingData, LegacyPingError};
use mcping::modern::{ModernPingData, ModernPingError};
use mcping::negotiator::{
    negotiate_after_legacy, negotiate_after_modern, negotiate_start, Endpoint, IpAddress,
    NegotiationOutcome, NegotiationStep,
};
use mcping::ping_json::{PingResponse, PingVersion};
use mcping::Selected;

fn endpoint() -> Endpoint {
    Endpoint { ip: IpAddress::V4(127, 0, 0, 1), port: 25565 }
}

fn modern_data() -> ModernPingData {
    ModernPingData {
        response: PingResponse {
            version: PingVersion { name: "1.21".to_string(), protocol: 767 },
            players: None,
            description: "\"hi\"".to_string(),
            favicon: String::new(),
            enforces_secure_chat: None,
            previews_chat: None,
            mods: None,
        },
        latency_ms: 42,
    }
}

fn legacy_data() -> LegacyPingData {
    LegacyPingData {
        motd: Some("motd".to_string()),
        online_players: Some("5".to_string()),
        max_players: Some("20".to_string()),
        unrecognised: Vec::new(),
        extra: None,
    }
}

#[test]
fn negotiation_opens_with_a_modern_attempt() {
    match negotiate_start(endpoint()) {
        NegotiationStep::AttemptModern { endpoint: e } => assert_eq!(e, endpoint()),
        other => panic!("expected a modern attempt, got {:?}", other),
    }
}

#[test]
fn modern_success_finishes() {
    match negotiate_after_modern(endpoint(), Ok(modern_data())) {
        NegotiationStep::Finished { outcome: NegotiationOutcome::Modern(d) } => {
            assert_eq!(d.latency_ms, 42);
        },
        other => panic!("expected a finished negotiation, got {:?}", other),
    }
}

#[test]
fn modern_failure_falls_back_to_legacy_on_same_endpoint() {
    // a connection-refused style transport failure
    let failure = ModernPingError::IoError("connection refused".to_string());
    match negotiate_after_modern(endpoint(), Err(failure)) {
        NegotiationStep::AttemptLegacy { endpoint: e, modern_error } => {
            assert_eq!(e, endpoint());
            assert!(matches!(modern_error, ModernPingError::IoError(_)));
        },
        other => panic!("expected a legacy attempt, got {:?}", other),
    }
}

#[test]
fn every_modern_failure_kind_falls_back() {
    let failures = vec![
        ModernPingError::WrongId(2, 0),
        ModernPingError::JsonError("bad json".to_string()),
        ModernPingError::ProtocolError(mcping::codec::ProtocolError::VarIntTooLarge),
        ModernPingError::IoError("timed out".to_string()),
    ];
    for failure in failures {
        match negotiate_after_modern(endpoint(), Err(failure)) {
            NegotiationStep::AttemptLegacy { endpoint: e, .. } => assert_eq!(e, endpoint()),
            other => panic!("expected a legacy attempt, got {:?}", other),
        }
    }
}

#[test]
fn legacy_success_keeps_modern_failure_as_context() {
    let failure = ModernPingError::IoError("connection refused".to_string());
    match negotiate_after_legacy(failure, Ok(legacy_data())) {
        NegotiationStep::Finished { outcome: NegotiationOutcome::Legacy(d, ctx) } => {
            assert_eq!(d.motd.as_deref(), Some("motd"));
            assert!(matches!(ctx, ModernPingError::IoError(_)));
        },
        other => panic!("expected a finished negotiation, got {:?}", other),
    }
}

#[test]
fn legacy_failure_is_final_with_both_errors() {
    let modern_failure = ModernPingError::WrongId(2, 0);
    let legacy_failure = LegacyPingError::WrongId(0x2a);
    match negotiate_after_legacy(modern_failure, Err(legacy_failure)) {
        NegotiationStep::Finished {
            outcome: NegotiationOutcome::Failed { modern, legacy },
        } => {
            assert!(matches!(modern, ModernPingError::WrongId(2, 0)));
            assert!(matches!(legacy, LegacyPingError::WrongId(0x2a)));
        },
        other => panic!("expected a failed negotiation, got {:?}", other),
    }
}

#[test]
fn selected_carries_value_or_sentinel() {
    let s: Selected<u32> = Selected::Value(7);
    assert!(matches!(s, Selected::Value(7)));
    let s: Selected<u32> = Selected::Special(-1);
    assert!(matches!(s, Selected::Special(-1)));
}
