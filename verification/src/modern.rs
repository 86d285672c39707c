//! The modern, length-framed status protocol: a handshake packet naming the
//! protocol version, hostname and port, a fixed status request, a framed JSON
//! reply, and a fixed ping packet for the latency exchange.

use vstd::prelude::*;
use vstd::utf8::encode_utf8;
use crate::codec::{
    be16_bytes, push_u16_be, string_bytes, string_decode, varint_bytes, varint_decode,
    read_string_from, write_string_to, ProtocolError, StringDecode, VarInt, VarIntDecode,
};
use crate::ping_json::PingResponse;

verus! {

/// A successful modern exchange: the decoded status reply and the measured
/// round-trip latency of the trailing ping/pong, in milliseconds.
#[derive(Debug)]
pub struct ModernPingData {
    pub response: PingResponse,
    pub latency_ms: u64,
}

/// A failure of the modern exchange.
#[derive(Debug, Clone)]
pub enum ModernPingError {
    /// The reply carried the wrong packet id: the observed id, then the
    /// expected one.
    WrongId(i32, i32),
    /// The reply's JSON document could not be deserialized.
    JsonError(String),
    /// The reply's framing could not be decoded.
    ProtocolError(ProtocolError),
    /// The transport failed.
    IoError(String),
}

/// Configuration of one modern status exchange.
pub struct ModernPinger {
    /// The protocol version announced in the handshake; -1 is the wire
    /// format's "unspecified/latest" sentinel.
    pub protocol_version: i32,
    pub hostname: String,
    pub read_timeout_ms: u64,
}

/// The body of the handshake packet: packet id 0, the protocol version, the
/// length-prefixed hostname, the big-endian port, and next-state 1 (status).
pub open spec fn handshake_body_bytes(pv: i32, hostname: Seq<char>, port: u16) -> Seq<u8> {
    varint_bytes(0) + varint_bytes(pv as u32) + string_bytes(hostname) + be16_bytes(port)
        + varint_bytes(1)
}

/// The whole handshake packet: its body prefixed with the body's own VarInt
/// byte length.
pub open spec fn handshake_packet_bytes(pv: i32, hostname: Seq<char>, port: u16) -> Seq<u8> {
    varint_bytes(handshake_body_bytes(pv, hostname, port).len() as u32) + handshake_body_bytes(
        pv,
        hostname,
        port,
    )
}

/// The outcome of decoding a framed status reply.
pub enum StatusReplyDecode {
    /// Packet id 0 and a complete string frame: the JSON text.
    Json(Seq<char>),
    /// A terminated frame whose packet id was not 0: the observed id.
    WrongId(i32),
    /// The framing itself could not be decoded.
    Malformed(ProtocolError),
}

/// Decodes a framed status reply: a VarInt total length (read but not
/// validated), a VarInt packet id that must be 0, and a length-prefixed JSON
/// string.
pub open spec fn status_reply_decode(s: Seq<u8>) -> StatusReplyDecode {
    match varint_decode(s) {
        VarIntDecode::Value { value: _, len: a } => {
            match varint_decode(s.skip(a)) {
                VarIntDecode::Value { value: id, len: b } => {
                    if id as i32 != 0 {
                        StatusReplyDecode::WrongId(id as i32)
                    } else {
                        match string_decode(s.skip(a + b)) {
                            StringDecode::Value { chars, .. } => StatusReplyDecode::Json(chars),
                            StringDecode::TooLarge => StatusReplyDecode::Malformed(
                                ProtocolError::VarIntTooLarge,
                            ),
                            StringDecode::Incomplete => StatusReplyDecode::Malformed(
                                ProtocolError::UnexpectedEof,
                            ),
                        }
                    }
                },
                VarIntDecode::TooLarge => StatusReplyDecode::Malformed(
                    ProtocolError::VarIntTooLarge,
                ),
                VarIntDecode::Incomplete => StatusReplyDecode::Malformed(
                    ProtocolError::UnexpectedEof,
                ),
            }
        },
        VarIntDecode::TooLarge => StatusReplyDecode::Malformed(ProtocolError::VarIntTooLarge),
        VarIntDecode::Incomplete => StatusReplyDecode::Malformed(ProtocolError::UnexpectedEof),
    }
}

impl ModernPinger {
    /// Builds the handshake packet for this configuration against `port`.
    /// The hostname's UTF-8 form must leave room for the fixed fields within
    /// the frame's 31-bit length budget.
    pub fn handshake_packet(&self, port: u16) -> (r: Vec<u8>)
        requires
            encode_utf8(self.hostname@).len() < 0x7fff_ffe0,
        ensures
            r@ == handshake_packet_bytes(self.protocol_version, self.hostname@, port),
    {
        let mut body: Vec<u8> = Vec::new();
        VarInt(0x00).write_to(&mut body);
        VarInt(self.protocol_version).write_to(&mut body);
        write_string_to(self.hostname.as_str(), &mut body);
        push_u16_be(port, &mut body);
        VarInt(1).write_to(&mut body);
        proof {
            assert(body@ =~= handshake_body_bytes(self.protocol_version, self.hostname@, port));
            crate::codec::lemma_varint_bytes_len(0);
            crate::codec::lemma_varint_bytes_len(self.protocol_version as u32);
            crate::codec::lemma_varint_bytes_len(encode_utf8(self.hostname@).len() as u32);
            crate::codec::lemma_varint_bytes_len(1);
        }
        let mut packet: Vec<u8> = Vec::new();
        VarInt(body.len() as i32).write_to(&mut packet);
        let mut body = body;
        packet.append(&mut body);
        proof {
            assert(packet@ =~= handshake_packet_bytes(
                self.protocol_version,
                self.hostname@,
                port,
            ));
        }
        packet
    }

    /// The fixed status-request packet: frame length 1, packet id 0.
    pub fn status_request_packet(&self) -> (r: Vec<u8>)
        ensures
            r@ == seq![0x01u8, 0x00u8],
    {
        let mut v: Vec<u8> = Vec::new();
        v.push(0x01);
        v.push(0x00);
        proof {
            assert(v@ =~= seq![0x01u8, 0x00u8]);
        }
        v
    }

    /// The fixed ping packet for the latency exchange: frame length 9, packet
    /// id 1, and eight payload bytes.
    pub fn ping_packet(&self) -> (r: Vec<u8>)
        ensures
            r@ == seq![0x09u8, 0x01u8, 0u8, 0u8, 0u8, 0u8, 0u8, 0u8, 0u8, 0u8],
    {
        let mut v: Vec<u8> = Vec::new();
        v.push(0x09);
        v.push(0x01);
        let mut i: usize = 0;
        while i < 8
            invariant
                2 <= v@.len() == i + 2 <= 10,
                v@[0] == 0x09u8 && v@[1] == 0x01u8,
                forall|k: int| 2 <= k < v@.len() ==> v@[k] == 0u8,
            decreases 8 - i,
        {
            v.push(0x00);
            i = i + 1;
        }
        proof {
            assert(v@ =~= seq![0x09u8, 0x01u8, 0u8, 0u8, 0u8, 0u8, 0u8, 0u8, 0u8, 0u8]);
        }
        v
    }

    /// Decodes a framed status reply: checks that the packet id is 0 and
    /// returns the reply's JSON text. A non-zero id is reported as a wrong-id
    /// error carrying the observed and the expected id.
    pub fn parse_status_response(&self, data: &Vec<u8>) -> (r: Result<String, ModernPingError>)
        ensures
            match status_reply_decode(data@) {
                StatusReplyDecode::Json(chars) => r matches Ok(s) && s@ == chars,
                StatusReplyDecode::WrongId(id) => r matches Err(e) && e matches
                    ModernPingError::WrongId(observed, expected) && observed == id && expected
                    == 0,
                StatusReplyDecode::Malformed(pe) => r matches Err(e) && e matches
                    ModernPingError::ProtocolError(pe2) && pe2 == pe,
            },
    {
        let mut pos: usize = 0;
        proof {
            assert(data@.skip(0) =~= data@);
        }
        let _total_len = match VarInt::read_from(data, &mut pos) {
            Ok(v) => v,
            Err(e) => {
                return Err(ModernPingError::ProtocolError(e));
            },
        };
        let packet_id = match VarInt::read_from(data, &mut pos) {
            Ok(v) => v,
            Err(e) => {
                return Err(ModernPingError::ProtocolError(e));
            },
        };
        if packet_id.0 != 0x00 {
            return Err(ModernPingError::WrongId(packet_id.0, 0x00));
        }
        match read_string_from(data, &mut pos) {
            Ok(s) => Ok(s),
            Err(e) => Err(ModernPingError::ProtocolError(e)),
        }
    }
}

/// Changing only the port leaves the handshake packet's length and every
/// byte unchanged except the two big-endian port bytes, which sit just
/// before the final next-state byte.
pub proof fn lemma_handshake_port_field(pv: i32, hostname: Seq<char>, p1: u16, p2: u16)
    ensures
        handshake_packet_bytes(pv, hostname, p1).len() == handshake_packet_bytes(
            pv,
            hostname,
            p2,
        ).len(),
        forall|i: int|
            0 <= i < handshake_packet_bytes(pv, hostname, p1).len() && i != handshake_packet_bytes(
                pv,
                hostname,
                p1,
            ).len() - 3 && i != handshake_packet_bytes(pv, hostname, p1).len() - 2
                ==> handshake_packet_bytes(pv, hostname, p1)[i] == handshake_packet_bytes(
                pv,
                hostname,
                p2,
            )[i],
        handshake_packet_bytes(pv, hostname, p1)[handshake_packet_bytes(
            pv,
            hostname,
            p1,
        ).len() - 3] == be16_bytes(p1)[0],
        handshake_packet_bytes(pv, hostname, p1)[handshake_packet_bytes(
            pv,
            hostname,
            p1,
        ).len() - 2] == be16_bytes(p1)[1],
{
    let body1 = handshake_body_bytes(pv, hostname, p1);
    let body2 = handshake_body_bytes(pv, hostname, p2);
    let head = varint_bytes(0) + varint_bytes(pv as u32) + string_bytes(hostname);
    let tail = varint_bytes(1);
    assert(body1 =~= head + be16_bytes(p1) + tail);
    assert(body2 =~= head + be16_bytes(p2) + tail);
    assert(body1.len() == body2.len());
    let pfx = varint_bytes(body1.len() as u32);
    let a = handshake_packet_bytes(pv, hostname, p1);
    let b = handshake_packet_bytes(pv, hostname, p2);
    assert(a =~= pfx + head + be16_bytes(p1) + tail);
    assert(b =~= pfx + head + be16_bytes(p2) + tail);
    assert(tail.len() == 1);
    assert(forall|i: int|
        0 <= i < a.len() && i != a.len() - 3 && i != a.len() - 2 ==> a[i] == b[i]);
}

} // verus!
