//! The UDP query protocol: a challenge handshake followed by a full-stat
//! request, answered by NUL-terminated key/value pairs and a player-name
//! list. Every reply echoes the caller's session id.

use vstd::prelude::*;
use crate::codec::be32_bytes;
use crate::netutil::{
    elements_bytes, find_byte, lemma_find_byte, packet_bytes, Element, PacketBuilder, PacketUtils,
};
use crate::strutil::decode_utf8_lossy;

verus! {

/// A decoded full-stat reply: the well-known fields, every unrecognised
/// key/value pair verbatim, and the ordered list of online player names.
#[derive(Debug)]
pub struct QueryData {
    pub hostname: String,
    pub game_type: String,
    pub version: String,
    pub plugins: Option<String>,
    pub map: String,
    pub num_players: String,
    pub max_players: String,
    pub host_port: String,
    pub host_ip: String,
    pub unrecognised: Vec<(String, String)>,
    pub players: Vec<String>,
}

/// Configuration of one query exchange.
pub struct QueryPinger {
    pub read_timeout_ms: u64,
}

/// A failure of the query exchange.
#[derive(Debug, Clone, PartialEq)]
pub enum QueryPingError {
    /// The peer did not answer within the read timeout.
    TimeoutReached,
    /// A reply's payload was malformed.
    BadResponseString,
    /// A reply's type byte or echoed session id did not match the request.
    PacketMismatch,
    /// The transport failed.
    IoError(String),
}

/// True when every byte is an ASCII decimal digit.
pub open spec fn all_digits(b: Seq<u8>) -> bool {
    forall|i: int| 0 <= i < b.len() ==> 0x30 <= #[trigger] b[i] <= 0x39
}

/// The value of an ASCII digit string.
pub open spec fn dec_value(b: Seq<u8>) -> int
    decreases b.len(),
{
    if b.len() == 0 {
        0
    } else {
        dec_value(b.drop_last()) * 10 + (b.last() - 0x30)
    }
}

/// A digit string's value is never negative.
pub proof fn lemma_dec_value_nonneg(b: Seq<u8>)
    requires
        all_digits(b),
    ensures
        dec_value(b) >= 0,
    decreases b.len(),
{
    if b.len() > 0 {
        assert(all_digits(b.drop_last()));
        lemma_dec_value_nonneg(b.drop_last());
    }
}

/// Extending a digit string only grows its value.
pub proof fn lemma_dec_value_prefix(b: Seq<u8>, k: int)
    requires
        all_digits(b),
        0 <= k <= b.len(),
    ensures
        dec_value(b) >= dec_value(b.take(k)),
    decreases b.len() - k,
{
    if k < b.len() {
        assert(all_digits(b.take(k)));
        lemma_dec_value_nonneg(b.take(k));
        assert(b.take(k + 1).drop_last() =~= b.take(k));
        assert(b.take(k + 1).last() == b[k]);
        lemma_dec_value_prefix(b, k + 1);
    } else {
        assert(b.take(k) =~= b);
    }
}

/// Parses a signed decimal 32-bit integer, as the challenge token arrives on
/// the wire: an optional sign, then one or more digits, within i32's range.
pub open spec fn parse_i32_dec(b: Seq<u8>) -> Option<i32> {
    let neg = b.len() > 0 && b[0] == 0x2d;
    let ds = if b.len() > 0 && (b[0] == 0x2d || b[0] == 0x2b) {
        b.drop_first()
    } else {
        b
    };
    if ds.len() == 0 || !all_digits(ds) {
        None
    } else {
        let sv = if neg {
            -dec_value(ds)
        } else {
            dec_value(ds)
        };
        if -0x8000_0000 <= sv <= 0x7fff_ffff {
            Some(sv as i32)
        } else {
            None
        }
    }
}

/// Parses the ASCII decimal in `b` into an i32, mirroring `parse_i32_dec`.
fn parse_i32_ascii(b: &Vec<u8>) -> (r: Option<i32>)
    ensures
        r == parse_i32_dec(b@),
{
    let mut start: usize = 0;
    let mut neg = false;
    if b.len() > 0 && b[0] == 0x2d {
        neg = true;
        start = 1;
    } else if b.len() > 0 && b[0] == 0x2b {
        start = 1;
    }
    let ghost ds = if start == 1 {
        b@.drop_first()
    } else {
        b@
    };
    proof {
        assert(forall|k: int| 0 <= k < ds.len() ==> ds[k] == b@[start + k]);
        assert(ds.len() == b@.len() - start);
    }
    if b.len() == start {
        return None;
    }
    let mut acc: u64 = 0;
    let mut i = start;
    while i < b.len()
        invariant
            start <= i <= b@.len(),
            start <= 1,
            (start == 1) == (b@.len() > 0 && (b@[0] == 0x2d || b@[0] == 0x2b)),
            neg == (b@.len() > 0 && b@[0] == 0x2d),
            ds == (if b@.len() > 0 && (b@[0] == 0x2d || b@[0] == 0x2b) {
                b@.drop_first()
            } else {
                b@
            }),
            forall|k: int| 0 <= k < ds.len() ==> ds[k] == b@[start + k],
            ds.len() == b@.len() - start,
            all_digits(ds.take(i - start)),
            acc as int == dec_value(ds.take(i - start)),
            acc <= 0x8000_0000,
        decreases b@.len() - i,
    {
        let d = b[i];
        if d < 0x30 || d > 0x39 {
            proof {
                assert(ds[i - start] == d);
                assert(!all_digits(ds));
            }
            return None;
        }
        let next: u64 = acc * 10 + ((d - 0x30) as u64);
        i = i + 1;
        proof {
            assert(ds.take(i - start).drop_last() =~= ds.take(i - 1 - start));
            assert(ds.take(i - start).last() == ds[i - 1 - start]);
            assert(all_digits(ds.take(i - start)));
        }
        if next > 0x8000_0000 {
            proof {
                if all_digits(ds) {
                    lemma_dec_value_prefix(ds, i - start);
                    assert(ds.take(ds.len() as int) =~= ds);
                }
            }
            return None;
        }
        acc = next;
    }
    proof {
        assert(ds.take(i - start) =~= ds);
    }
    if neg {
        let sv: i64 = -(acc as i64);
        Some(sv as i32)
    } else {
        if acc > 0x7fff_ffff {
            return None;
        }
        Some(acc as i32)
    }
}

/// The outcome of decoding a challenge handshake reply.
pub enum ChallengeDecode {
    /// Type byte 9, matching session id, and a NUL-terminated decimal token.
    Token(i32),
    /// The type byte or the echoed session id did not match.
    Mismatch,
    /// The token was missing its NUL terminator, held an interior NUL, or was
    /// not a decimal in range.
    BadString,
}

/// Decodes a challenge handshake reply against the expected session id. The
/// token bytes must end in exactly one NUL, with the decimal before it.
pub open spec fn challenge_decode(s: Seq<u8>, session_id: i32) -> ChallengeDecode {
    if s.len() < 5 || s[0] != 9 || s.subrange(1, 5) != be32_bytes(session_id as u32) {
        ChallengeDecode::Mismatch
    } else {
        let rest = s.skip(5);
        if rest.len() == 0 || find_byte(rest, 0) != rest.len() - 1 {
            ChallengeDecode::BadString
        } else {
            match parse_i32_dec(rest.drop_last()) {
                Some(v) => ChallengeDecode::Token(v),
                None => ChallengeDecode::BadString,
            }
        }
    }
}

impl QueryPinger {
    /// The challenge handshake packet: type byte 9, the session id, and no
    /// payload.
    pub fn handshake_packet(&self, session_id: i32) -> (r: Vec<u8>)
        ensures
            r@ == packet_bytes(Seq::empty(), 9, session_id),
    {
        let builder = PacketBuilder::new();
        let r = builder.build(0x09, session_id);
        proof {
            assert(elements_bytes(Seq::<Element>::empty()) =~= Seq::<u8>::empty());
        }
        r
    }

    /// The full-stat request packet: type byte 0, the session id, the
    /// big-endian challenge token, and four padding bytes.
    pub fn stat_request_packet(&self, session_id: i32, challenge: i32) -> (r: Vec<u8>)
        ensures
            r@ == packet_bytes(
                be32_bytes(challenge as u32) + seq![0u8, 0u8, 0u8, 0u8],
                0,
                session_id,
            ),
    {
        let mut builder = PacketBuilder::new();
        builder.insert_int(challenge);
        let pad: Vec<u8> = vec![0, 0, 0, 0];
        proof {
            assert(pad@ =~= seq![0u8, 0u8, 0u8, 0u8]);
        }
        builder.insert_bytearray(pad);
        let ghost es = builder.elements@;
        let r = builder.build(0x00, session_id);
        proof {
            assert(es.len() == 2);
            assert(es.drop_last() =~= seq![Element::Int32 { val: challenge }]);
            assert(es[0] == Element::Int32 { val: challenge }) by {
                assert(es.drop_last()[0] == es[0]);
            }
            assert(es.last() == es[1]);
            assert(es.drop_first() =~= seq![es[1]]);
            assert(seq![es[1]].drop_first() =~= Seq::<Element>::empty());
            assert(elements_bytes(Seq::<Element>::empty()) =~= Seq::<u8>::empty());
            assert(elements_bytes(seq![es[1]]) == crate::netutil::element_bytes(es[1])
                + elements_bytes(seq![es[1]].drop_first()));
            assert(elements_bytes(es) == crate::netutil::element_bytes(es[0]) + elements_bytes(
                es.drop_first(),
            ));
            assert(elements_bytes(es) =~= be32_bytes(challenge as u32) + seq![0u8, 0u8, 0u8, 0u8]);
        }
        r
    }

    /// Decodes a challenge handshake reply: checks the type byte and echoed
    /// session id, then parses the NUL-terminated decimal challenge token.
    pub fn parse_challenge(&self, data: &Vec<u8>, session_id: i32) -> (r: Result<
        i32,
        QueryPingError,
    >)
        ensures
            match challenge_decode(data@, session_id) {
                ChallengeDecode::Token(v) => r == Ok::<i32, QueryPingError>(v),
                ChallengeDecode::Mismatch => r == Err::<i32, QueryPingError>(
                    QueryPingError::PacketMismatch,
                ),
                ChallengeDecode::BadString => r == Err::<i32, QueryPingError>(
                    QueryPingError::BadResponseString,
                ),
            },
    {
        if data.len() < 5 || data[0] != 0x09 {
            return Err(QueryPingError::PacketMismatch);
        }
        let sid = session_id as u32;
        proof {
            assert(sid >> 24 < 0x100 && (sid >> 16) & 0xff < 0x100 && (sid >> 8) & 0xff < 0x100
                && sid & 0xff < 0x100) by (bit_vector);
        }
        if data[1] != (sid >> 24) as u8 || data[2] != ((sid >> 16) & 0xff) as u8 || data[3] != ((
        sid >> 8) & 0xff) as u8 || data[4] != (sid & 0xff) as u8 {
            proof {
                assert(data@.subrange(1, 5) != be32_bytes(sid));
            }
            return Err(QueryPingError::PacketMismatch);
        }
        proof {
            assert(data@.subrange(1, 5) =~= be32_bytes(sid));
            lemma_find_byte(data@.skip(5), 0);
            assert(forall|k: int|
                0 <= k < data@.len() - 5 ==> #[trigger] data@.skip(5)[k] == data@[5 + k]);
        }
        if data.len() == 5 || data[data.len() - 1] != 0x00 {
            proof {
                let rest = data@.skip(5);
                if data@.len() > 5 && find_byte(rest, 0) == rest.len() - 1 {
                    assert(rest[rest.len() - 1] == 0u8);
                }
            }
            return Err(QueryPingError::BadResponseString);
        }
        let mut token: Vec<u8> = Vec::new();
        let mut i: usize = 5;
        let end = data.len() - 1;
        while i < end
            invariant
                5 <= i <= end < data@.len(),
                end == data@.len() - 1,
                data@[0] == 9u8,
                data@.subrange(1, 5) == be32_bytes(session_id as u32),
                data@[data@.len() - 1] == 0u8,
                forall|k: int| 5 <= k < i ==> data@[k] != 0u8,
                token@ == data@.subrange(5, i as int),
            decreases end - i,
        {
            if data[i] == 0x00 {
                proof {
                    let rest = data@.skip(5);
                    lemma_find_byte(rest, 0);
                    assert(rest[i - 5] == 0u8);
                    assert(find_byte(rest, 0) <= i - 5 < rest.len() - 1) by {
                        if find_byte(rest, 0) > i - 5 {
                            assert(rest[i - 5] != 0u8);
                        }
                        if find_byte(rest, 0) == -1 {
                            assert(rest[i - 5] != 0u8);
                        }
                    }
                }
                return Err(QueryPingError::BadResponseString);
            }
            token.push(data[i]);
            i = i + 1;
            proof {
                assert(token@ =~= data@.subrange(5, i as int));
            }
        }
        proof {
            let rest = data@.skip(5);
            lemma_find_byte(rest, 0);
            assert(rest[rest.len() - 1] == 0u8);
            assert(find_byte(rest, 0) == rest.len() - 1) by {
                if find_byte(rest, 0) < rest.len() - 1 {
                    if find_byte(rest, 0) >= 0 {
                        assert(rest[find_byte(rest, 0)] == 0u8);
                        assert(data@[5 + find_byte(rest, 0)] == 0u8);
                        assert(false);
                    } else {
                        assert(rest[rest.len() - 1] != 0u8);
                    }
                }
            }
            assert(token@ =~= rest.drop_last());
        }
        match parse_i32_ascii(&token) {
            Some(v) => Ok(v),
            None => Err(QueryPingError::BadResponseString),
        }
    }
}

/// Reads one NUL-terminated byte string at `pos`: the bytes before the first
/// NUL, and the position just past it. `None` when no NUL follows.
pub open spec fn read_cstr(s: Seq<u8>, pos: int) -> Option<(Seq<u8>, int)> {
    if 0 <= pos <= s.len() {
        let f = find_byte(s.skip(pos), 0);
        if f >= 0 {
            Some((s.subrange(pos, pos + f), pos + f + 1))
        } else {
            None
        }
    } else {
        None
    }
}

/// A successful `read_cstr` lands strictly past `pos` and within the buffer.
pub proof fn lemma_read_cstr(s: Seq<u8>, pos: int)
    ensures
        read_cstr(s, pos) matches Some((b, p2)) ==> pos < p2 <= s.len() && b.len() == p2 - pos
            - 1,
{
    if 0 <= pos <= s.len() {
        lemma_find_byte(s.skip(pos), 0);
    }
}

/// Reads key/value string pairs until an empty key, decoding each lossily:
/// the pairs and the position just past the empty key's terminator.
pub open spec fn read_pairs(s: Seq<u8>, pos: int) -> Option<
    (Seq<(Seq<char>, Seq<char>)>, int),
>
    decreases s.len() - pos,
    via read_pairs_decreases
{
    match read_cstr(s, pos) {
        None => None,
        Some((k, p2)) => {
            if k.len() == 0 {
                Some((Seq::empty(), p2))
            } else {
                match read_cstr(s, p2) {
                    None => None,
                    Some((v, p3)) => {
                        match read_pairs(s, p3) {
                            None => None,
                            Some((rest, p4)) => Some(
                                (seq![(decode_utf8_lossy(k), decode_utf8_lossy(v))] + rest, p4),
                            ),
                        }
                    },
                }
            }
        },
    }
}

#[via_fn]
proof fn read_pairs_decreases(s: Seq<u8>, pos: int) {
    lemma_read_cstr(s, pos);
    match read_cstr(s, pos) {
        Some((k, p2)) => lemma_read_cstr(s, p2),
        None => (),
    }
}

/// Reads strings until an empty one, decoding each lossily: the non-empty
/// strings and the position just past the empty string's terminator.
pub open spec fn read_names(s: Seq<u8>, pos: int) -> Option<(Seq<Seq<char>>, int)>
    decreases s.len() - pos,
    via read_names_decreases
{
    match read_cstr(s, pos) {
        None => None,
        Some((n, p2)) => {
            if n.len() == 0 {
                Some((Seq::empty(), p2))
            } else {
                match read_names(s, p2) {
                    None => None,
                    Some((rest, p3)) => Some((seq![decode_utf8_lossy(n)] + rest, p3)),
                }
            }
        },
    }
}

#[via_fn]
proof fn read_names_decreases(s: Seq<u8>, pos: int) {
    lemma_read_cstr(s, pos);
}

/// The outcome of decoding a full-stat reply.
pub enum StatDecode {
    /// Type byte 0 and matching session id: the key/value pairs and the
    /// player names.
    Data { pairs: Seq<(Seq<char>, Seq<char>)>, players: Seq<Seq<char>> },
    /// The type byte or the echoed session id did not match.
    Mismatch,
    /// The payload ended inside a section or a padding block.
    BadString,
}

/// Decodes a full-stat reply against the expected session id: after the
/// five-byte header, an 11-byte padding block, the key/value section, a
/// 10-byte padding block, and the player-name section.
pub open spec fn stat_decode(s: Seq<u8>, session_id: i32) -> StatDecode {
    if s.len() < 5 || s[0] != 0 || s.subrange(1, 5) != be32_bytes(session_id as u32) {
        StatDecode::Mismatch
    } else if s.len() < 16 {
        StatDecode::BadString
    } else {
        match read_pairs(s, 16) {
            None => StatDecode::BadString,
            Some((pairs, p)) => {
                if p + 10 > s.len() {
                    StatDecode::BadString
                } else {
                    match read_names(s, p + 10) {
                        None => StatDecode::BadString,
                        Some((players, _)) => StatDecode::Data { pairs, players },
                    }
                }
            },
        }
    }
}

/// The value under the first occurrence of `key`, if any.
pub open spec fn lookup_value(pairs: Seq<(Seq<char>, Seq<char>)>, key: Seq<char>) -> Option<
    Seq<char>,
>
    decreases pairs.len(),
{
    if pairs.len() == 0 {
        None
    } else if pairs[0].0 == key {
        Some(pairs[0].1)
    } else {
        lookup_value(pairs.drop_first(), key)
    }
}

/// The value under the first occurrence of `key`, or empty when absent.
pub open spec fn field_or_empty(pairs: Seq<(Seq<char>, Seq<char>)>, key: Seq<char>) -> Seq<
    char,
> {
    match lookup_value(pairs, key) {
        Some(v) => v,
        None => Seq::empty(),
    }
}

/// The keys that land in named fields of `QueryData`; every other key is
/// preserved under `unrecognised`.
pub open spec fn is_known_key(k: Seq<char>) -> bool {
    ||| k == "hostname"@
    ||| k == "gametype"@
    ||| k == "version"@
    ||| k == "plugins"@
    ||| k == "map"@
    ||| k == "numplayers"@
    ||| k == "maxplayers"@
    ||| k == "hostport"@
    ||| k == "hostip"@
}

/// The pairs whose keys are not known, in arrival order.
pub open spec fn unrec_pairs(pairs: Seq<(Seq<char>, Seq<char>)>) -> Seq<(Seq<char>, Seq<char>)>
    decreases pairs.len(),
{
    if pairs.len() == 0 {
        Seq::empty()
    } else {
        let rest = unrec_pairs(pairs.drop_first());
        if is_known_key(pairs[0].0) {
            rest
        } else {
            seq![pairs[0]] + rest
        }
    }
}

impl QueryData {
    /// True when this value carries exactly the named fields, unrecognised
    /// pairs and players of a reply that decoded to `pairs` and `players`.
    pub open spec fn parsed_as(
        self,
        pairs: Seq<(Seq<char>, Seq<char>)>,
        players: Seq<Seq<char>>,
    ) -> bool {
        &&& self.hostname@ == field_or_empty(pairs, "hostname"@)
        &&& self.game_type@ == field_or_empty(pairs, "gametype"@)
        &&& self.version@ == field_or_empty(pairs, "version"@)
        &&& crate::legacy::opt_string_chars(self.plugins) == lookup_value(pairs, "plugins"@)
        &&& self.map@ == field_or_empty(pairs, "map"@)
        &&& self.num_players@ == field_or_empty(pairs, "numplayers"@)
        &&& self.max_players@ == field_or_empty(pairs, "maxplayers"@)
        &&& self.host_port@ == field_or_empty(pairs, "hostport"@)
        &&& self.host_ip@ == field_or_empty(pairs, "hostip"@)
        &&& self.unrecognised.deep_view() == unrec_pairs(pairs)
        &&& self.players.deep_view() == players
    }
}

/// The first match decides a lookup: a scan that passed only mismatches and
/// stands at a match has found the value, and one that passed everything has
/// found none.
proof fn lemma_lookup_scan(pairs: Seq<(Seq<char>, Seq<char>)>, key: Seq<char>, i: int)
    requires
        0 <= i <= pairs.len(),
        forall|j: int| 0 <= j < i ==> #[trigger] pairs[j].0 != key,
    ensures
        i < pairs.len() && pairs[i].0 == key ==> lookup_value(pairs, key) == Some(pairs[i].1),
        i == pairs.len() ==> lookup_value(pairs, key) is None,
    decreases i + 1,
{
    if pairs.len() > 0 && i > 0 {
        assert(pairs[0].0 != key);
        assert(forall|j: int|
            0 <= j < i - 1 ==> #[trigger] pairs.drop_first()[j] == pairs[j + 1]);
        lemma_lookup_scan(pairs.drop_first(), key, i - 1);
    } else if pairs.len() == 0 {
    } else {
        if i < pairs.len() && pairs[i].0 == key {
        }
    }
}

/// Clones the value under the first occurrence of `key`, if any.
fn lookup_pair(pairs: &Vec<(String, String)>, key: &str) -> (r: Option<String>)
    ensures
        crate::legacy::opt_string_chars(r) == lookup_value(pairs.deep_view(), key@),
{
    let ghost dp = pairs.deep_view();
    proof {
        assert(forall|j: int|
            0 <= j < pairs@.len() ==> #[trigger] dp[j] == (pairs@[j].0@, pairs@[j].1@));
    }
    let key_owned = key.to_owned();
    let mut i: usize = 0;
    while i < pairs.len()
        invariant
            i <= pairs@.len(),
            key_owned@ == key@,
            dp == pairs.deep_view(),
            dp.len() == pairs@.len(),
            forall|j: int| 0 <= j < pairs@.len() ==> #[trigger] dp[j] == (pairs@[j].0@, pairs@[j].1@),
            forall|j: int| 0 <= j < i ==> #[trigger] dp[j].0 != key@,
        decreases pairs@.len() - i,
    {
        let p = &pairs[i];
        if p.0 == key_owned {
            proof {
                lemma_lookup_scan(dp, key@, i as int);
            }
            return Some(p.1.clone());
        }
        i = i + 1;
    }
    proof {
        lemma_lookup_scan(dp, key@, i as int);
    }
    None
}

/// True when `key` lands in a named field of `QueryData`.
fn key_is_known(key: &String) -> (r: bool)
    ensures
        r == is_known_key(key@),
{
    *key == "hostname".to_owned() || *key == "gametype".to_owned() || *key == "version".to_owned()
        || *key == "plugins".to_owned() || *key == "map".to_owned() || *key
        == "numplayers".to_owned() || *key == "maxplayers".to_owned() || *key
        == "hostport".to_owned() || *key == "hostip".to_owned()
}

/// True when `data` opens with the given type byte and the big-endian bytes
/// of `session_id`.
fn header_matches(data: &Vec<u8>, session_id: i32, ty: u8) -> (r: bool)
    ensures
        r == (data@.len() >= 5 && data@[0] == ty && data@.subrange(1, 5) == be32_bytes(
            session_id as u32,
        )),
{
    if data.len() < 5 {
        return false;
    }
    if data[0] != ty {
        return false;
    }
    let sid = session_id as u32;
    proof {
        assert(sid >> 24 < 0x100 && (sid >> 16) & 0xff < 0x100 && (sid >> 8) & 0xff < 0x100 && sid
            & 0xff < 0x100) by (bit_vector);
    }
    let ok = data[1] == (sid >> 24) as u8 && data[2] == ((sid >> 16) & 0xff) as u8 && data[3] == ((
    sid >> 8) & 0xff) as u8 && data[4] == (sid & 0xff) as u8;
    proof {
        if ok {
            assert(data@.subrange(1, 5) =~= be32_bytes(sid));
        } else {
            assert(data@.subrange(1, 5)[0] == data@[1] && data@.subrange(1, 5)[1] == data@[2]
                && data@.subrange(1, 5)[2] == data@[3] && data@.subrange(1, 5)[3] == data@[4]);
        }
    }
    ok
}

/// Reads the key/value section starting at `start`, mirroring `read_pairs`:
/// the collected pairs and the position just past the empty key.
fn parse_pairs(data: &Vec<u8>, start: usize) -> (r: Result<
    (Vec<(String, String)>, usize),
    QueryPingError,
>)
    requires
        start <= data@.len(),
    ensures
        match read_pairs(data@, start as int) {
            Some((pairs, p)) => r matches Ok((v, np)) && v.deep_view() == pairs && np == p && np
                <= data@.len(),
            None => (r matches Err(e) && e is BadResponseString),
        },
    decreases data@.len() - start,
{
    proof {
        lemma_read_cstr(data@, start as int);
    }
    let mut pos = start;
    let key = match PacketUtils::read_string(data, &mut pos) {
        Some(k) => k,
        None => {
            return Err(QueryPingError::BadResponseString);
        },
    };
    if pos == start + 1 {
        let empty_vec: Vec<(String, String)> = Vec::new();
        proof {
            assert(empty_vec.deep_view() =~= Seq::<(Seq<char>, Seq<char>)>::empty());
        }
        return Ok((empty_vec, pos));
    }
    proof {
        lemma_read_cstr(data@, pos as int);
    }
    let pos2_start = pos;
    let val = match PacketUtils::read_string(data, &mut pos) {
        Some(v) => v,
        None => {
            return Err(QueryPingError::BadResponseString);
        },
    };
    match parse_pairs(data, pos) {
        Err(e) => Err(e),
        Ok((rest_vec, np)) => {
            let ghost rest0 = rest_vec.deep_view();
            let mut rest_vec = rest_vec;
            rest_vec.insert(0, (key, val));
            proof {
                assert(forall|j: int|
                    0 <= j < rest0.len() ==> rest_vec.deep_view()[j + 1] == rest0[j]);
                match read_pairs(data@, start as int) {
                    Some((pairs, p)) => {
                        assert(rest_vec.deep_view() =~= pairs);
                    },
                    None => {},
                }
            }
            Ok((rest_vec, np))
        },
    }
}

/// Reads the player-name section starting at `start`, mirroring
/// `read_names`: the collected names and the position just past the empty
/// name.
fn parse_names(data: &Vec<u8>, start: usize) -> (r: Result<(Vec<String>, usize), QueryPingError>)
    requires
        start <= data@.len(),
    ensures
        match read_names(data@, start as int) {
            Some((names, p)) => r matches Ok((v, np)) && v.deep_view() == names && np == p && np
                <= data@.len(),
            None => (r matches Err(e) && e is BadResponseString),
        },
    decreases data@.len() - start,
{
    proof {
        lemma_read_cstr(data@, start as int);
    }
    let mut pos = start;
    let name = match PacketUtils::read_string(data, &mut pos) {
        Some(n) => n,
        None => {
            return Err(QueryPingError::BadResponseString);
        },
    };
    if pos == start + 1 {
        let empty_vec: Vec<String> = Vec::new();
        proof {
            assert(empty_vec.deep_view() =~= Seq::<Seq<char>>::empty());
        }
        return Ok((empty_vec, pos));
    }
    match parse_names(data, pos) {
        Err(e) => Err(e),
        Ok((rest_vec, np)) => {
            let ghost rest0 = rest_vec.deep_view();
            let mut rest_vec = rest_vec;
            rest_vec.insert(0, name);
            proof {
                assert(forall|j: int|
                    0 <= j < rest0.len() ==> rest_vec.deep_view()[j + 1] == rest0[j]);
                match read_names(data@, start as int) {
                    Some((names, p)) => {
                        assert(rest_vec.deep_view() =~= names);
                    },
                    None => {},
                }
            }
            Ok((rest_vec, np))
        },
    }
}

impl QueryPinger {
    /// Decodes a full-stat reply: checks the type byte and echoed session id,
    /// skips the 11-byte padding block, reads key/value pairs to the empty
    /// key, skips the 10-byte padding block, and reads player names to the
    /// empty name. Known keys land in named fields (empty when absent);
    /// unknown keys are preserved verbatim. Empty sections are valid.
    pub fn parse_stat_response(&self, data: &Vec<u8>, session_id: i32) -> (r: Result<
        QueryData,
        QueryPingError,
    >)
        ensures
            match stat_decode(data@, session_id) {
                StatDecode::Data { pairs, players } => r matches Ok(d) && d.parsed_as(
                    pairs,
                    players,
                ),
                StatDecode::Mismatch => r == Err::<QueryData, QueryPingError>(
                    QueryPingError::PacketMismatch,
                ),
                StatDecode::BadString => r == Err::<QueryData, QueryPingError>(
                    QueryPingError::BadResponseString,
                ),
            },
    {
        if !header_matches(data, session_id, 0x00) {
            return Err(QueryPingError::PacketMismatch);
        }
        if data.len() < 16 {
            return Err(QueryPingError::BadResponseString);
        }
        let (all_pairs, after_pairs) = match parse_pairs(data, 16) {
            Ok(x) => x,
            Err(_) => {
                return Err(QueryPingError::BadResponseString);
            },
        };
        if data.len() - after_pairs < 10 {
            return Err(QueryPingError::BadResponseString);
        }
        let (players, _after_names) = match parse_names(data, after_pairs + 10) {
            Ok(x) => x,
            Err(_) => {
                return Err(QueryPingError::BadResponseString);
            },
        };
        let ghost dp = all_pairs.deep_view();
        proof {
            reveal_strlit("");
            assert(""@ =~= Seq::<char>::empty());
            assert(forall|j: int|
                0 <= j < all_pairs@.len() ==> #[trigger] dp[j] == (
                    all_pairs@[j].0@,
                    all_pairs@[j].1@,
                ));
        }
        let hostname = crate::get_or(lookup_pair(&all_pairs, "hostname"), "");
        let game_type = crate::get_or(lookup_pair(&all_pairs, "gametype"), "");
        let version = crate::get_or(lookup_pair(&all_pairs, "version"), "");
        let plugins = lookup_pair(&all_pairs, "plugins");
        let map = crate::get_or(lookup_pair(&all_pairs, "map"), "");
        let num_players = crate::get_or(lookup_pair(&all_pairs, "numplayers"), "");
        let max_players = crate::get_or(lookup_pair(&all_pairs, "maxplayers"), "");
        let host_port = crate::get_or(lookup_pair(&all_pairs, "hostport"), "");
        let host_ip = crate::get_or(lookup_pair(&all_pairs, "hostip"), "");
        let mut unrecognised: Vec<(String, String)> = Vec::new();
        let mut i: usize = 0;
        proof {
            assert(unrecognised.deep_view() =~= Seq::<(Seq<char>, Seq<char>)>::empty());
            assert(dp.skip(0) =~= dp);
            assert(Seq::<(Seq<char>, Seq<char>)>::empty() + unrec_pairs(dp) =~= unrec_pairs(dp));
        }
        while i < all_pairs.len()
            invariant
                i <= all_pairs@.len(),
                dp == all_pairs.deep_view(),
                dp.len() == all_pairs@.len(),
                forall|j: int|
                    0 <= j < all_pairs@.len() ==> #[trigger] dp[j] == (
                        all_pairs@[j].0@,
                        all_pairs@[j].1@,
                    ),
                unrec_pairs(dp) == unrecognised.deep_view() + unrec_pairs(dp.skip(i as int)),
            decreases all_pairs@.len() - i,
        {
            let pr = &all_pairs[i];
            let ghost before = unrecognised.deep_view();
            proof {
                assert(dp.skip(i as int)[0] == dp[i as int]);
                assert(dp.skip(i as int).drop_first() =~= dp.skip(i + 1));
            }
            if !key_is_known(&pr.0) {
                unrecognised.push((pr.0.clone(), pr.1.clone()));
                proof {
                    assert(forall|j: int|
                        0 <= j < before.len() ==> unrecognised.deep_view()[j] == before[j]);
                    assert(unrecognised.deep_view() =~= before.push(dp[i as int]));
                    assert(before.push(dp[i as int]) =~= before + seq![dp[i as int]]);
                    assert(unrecognised.deep_view() + unrec_pairs(dp.skip(i + 1)) =~= before + (
                    seq![dp[i as int]] + unrec_pairs(dp.skip(i + 1))));
                }
            }
            i = i + 1;
        }
        proof {
            assert(dp.skip(dp.len() as int) =~= Seq::<(Seq<char>, Seq<char>)>::empty());
            assert(unrecognised.deep_view() + Seq::<(Seq<char>, Seq<char>)>::empty()
                =~= unrecognised.deep_view());
        }
        Ok(
            QueryData {
                hostname,
                game_type,
                version,
                plugins,
                map,
                num_players,
                max_players,
                host_port,
                host_ip,
                unrecognised,
                players,
            },
        )
    }
}

} // verus!
