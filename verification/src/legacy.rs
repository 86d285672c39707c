//! The legacy plaintext status protocol: a fixed probe followed by a UTF-16
//! plugin-message payload, answered by one UTF-16 string whose fields are
//! delimiter-separated. Two wire variants exist; a reply opening with the
//! marker "section sign, 1, NUL" uses NUL-delimited fields and carries an
//! extra version block, any other reply uses section-sign-delimited fields.

use vstd::prelude::*;
use crate::codec::{be16_bytes, be32_bytes, push_u16_be, push_u32_be};
use crate::strutil::{chars_to_string, utf16_decode, utf16_encode, utf16_to_chars, utf16_units};

verus! {

/// The extra version block carried only by the marker (1.6+) variant.
#[derive(Debug)]
pub struct ExtraLegacyPingData {
    pub server_version: Option<String>,
    pub protocol_version: Option<String>,
}

/// A decoded legacy status reply. `extra` is present exactly when the reply
/// used the marker variant.
#[derive(Debug)]
pub struct LegacyPingData {
    pub motd: Option<String>,
    pub online_players: Option<String>,
    pub max_players: Option<String>,
    pub unrecognised: Vec<String>,
    pub extra: Option<ExtraLegacyPingData>,
}

/// Configuration of one legacy status exchange.
pub struct LegacyPinger {
    pub protocol_version: u8,
    pub hostname: String,
}

/// A failure of the legacy exchange.
#[derive(Debug, Clone)]
pub enum LegacyPingError {
    /// The reply held only one field where at least two were expected: the
    /// one field that arrived.
    UnexpectedReply(String),
    /// The reply's first byte was not 0xFF: the observed byte.
    WrongId(u8),
    /// The reply was not valid UTF-16.
    InvalidStringData,
    /// The transport failed.
    IoError(String),
}

/// The index of the first occurrence of `d` in `s`, or -1 when absent.
pub open spec fn find_char(s: Seq<char>, d: char) -> int
    decreases s.len(),
{
    if s.len() == 0 {
        -1
    } else if s[0] == d {
        0
    } else {
        let r = find_char(s.drop_first(), d);
        if r < 0 {
            -1
        } else {
            r + 1
        }
    }
}

/// `find_char` names the first occurrence: in range, pointing at `d`, with no
/// `d` before it; and -1 exactly when `d` does not occur.
pub proof fn lemma_find_char(s: Seq<char>, d: char)
    ensures
        -1 <= find_char(s, d) < s.len(),
        find_char(s, d) >= 0 ==> s[find_char(s, d)] == d,
        find_char(s, d) >= 0 ==> forall|k: int| 0 <= k < find_char(s, d) ==> s[k] != d,
        find_char(s, d) == -1 ==> forall|k: int| 0 <= k < s.len() ==> s[k] != d,
    decreases s.len(),
{
    if s.len() > 0 && s[0] != d {
        lemma_find_char(s.drop_first(), d);
        let f = find_char(s, d);
        if f >= 0 {
            assert(s[f] == s.drop_first()[f - 1]);
            assert forall|k: int| 0 <= k < f implies s[k] != d by {
                if k > 0 {
                    assert(s[k] == s.drop_first()[k - 1]);
                }
            }
        } else {
            assert forall|k: int| 0 <= k < s.len() implies s[k] != d by {
                if k > 0 {
                    assert(s[k] == s.drop_first()[k - 1]);
                }
            }
        }
    }
}

/// Splits `s` on `d`: the delimiter-free pieces, in order. A sequence without
/// `d` yields one piece, so the result is never empty.
pub open spec fn split_chars(s: Seq<char>, d: char) -> Seq<Seq<char>>
    decreases s.len(),
    via split_chars_decreases
{
    let i = find_char(s, d);
    if i < 0 {
        seq![s]
    } else {
        seq![s.take(i)] + split_chars(s.skip(i + 1), d)
    }
}

#[via_fn]
proof fn split_chars_decreases(s: Seq<char>, d: char) {
    lemma_find_char(s, d);
}

/// Copies `chars[from..to]` into a fresh vector.
fn copy_range(chars: &Vec<char>, from: usize, to: usize) -> (r: Vec<char>)
    requires
        from <= to <= chars@.len(),
    ensures
        r@ == chars@.subrange(from as int, to as int),
{
    let mut r: Vec<char> = Vec::new();
    let mut j = from;
    while j < to
        invariant
            from <= j <= to <= chars@.len(),
            r@ == chars@.subrange(from as int, j as int),
        decreases to - j,
    {
        r.push(chars[j]);
        j = j + 1;
        proof {
            assert(r@ =~= chars@.subrange(from as int, j as int));
        }
    }
    r
}

/// Splits `chars[start..]` on `d`, mirroring `split_chars` on that suffix.
fn split_from(chars: &Vec<char>, start: usize, d: char) -> (r: Vec<Vec<char>>)
    requires
        start <= chars@.len(),
    ensures
        r.deep_view() == split_chars(chars@.skip(start as int), d),
        r@.len() >= 1,
    decreases chars@.len() - start,
{
    let ghost tail = chars@.skip(start as int);
    proof {
        lemma_find_char(tail, d);
        assert(forall|k: int| 0 <= k < tail.len() ==> tail[k] == chars@[start + k]);
    }
    let mut idx = start;
    while idx < chars.len() && chars[idx] != d
        invariant
            start <= idx <= chars@.len(),
            forall|k: int| start <= k < idx ==> chars@[k] != d,
        decreases chars@.len() - idx,
    {
        idx = idx + 1;
    }
    if idx == chars.len() {
        proof {
            assert(find_char(tail, d) == -1) by {
                if find_char(tail, d) >= 0 {
                    assert(chars@[start + find_char(tail, d)] != d);
                }
            }
        }
        let piece = copy_range(chars, start, idx);
        proof {
            assert(piece@ =~= tail);
            assert(piece.deep_view() =~= piece@);
        }
        let mut r: Vec<Vec<char>> = Vec::new();
        r.push(piece);
        proof {
            assert(r.deep_view() =~= seq![tail]);
        }
        r
    } else {
        proof {
            let i = find_char(tail, d);
            assert(tail[idx - start] == d);
            assert(i >= 0) by {
                if i == -1 {
                    assert(tail[idx - start] != d);
                }
            }
            assert(i == idx - start) by {
                if i < idx - start {
                    assert(chars@[start + i] != d);
                    assert(tail[i] == d);
                } else if i > idx - start {
                    assert(tail[idx - start] != d);
                }
            }
        }
        let piece = copy_range(chars, start, idx);
        proof {
            let i = find_char(tail, d);
            assert(piece@ =~= tail.take(i));
            assert(piece.deep_view() =~= piece@);
            assert(tail.skip(i + 1) =~= chars@.skip(idx + 1));
        }
        let mut rest = split_from(chars, idx + 1, d);
        let ghost rest0 = rest.deep_view();
        rest.insert(0, piece);
        proof {
            let i = find_char(tail, d);
            assert(forall|j: int|
                0 <= j < rest0.len() ==> rest.deep_view()[j + 1] == rest0[j]);
            assert(rest.deep_view() =~= seq![tail.take(i)] + split_chars(tail.skip(i + 1), d));
        }
        rest
    }
}

/// The big-endian byte stream of a sequence of UTF-16 units.
pub open spec fn units_be_bytes(u: Seq<u16>) -> Seq<u8>
    decreases u.len(),
{
    if u.len() == 0 {
        Seq::empty()
    } else {
        be16_bytes(u[0]) + units_be_bytes(u.drop_first())
    }
}

/// Byte streams of unit sequences concatenate.
pub proof fn lemma_units_be_append(a: Seq<u16>, b: Seq<u16>)
    ensures
        units_be_bytes(a + b) == units_be_bytes(a) + units_be_bytes(b),
    decreases a.len(),
{
    if a.len() == 0 {
        assert(a + b =~= b);
        assert(units_be_bytes(a) + units_be_bytes(b) =~= units_be_bytes(b));
    } else {
        assert((a + b).drop_first() =~= a.drop_first() + b);
        lemma_units_be_append(a.drop_first(), b);
        assert(units_be_bytes(a + b) =~= units_be_bytes(a) + units_be_bytes(b));
    }
}

/// Appends the big-endian bytes of every unit in `units` to `out`.
fn push_units_be(units: &Vec<u16>, out: &mut Vec<u8>)
    ensures
        final(out)@ == old(out)@ + units_be_bytes(units@),
{
    let mut i: usize = 0;
    while i < units.len()
        invariant
            i <= units@.len(),
            out@ == old(out)@ + units_be_bytes(units@.take(i as int)),
        decreases units@.len() - i,
    {
        push_u16_be(units[i], out);
        i = i + 1;
        proof {
            assert(units@.take(i as int) =~= units@.take(i - 1) + seq![units@[i - 1]]);
            lemma_units_be_append(units@.take(i - 1), seq![units@[i - 1]]);
            let u = units@[i - 1];
            assert(seq![u].len() == 1 && seq![u][0] == u);
            assert(units_be_bytes(seq![u]) == be16_bytes(u) + units_be_bytes(
                seq![u].drop_first(),
            ));
            assert(seq![u].drop_first() =~= Seq::<u16>::empty());
            assert(units_be_bytes(Seq::<u16>::empty()) =~= Seq::<u8>::empty());
            assert(units_be_bytes(seq![u]) =~= be16_bytes(u));
            assert(out@ =~= old(out)@ + units_be_bytes(units@.take(i as int)));
        }
    }
    proof {
        assert(units@.take(units@.len() as int) =~= units@);
    }
}

/// The UTF-16 units of the plugin-message channel name "MC|PingHost".
pub open spec fn channel_name_units() -> Seq<u16> {
    seq![0x4du16, 0x43u16, 0x7cu16, 0x50u16, 0x69u16, 0x6eu16, 0x67u16, 0x48u16, 0x6fu16, 0x73u16, 0x74u16]
}

/// The legacy probe: opening bytes 0xFE 0x01, the plugin-message marker 0xFA,
/// the length-prefixed channel name in UTF-16BE, and a length-prefixed payload
/// of protocol version, length-prefixed UTF-16BE hostname, and 32-bit port.
pub open spec fn legacy_request_bytes(pv: u8, host_units: Seq<u16>, port: u16) -> Seq<u8> {
    seq![0xfeu8, 0x01u8, 0xfau8] + be16_bytes(11) + units_be_bytes(channel_name_units())
        + be16_bytes(#[verifier::truncate] ((host_units.len() + 7) as u16)) + seq![pv]
        + be16_bytes(#[verifier::truncate] (host_units.len() as u16)) + units_be_bytes(host_units)
        + be32_bytes(port as u32)
}

impl LegacyPinger {
    /// Builds the probe for this configuration against `port`. `None` exactly
    /// when the hostname's UTF-16 form leaves no room for the payload's seven
    /// fixed bytes within the 16-bit length prefix.
    pub fn build_request(&self, port: u16) -> (r: Option<Vec<u8>>)
        ensures
            (r is Some) == (utf16_encode(self.hostname@).len() + 7 <= 0xffff),
            r matches Some(v) ==> v@ == legacy_request_bytes(
                self.protocol_version,
                utf16_encode(self.hostname@),
                port,
            ),
    {
        let units = utf16_units(self.hostname.as_str());
        if units.len() > 0xffff - 7 {
            return None;
        }
        let mut out: Vec<u8> = Vec::new();
        out.push(0xfe);
        out.push(0x01);
        out.push(0xfa);
        push_u16_be(11, &mut out);
        let channel: Vec<u16> = vec![
            0x4d, 0x43, 0x7c, 0x50, 0x69, 0x6e, 0x67, 0x48, 0x6f, 0x73, 0x74,
        ];
        proof {
            assert(channel@ =~= channel_name_units());
        }
        push_units_be(&channel, &mut out);
        push_u16_be(units.len() as u16 + 7, &mut out);
        out.push(self.protocol_version);
        push_u16_be(units.len() as u16, &mut out);
        push_units_be(&units, &mut out);
        push_u32_be(port as u32, &mut out);
        proof {
            assert(out@ =~= legacy_request_bytes(
                self.protocol_version,
                utf16_encode(self.hostname@),
                port,
            ));
        }
        Some(out)
    }
}

/// The field-level shape of a parsed legacy reply, at the specification
/// level.
pub struct LegacyParsed {
    pub motd: Option<Seq<char>>,
    pub online_players: Option<Seq<char>>,
    pub max_players: Option<Seq<char>>,
    pub unrecognised: Seq<Seq<char>>,
    pub extra: Option<LegacyParsedExtra>,
}

/// The extra version block of the marker variant, at the specification level.
pub struct LegacyParsedExtra {
    pub server_version: Option<Seq<char>>,
    pub protocol_version: Option<Seq<char>>,
}

/// The three-character marker that opens a 1.6+ reply: section sign, '1',
/// NUL.
pub open spec fn legacy_marker() -> Seq<char> {
    seq!['\u{a7}', '1', '\u{0}']
}

/// Parses a decoded legacy reply string into its fields. A reply opening
/// with the marker is stripped of it and split on NUL into protocol version,
/// server version, motd, online players, max players and trailing fields;
/// any other reply is split on the section sign into motd, online players,
/// max players and trailing fields. In either variant, finding only one
/// field where the first two are expected is an error carrying that field.
pub open spec fn legacy_parse(cs: Seq<char>) -> Result<LegacyParsed, Seq<char>> {
    if cs.len() >= 3 && cs.take(3) == legacy_marker() {
        let fields = split_chars(cs.skip(3), '\u{0}');
        if fields.len() < 2 {
            Err(fields[0])
        } else {
            Ok(LegacyParsed {
                motd: if fields.len() > 2 { Some(fields[2]) } else { None },
                online_players: if fields.len() > 3 { Some(fields[3]) } else { None },
                max_players: if fields.len() > 4 { Some(fields[4]) } else { None },
                unrecognised: if fields.len() > 5 { fields.skip(5) } else { Seq::empty() },
                extra: Some(LegacyParsedExtra {
                    server_version: Some(fields[1]),
                    protocol_version: Some(fields[0]),
                }),
            })
        }
    } else {
        let fields = split_chars(cs, '\u{a7}');
        if fields.len() < 2 {
            Err(fields[0])
        } else {
            Ok(LegacyParsed {
                motd: Some(fields[0]),
                online_players: Some(fields[1]),
                max_players: if fields.len() > 2 { Some(fields[2]) } else { None },
                unrecognised: if fields.len() > 3 { fields.skip(3) } else { Seq::empty() },
                extra: None,
            })
        }
    }
}

/// The characters of an optional string.
pub open spec fn opt_string_chars(o: Option<String>) -> Option<Seq<char>> {
    match o {
        Some(s) => Some(s@),
        None => None,
    }
}

impl LegacyPingData {
    /// True when this value carries exactly the fields of `p`.
    pub open spec fn parsed_as(self, p: LegacyParsed) -> bool {
        &&& opt_string_chars(self.motd) == p.motd
        &&& opt_string_chars(self.online_players) == p.online_players
        &&& opt_string_chars(self.max_players) == p.max_players
        &&& self.unrecognised.deep_view() == p.unrecognised
        &&& match (self.extra, p.extra) {
            (Some(e), Some(pe)) => opt_string_chars(e.server_version) == pe.server_version
                && opt_string_chars(e.protocol_version) == pe.protocol_version,
            (None, None) => true,
            _ => false,
        }
    }
}

/// Collects `fields[start..]` as owned strings.
fn strings_from(fields: &Vec<Vec<char>>, start: usize) -> (r: Vec<String>)
    requires
        start <= fields@.len(),
    ensures
        r.deep_view() == fields.deep_view().skip(start as int),
{
    let mut r: Vec<String> = Vec::new();
    let mut i = start;
    while i < fields.len()
        invariant
            start <= i <= fields@.len(),
            r@.len() == i - start,
            forall|j: int| 0 <= j < i - start ==> #[trigger] r@[j]@ == fields@[start + j]@,
        decreases fields@.len() - i,
    {
        r.push(chars_to_string(&fields[i]));
        i = i + 1;
    }
    proof {
        let dv = fields.deep_view();
        assert(dv.len() == fields@.len());
        assert forall|j: int| 0 <= j < r@.len() implies #[trigger] r.deep_view()[j] == dv.skip(
            start as int,
        )[j] by {
            assert(r.deep_view()[j] == r@[j]@);
            assert(dv[start + j] == fields@[start + j].deep_view());
            assert(fields@[start + j].deep_view() =~= fields@[start + j]@);
        };
        assert(r.deep_view() =~= dv.skip(start as int));
    }
    r
}

/// Parses one legacy reply from its packet id and the UTF-16 units of its
/// string. The packet id must be 0xFF; the units must decode as UTF-16; and
/// the decoded string must hold at least two fields, per `legacy_parse`.
pub fn parse_legacy_response(packet_id: u8, units: &Vec<u16>) -> (r: Result<
    LegacyPingData,
    LegacyPingError,
>)
    ensures
        packet_id != 0xff ==> (r matches Err(e) && e matches LegacyPingError::WrongId(b) && b
            == packet_id),
        packet_id == 0xff ==> match utf16_decode(units@) {
            None => (r matches Err(e) && e is InvalidStringData),
            Some(cs) => match legacy_parse(cs) {
                Ok(p) => r matches Ok(d) && d.parsed_as(p),
                Err(m) => r matches Err(e) && e matches LegacyPingError::UnexpectedReply(s) && s@
                    == m,
            },
        },
{
    if packet_id != 0xff {
        return Err(LegacyPingError::WrongId(packet_id));
    }
    let cs = match utf16_to_chars(units.as_slice()) {
        Some(v) => v,
        None => {
            return Err(LegacyPingError::InvalidStringData);
        },
    };
    let has_marker = cs.len() >= 3 && cs[0] == '\u{a7}' && cs[1] == '1' && cs[2] == '\u{0}';
    proof {
        if cs@.len() >= 3 {
            if cs@[0] == '\u{a7}' && cs@[1] == '1' && cs@[2] == '\u{0}' {
                assert(cs@.take(3) =~= legacy_marker());
            } else {
                assert(cs@.take(3)[0] == cs@[0] && cs@.take(3)[1] == cs@[1] && cs@.take(3)[2]
                    == cs@[2]);
                assert(cs@.take(3) != legacy_marker());
            }
        }
    }
    if has_marker {
        let fields = split_from(&cs, 3, '\u{0}');
        proof {
            assert(fields.deep_view().len() == fields@.len());
            assert(forall|j: int|
                0 <= j < fields@.len() ==> #[trigger] fields.deep_view()[j] == fields@[j]@)
                by {
                assert(forall|j: int|
                    0 <= j < fields@.len() ==> #[trigger] fields@[j].deep_view() == fields@[j]@);
            }
        }
        if fields.len() < 2 {
            return Err(LegacyPingError::UnexpectedReply(chars_to_string(&fields[0])));
        }
        let motd = if fields.len() > 2 {
            Some(chars_to_string(&fields[2]))
        } else {
            None
        };
        let online_players = if fields.len() > 3 {
            Some(chars_to_string(&fields[3]))
        } else {
            None
        };
        let max_players = if fields.len() > 4 {
            Some(chars_to_string(&fields[4]))
        } else {
            None
        };
        let unrecognised = if fields.len() > 5 {
            strings_from(&fields, 5)
        } else {
            Vec::new()
        };
        let extra = ExtraLegacyPingData {
            server_version: Some(chars_to_string(&fields[1])),
            protocol_version: Some(chars_to_string(&fields[0])),
        };
        proof {
            if fields@.len() <= 5 {
                assert(unrecognised.deep_view() =~= Seq::<Seq<char>>::empty());
            }
        }
        Ok(LegacyPingData { motd, online_players, max_players, unrecognised, extra: Some(extra) })
    } else {
        let fields = split_from(&cs, 0, '\u{a7}');
        proof {
            assert(cs@.skip(0) =~= cs@);
            assert(fields.deep_view().len() == fields@.len());
            assert(forall|j: int|
                0 <= j < fields@.len() ==> #[trigger] fields.deep_view()[j] == fields@[j]@)
                by {
                assert(forall|j: int|
                    0 <= j < fields@.len() ==> #[trigger] fields@[j].deep_view() == fields@[j]@);
            }
        }
        if fields.len() < 2 {
            return Err(LegacyPingError::UnexpectedReply(chars_to_string(&fields[0])));
        }
        let motd = Some(chars_to_string(&fields[0]));
        let online_players = Some(chars_to_string(&fields[1]));
        let max_players = if fields.len() > 2 {
            Some(chars_to_string(&fields[2]))
        } else {
            None
        };
        let unrecognised = if fields.len() > 3 {
            strings_from(&fields, 3)
        } else {
            Vec::new()
        };
        proof {
            if fields@.len() <= 3 {
                assert(unrecognised.deep_view() =~= Seq::<Seq<char>>::empty());
            }
        }
        Ok(LegacyPingData { motd, online_players, max_players, unrecognised, extra: None })
    }
}

} // verus!
