//! The variable-length integer and length-prefixed string codec used by the
//! modern status protocol: 7 data bits per byte, most significant bit set on
//! every byte but the last; strings are a VarInt byte-length prefix followed
//! by UTF-8 bytes.

use vstd::prelude::*;
use vstd::utf8::encode_utf8;
use crate::strutil::{decode_utf8_lossy, utf8_to_string_lossy};

verus! {

/// A failure while decoding wire data from a byte buffer.
#[derive(Clone, Copy, Debug, PartialEq, Eq, Structural)]
pub enum ProtocolError {
    /// More than five bytes were consumed without reaching a terminating byte.
    VarIntTooLarge,
    /// The buffer ended before the value was complete.
    UnexpectedEof,
}

/// A 32-bit integer carried in the 7-bits-per-byte variable-length encoding.
#[derive(Clone, Copy, Debug, PartialEq, Eq, Structural)]
pub struct VarInt(pub i32);

/// The wire bytes of a VarInt: low 7 bits first, continuation bit 0x80 on
/// every byte except the last.
pub open spec fn varint_bytes(v: u32) -> Seq<u8>
    decreases v,
    via varint_bytes_decreases
{
    if v < 0x80 {
        seq![v as u8]
    } else {
        seq![#[verifier::truncate] (((v & 0x7f) | 0x80) as u8)] + varint_bytes(v >> 7)
    }
}

#[via_fn]
proof fn varint_bytes_decreases(v: u32) {
    assert(v >= 0x80 ==> v >> 7 < v) by (bit_vector);
}

/// The result of decoding a VarInt from the front of a byte stream.
pub enum VarIntDecode {
    /// A terminating byte was found: the decoded value and the count of bytes
    /// consumed.
    Value { value: u32, len: int },
    /// Five bytes were consumed and all carried the continuation bit.
    TooLarge,
    /// The stream ended while every byte so far carried the continuation bit.
    Incomplete,
}

/// Decodes a VarInt from the front of `s`, giving up after `max` bytes.
pub open spec fn varint_decode_bounded(s: Seq<u8>, max: nat) -> VarIntDecode
    decreases max,
{
    if max == 0 {
        VarIntDecode::TooLarge
    } else if s.len() == 0 {
        VarIntDecode::Incomplete
    } else if s[0] < 0x80 {
        VarIntDecode::Value { value: s[0] as u32, len: 1 }
    } else {
        match varint_decode_bounded(s.drop_first(), (max - 1) as nat) {
            VarIntDecode::Value { value, len } => VarIntDecode::Value {
                value: ((s[0] as u32) & 0x7f) | (value << 7),
                len: len + 1,
            },
            VarIntDecode::TooLarge => VarIntDecode::TooLarge,
            VarIntDecode::Incomplete => VarIntDecode::Incomplete,
        }
    }
}

/// Decodes a VarInt from the front of `s`: at most five bytes are read.
pub open spec fn varint_decode(s: Seq<u8>) -> VarIntDecode {
    varint_decode_bounded(s, 5)
}

/// True when a VarInt byte carries the continuation bit, so more bytes of
/// the same value follow on the wire.
pub fn has_continuation(b: u8) -> (r: bool)
    ensures
        r == (b >= 0x80),
{
    b >= 0x80
}

/// A successful VarInt decode consumes between one byte and the bound, and
/// never more than the stream holds.
pub proof fn lemma_varint_decode_bounds(s: Seq<u8>, max: nat)
    ensures
        varint_decode_bounded(s, max) matches VarIntDecode::Value { value, len } ==> 1 <= len
            <= max && len <= s.len(),
    decreases max,
{
    if max > 0 && s.len() > 0 && s[0] >= 0x80 {
        lemma_varint_decode_bounds(s.drop_first(), (max - 1) as nat);
    }
}

impl VarInt {
    /// Appends the VarInt encoding of this value to `out`.
    pub fn write_to(&self, out: &mut Vec<u8>)
        ensures
            final(out)@ == old(out)@ + varint_bytes(self.0 as u32),
    {
        let mut v: u32 = self.0 as u32;
        loop
            invariant
                varint_bytes(self.0 as u32) == out@.skip(old(out)@.len() as int) + varint_bytes(
                    v,
                ),
                out@.len() >= old(out)@.len(),
                out@.take(old(out)@.len() as int) == old(out)@,
            decreases v,
        {
            if v < 0x80 {
                out.push(v as u8);
                proof {
                    assert(varint_bytes(v) == seq![v as u8]);
                    assert(out@.skip(old(out)@.len() as int) =~= varint_bytes(self.0 as u32));
                    assert(out@ =~= old(out)@ + varint_bytes(self.0 as u32));
                }
                return ;
            } else {
                let b: u8 = ((v & 0x7f) | 0x80) as u8;
                out.push(b);
                proof {
                    assert(varint_bytes(v) == seq![b] + varint_bytes(v >> 7));
                    assert(v >> 7 < v) by (bit_vector)
                        requires
                            v >= 0x80,
                    ;
                }
                v = v >> 7;
                proof {
                    assert(out@.skip(old(out)@.len() as int) + varint_bytes(v) =~= varint_bytes(
                        self.0 as u32,
                    ));
                    assert(out@.take(old(out)@.len() as int) =~= old(out)@);
                }
            }
        }
    }
}

/// Reads up to `max` bytes of a VarInt from `data` starting at `*pos`,
/// mirroring `varint_decode_bounded` on the bytes from `*old(pos)` on.
fn read_varint_bounded(data: &Vec<u8>, pos: &mut usize, max: u8) -> (r: Result<u32, ProtocolError>)
    requires
        *old(pos) <= data@.len(),
    ensures
        *final(pos) <= data@.len(),
        match varint_decode_bounded(data@.skip(*old(pos) as int), max as nat) {
            VarIntDecode::Value { value, len } => r == Ok::<u32, ProtocolError>(value)
                && *final(pos) == *old(pos) + len,
            VarIntDecode::TooLarge => r == Err::<u32, ProtocolError>(
                ProtocolError::VarIntTooLarge,
            ),
            VarIntDecode::Incomplete => r == Err::<u32, ProtocolError>(
                ProtocolError::UnexpectedEof,
            ),
        },
    decreases max,
{
    if max == 0 {
        return Err(ProtocolError::VarIntTooLarge);
    }
    if *pos >= data.len() {
        proof {
            assert(data@.skip(*old(pos) as int).len() == 0);
        }
        return Err(ProtocolError::UnexpectedEof);
    }
    let b = data[*pos];
    *pos = *pos + 1;
    proof {
        assert(data@.skip(*old(pos) as int)[0] == b);
        assert(data@.skip(*old(pos) as int).drop_first() =~= data@.skip(*old(pos) + 1));
    }
    if b < 0x80 {
        Ok(b as u32)
    } else {
        match read_varint_bounded(data, pos, max - 1) {
            Ok(value) => Ok(((b as u32) & 0x7f) | (value << 7)),
            Err(e) => Err(e),
        }
    }
}

impl VarInt {
    /// Reads a VarInt from `data` starting at `*pos`. At most five bytes are
    /// consumed; a sixth continuation bit is reported as `VarIntTooLarge`, and
    /// a buffer that ends mid-value as `UnexpectedEof`.
    pub fn read_from(data: &Vec<u8>, pos: &mut usize) -> (r: Result<VarInt, ProtocolError>)
        requires
            *old(pos) <= data@.len(),
        ensures
            *final(pos) <= data@.len(),
            match varint_decode(data@.skip(*old(pos) as int)) {
                VarIntDecode::Value { value, len } => r == Ok::<VarInt, ProtocolError>(
                    VarInt(value as i32),
                ) && *final(pos) == *old(pos) + len,
                VarIntDecode::TooLarge => r == Err::<VarInt, ProtocolError>(
                    ProtocolError::VarIntTooLarge,
                ),
                VarIntDecode::Incomplete => r == Err::<VarInt, ProtocolError>(
                    ProtocolError::UnexpectedEof,
                ),
            },
    {
        match read_varint_bounded(data, pos, 5) {
            Ok(v) => Ok(VarInt(v as i32)),
            Err(e) => Err(e),
        }
    }
}

/// The VarInt encoding never takes more than five bytes, and always at least
/// one.
pub proof fn lemma_varint_bytes_len(v: u32)
    ensures
        1 <= varint_bytes(v).len() <= 5,
{
    let v1 = v >> 7;
    let v2 = v1 >> 7;
    let v3 = v2 >> 7;
    let v4 = v3 >> 7;
    assert(v4 < 0x80) by (bit_vector)
        requires
            v1 == v >> 7 && v2 == v1 >> 7 && v3 == v2 >> 7 && v4 == v3 >> 7,
    ;
    if v < 0x80 {
        assert(varint_bytes(v).len() == 1);
    } else {
        assert(varint_bytes(v).len() == 1 + varint_bytes(v1).len());
        if v1 < 0x80 {
            assert(varint_bytes(v1).len() == 1);
        } else {
            assert(varint_bytes(v1).len() == 1 + varint_bytes(v2).len());
            if v2 < 0x80 {
                assert(varint_bytes(v2).len() == 1);
            } else {
                assert(varint_bytes(v2).len() == 1 + varint_bytes(v3).len());
                if v3 < 0x80 {
                    assert(varint_bytes(v3).len() == 1);
                } else {
                    assert(varint_bytes(v3).len() == 1 + varint_bytes(v4).len());
                    assert(varint_bytes(v4).len() == 1);
                }
            }
        }
    }
}

/// Decoding the encoding of `v`, with any suffix behind it, yields `v` back
/// and consumes exactly the encoding.
pub proof fn lemma_varint_round_trip(v: u32, rest: Seq<u8>)
    ensures
        varint_decode(varint_bytes(v) + rest) == (VarIntDecode::Value {
            value: v,
            len: varint_bytes(v).len() as int,
        }),
{
    lemma_varint_bytes_len(v);
    lemma_varint_round_trip_bounded(v, rest, 5);
}

proof fn lemma_varint_round_trip_bounded(v: u32, rest: Seq<u8>, max: nat)
    requires
        varint_bytes(v).len() <= max,
    ensures
        varint_decode_bounded(varint_bytes(v) + rest, max) == (VarIntDecode::Value {
            value: v,
            len: varint_bytes(v).len() as int,
        }),
    decreases v,
{
    let s = varint_bytes(v) + rest;
    if v < 0x80 {
        assert(s[0] == v as u8);
        assert((v as u8) as u32 == v);
    } else {
        assert(v >> 7 < v) by (bit_vector)
            requires
                v >= 0x80,
        ;
        let b: u8 = #[verifier::truncate] (((v & 0x7f) | 0x80) as u8);
        assert(s[0] == b);
        assert(b >= 0x80) by (bit_vector)
            requires
                b == #[verifier::truncate] (((v & 0x7f) | 0x80) as u8),
        ;
        lemma_varint_round_trip_bounded(v >> 7, rest, (max - 1) as nat);
        assert(s.drop_first() =~= varint_bytes(v >> 7) + rest);
        assert(((b as u32) & 0x7f) | ((v >> 7) << 7) == v) by (bit_vector)
            requires
                b == #[verifier::truncate] (((v & 0x7f) | 0x80) as u8),
        ;
    }
}

/// A stream whose first five bytes all carry the continuation bit fails to
/// decode with the "too large" outcome.
pub proof fn lemma_varint_unterminated(s: Seq<u8>)
    requires
        s.len() >= 5,
        forall|i: int| 0 <= i < 5 ==> s[i] >= 0x80,
    ensures
        varint_decode(s) == VarIntDecode::TooLarge,
{
    lemma_varint_unterminated_bounded(s, 5);
}

proof fn lemma_varint_unterminated_bounded(s: Seq<u8>, max: nat)
    requires
        s.len() >= max,
        forall|i: int| 0 <= i < max ==> s[i] >= 0x80,
    ensures
        varint_decode_bounded(s, max) == VarIntDecode::TooLarge,
    decreases max,
{
    if max > 0 {
        assert(forall|i: int| 0 <= i < max - 1 ==> s.drop_first()[i] == s[i + 1]);
        lemma_varint_unterminated_bounded(s.drop_first(), (max - 1) as nat);
    }
}

/// The wire bytes of a length-prefixed string: the VarInt byte length of the
/// UTF-8 encoding, then the UTF-8 bytes themselves.
pub open spec fn string_bytes(s: Seq<char>) -> Seq<u8> {
    varint_bytes(encode_utf8(s).len() as u32) + encode_utf8(s)
}

/// The result of decoding a length-prefixed string from the front of a byte
/// stream.
pub enum StringDecode {
    /// The length prefix terminated and enough bytes followed: the decoded
    /// characters and the total count of bytes consumed.
    Value { chars: Seq<char>, len: int },
    /// The length prefix ran past five bytes.
    TooLarge,
    /// The stream ended inside the prefix or inside the string data.
    Incomplete,
}

/// Decodes a length-prefixed string from the front of `s`. The length prefix
/// is read as a signed 32-bit value and converted to a size exactly as the
/// executable code does, so a negative prefix demands more bytes than any
/// buffer holds.
pub open spec fn string_decode(s: Seq<u8>) -> StringDecode {
    match varint_decode(s) {
        VarIntDecode::Value { value, len } => {
            let n = ((value as i32) as usize) as int;
            if len + n <= s.len() {
                StringDecode::Value {
                    chars: decode_utf8_lossy(s.subrange(len, len + n)),
                    len: len + n,
                }
            } else {
                StringDecode::Incomplete
            }
        },
        VarIntDecode::TooLarge => StringDecode::TooLarge,
        VarIntDecode::Incomplete => StringDecode::Incomplete,
    }
}

/// Appends the length-prefixed encoding of `s` to `out`.
pub fn write_string_to(s: &str, out: &mut Vec<u8>)
    requires
        encode_utf8(s@).len() < 0x8000_0000,
    ensures
        final(out)@ == old(out)@ + string_bytes(s@),
{
    let bytes = s.as_bytes();
    VarInt(bytes.len() as i32).write_to(out);
    out.extend_from_slice(bytes);
    proof {
        assert(final(out)@ =~= old(out)@ + string_bytes(s@));
    }
}

/// Reads a length-prefixed string from `data` starting at `*pos`. Invalid
/// UTF-8 in the string data is replaced lossily rather than rejected.
pub fn read_string_from(data: &Vec<u8>, pos: &mut usize) -> (r: Result<String, ProtocolError>)
    requires
        *old(pos) <= data@.len(),
    ensures
        *final(pos) <= data@.len(),
        match string_decode(data@.skip(*old(pos) as int)) {
            StringDecode::Value { chars, len } => r matches Ok(s) && s@ == chars && *final(pos)
                == *old(pos) + len,
            StringDecode::TooLarge => r == Err::<String, ProtocolError>(
                ProtocolError::VarIntTooLarge,
            ),
            StringDecode::Incomplete => r == Err::<String, ProtocolError>(
                ProtocolError::UnexpectedEof,
            ),
        },
{
    let n = match VarInt::read_from(data, pos) {
        Ok(v) => v,
        Err(e) => {
            return Err(e);
        },
    };
    let n_usize = #[verifier::truncate] (n.0 as usize);
    if n_usize > data.len() - *pos {
        return Err(ProtocolError::UnexpectedEof);
    }
    let start = *pos;
    let end = start + n_usize;
    let mut bytes: Vec<u8> = Vec::new();
    let mut j: usize = start;
    while j < end
        invariant
            start <= j <= end,
            end <= data@.len(),
            end == start + n_usize,
            bytes@ == data@.subrange(start as int, j as int),
        decreases end - j,
    {
        bytes.push(data[j]);
        j = j + 1;
        proof {
            assert(bytes@ =~= data@.subrange(start as int, j as int));
        }
    }
    *pos = end;
    let s = utf8_to_string_lossy(bytes.as_slice());
    proof {
        let rem = data@.skip(*old(pos) as int);
        lemma_varint_decode_bounds(rem, 5);
        match varint_decode(rem) {
            VarIntDecode::Value { value, len } => {
                assert(start == *old(pos) + len);
                assert(n_usize as int == ((value as i32) as usize) as int);
                assert(len + n_usize <= rem.len());
                assert forall|k: int| 0 <= k < n_usize implies #[trigger] rem[len + k] == data@[
                    start + k
                ] by {
                    assert(rem[len + k] == data@[*old(pos) + (len + k)]);
                };
                assert(data@.subrange(start as int, start + n_usize) =~= rem.subrange(
                    len,
                    len + n_usize,
                ));
            },
            VarIntDecode::TooLarge => {
                assert(false);
            },
            VarIntDecode::Incomplete => {
                assert(false);
            },
        }
    }
    Ok(s)
}

/// Round trip of the string codec: for any string whose UTF-8 form is shorter
/// than 2^31 bytes, decoding its encoding (with any suffix behind it) yields
/// the original characters and consumes exactly the encoding.
pub proof fn lemma_string_round_trip(s: Seq<char>, rest: Seq<u8>)
    requires
        encode_utf8(s).len() < 0x8000_0000,
    ensures
        string_decode(string_bytes(s) + rest) == (StringDecode::Value {
            chars: s,
            len: string_bytes(s).len() as int,
        }),
{
    broadcast use vstd::utf8::encode_utf8_valid_utf8, vstd::utf8::encode_utf8_decode_utf8;

    let b = encode_utf8(s);
    let n = b.len() as u32;
    let whole = string_bytes(s) + rest;
    lemma_varint_round_trip(n, b + rest);
    assert(whole =~= varint_bytes(n) + (b + rest));
    let vl = varint_bytes(n).len() as int;
    assert(((n as i32) as usize) as int == n as int);
    assert(whole.subrange(vl, vl + n as int) =~= b);
}

/// The two big-endian bytes of a 16-bit value.
pub open spec fn be16_bytes(v: u16) -> Seq<u8> {
    seq![#[verifier::truncate] ((v >> 8) as u8), #[verifier::truncate] ((v & 0xff) as u8)]
}

/// The four big-endian bytes of a 32-bit value.
pub open spec fn be32_bytes(v: u32) -> Seq<u8> {
    seq![
        #[verifier::truncate] ((v >> 24) as u8),
        #[verifier::truncate] (((v >> 16) & 0xff) as u8),
        #[verifier::truncate] (((v >> 8) & 0xff) as u8),
        #[verifier::truncate] ((v & 0xff) as u8),
    ]
}

/// The 32-bit value read back from four big-endian bytes.
pub open spec fn be32_value(b0: u8, b1: u8, b2: u8, b3: u8) -> u32 {
    (((b0 as u32) << 24) | ((b1 as u32) << 16) | ((b2 as u32) << 8) | (b3 as u32)) as u32
}

/// Appends the two big-endian bytes of `v` to `out`.
pub fn push_u16_be(v: u16, out: &mut Vec<u8>)
    ensures
        final(out)@ == old(out)@ + be16_bytes(v),
{
    proof {
        assert(v >> 8 < 0x100 && v & 0xff < 0x100) by (bit_vector);
    }
    out.push((v >> 8) as u8);
    out.push((v & 0xff) as u8);
    proof {
        assert(out@ =~= old(out)@ + be16_bytes(v));
    }
}

/// Appends the four big-endian bytes of `v` to `out`.
pub fn push_u32_be(v: u32, out: &mut Vec<u8>)
    ensures
        final(out)@ == old(out)@ + be32_bytes(v),
{
    proof {
        assert(v >> 24 < 0x100 && (v >> 16) & 0xff < 0x100 && (v >> 8) & 0xff < 0x100 && v & 0xff
            < 0x100) by (bit_vector);
    }
    out.push((v >> 24) as u8);
    out.push(((v >> 16) & 0xff) as u8);
    out.push(((v >> 8) & 0xff) as u8);
    out.push((v & 0xff) as u8);
    proof {
        assert(out@ =~= old(out)@ + be32_bytes(v));
    }
}

} // verus!
