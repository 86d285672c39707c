//! Packet assembly and field readers for the UDP query protocol: packets
//! open with the magic bytes 0xFE 0xFD, a type byte and a big-endian session
//! id; their payloads are NUL-terminated strings and big-endian integers.

use vstd::prelude::*;
use vstd::utf8::encode_utf8;
use crate::codec::{be16_bytes, be32_bytes, be32_value, push_u32_be, push_u16_be};
use crate::strutil::{decode_utf8_lossy, utf8_to_string_lossy};

verus! {

/// One field of a query packet payload.
#[derive(Clone)]
pub enum Element {
    StringElement { val: String },
    Byte { val: u8 },
    Short { val: i16 },
    Int32 { val: i32 },
    Bytes { val: Vec<u8> },
}

/// The wire bytes of one payload field.
pub open spec fn element_bytes(e: Element) -> Seq<u8> {
    match e {
        Element::StringElement { val } => encode_utf8(val@) + seq![0u8],
        Element::Byte { val } => seq![val],
        Element::Short { val } => be16_bytes(val as u16),
        Element::Int32 { val } => be32_bytes(val as u32),
        Element::Bytes { val } => val@,
    }
}

/// The wire bytes of a payload: its fields' bytes, in order.
pub open spec fn elements_bytes(es: Seq<Element>) -> Seq<u8>
    decreases es.len(),
{
    if es.len() == 0 {
        Seq::empty()
    } else {
        element_bytes(es[0]) + elements_bytes(es.drop_first())
    }
}

/// Payload bytes concatenate over payload fields.
pub proof fn lemma_elements_bytes_append(a: Seq<Element>, b: Seq<Element>)
    ensures
        elements_bytes(a + b) == elements_bytes(a) + elements_bytes(b),
    decreases a.len(),
{
    if a.len() == 0 {
        assert(a + b =~= b);
        assert(elements_bytes(a) + elements_bytes(b) =~= elements_bytes(b));
    } else {
        assert((a + b).drop_first() =~= a.drop_first() + b);
        lemma_elements_bytes_append(a.drop_first(), b);
        assert(elements_bytes(a + b) =~= elements_bytes(a) + elements_bytes(b));
    }
}

/// A full query packet: magic bytes 0xFE 0xFD, the type byte, the big-endian
/// session id, then the payload.
pub open spec fn packet_bytes(payload: Seq<u8>, id: u8, session_id: i32) -> Seq<u8> {
    seq![0xfeu8, 0xfdu8, id] + be32_bytes(session_id as u32) + payload
}

/// The index of the first occurrence of `b` in `s`, or -1 when absent.
pub open spec fn find_byte(s: Seq<u8>, b: u8) -> int
    decreases s.len(),
{
    if s.len() == 0 {
        -1
    } else if s[0] == b {
        0
    } else {
        let r = find_byte(s.drop_first(), b);
        if r < 0 {
            -1
        } else {
            r + 1
        }
    }
}

/// `find_byte` names the first occurrence: in range, pointing at `b`, with no
/// `b` before it; and -1 exactly when `b` does not occur.
pub proof fn lemma_find_byte(s: Seq<u8>, b: u8)
    ensures
        -1 <= find_byte(s, b) < s.len(),
        find_byte(s, b) >= 0 ==> s[find_byte(s, b)] == b,
        find_byte(s, b) >= 0 ==> forall|k: int| 0 <= k < find_byte(s, b) ==> s[k] != b,
        find_byte(s, b) == -1 ==> forall|k: int| 0 <= k < s.len() ==> s[k] != b,
    decreases s.len(),
{
    if s.len() > 0 && s[0] != b {
        lemma_find_byte(s.drop_first(), b);
        let f = find_byte(s, b);
        if f >= 0 {
            assert(s[f] == s.drop_first()[f - 1]);
            assert forall|k: int| 0 <= k < f implies s[k] != b by {
                if k > 0 {
                    assert(s[k] == s.drop_first()[k - 1]);
                }
            }
        } else {
            assert forall|k: int| 0 <= k < s.len() implies s[k] != b by {
                if k > 0 {
                    assert(s[k] == s.drop_first()[k - 1]);
                }
            }
        }
    }
}

/// The packet-level helpers of the query protocol.
pub struct PacketUtils {}

impl PacketUtils {
    /// Frames `packet` as a full query packet with the given type byte and
    /// session id.
    pub fn write_packet(packet: Vec<u8>, id: u8, session_id: i32) -> (r: Vec<u8>)
        ensures
            r@ == packet_bytes(packet@, id, session_id),
    {
        let mut vec: Vec<u8> = Vec::new();
        vec.push(0xfe);
        vec.push(0xfd);
        vec.push(id);
        push_u32_be(session_id as u32, &mut vec);
        let ghost payload = packet@;
        let mut packet = packet;
        vec.append(&mut packet);
        proof {
            assert(vec@ =~= packet_bytes(payload, id, session_id));
        }
        vec
    }

    /// Encodes a string field: its UTF-8 bytes followed by a NUL terminator.
    pub fn write_string(string: String) -> (r: Vec<u8>)
        ensures
            r@ == encode_utf8(string@) + seq![0u8],
    {
        let mut vec: Vec<u8> = Vec::new();
        vec.extend_from_slice(string.as_str().as_bytes());
        vec.push(0x00);
        proof {
            assert(vec@ =~= encode_utf8(string@) + seq![0u8]);
        }
        vec
    }

    /// Reads a NUL-terminated string from `data` at `*pos`, decoding its
    /// bytes lossily. `None` exactly when no NUL terminator follows, in
    /// which case the whole buffer is consumed.
    pub fn read_string(data: &Vec<u8>, pos: &mut usize) -> (r: Option<String>)
        requires
            *old(pos) <= data@.len(),
        ensures
            *final(pos) <= data@.len(),
            ({
                let f = find_byte(data@.skip(*old(pos) as int), 0);
                if f >= 0 {
                    r matches Some(st) && st@ == decode_utf8_lossy(
                        data@.subrange(*old(pos) as int, *old(pos) + f),
                    ) && *final(pos) == *old(pos) + f + 1
                } else {
                    r is None && *final(pos) == data@.len()
                }
            }),
    {
        let ghost rem = data@.skip(*old(pos) as int);
        proof {
            lemma_find_byte(rem, 0);
            assert(forall|k: int| 0 <= k < rem.len() ==> rem[k] == data@[*old(pos) + k]);
        }
        let start = *pos;
        let mut string: Vec<u8> = Vec::new();
        let mut idx = start;
        while idx < data.len() && data[idx] != 0x00
            invariant
                start <= idx <= data@.len(),
                forall|k: int| start <= k < idx ==> data@[k] != 0u8,
                string@ == data@.subrange(start as int, idx as int),
            decreases data@.len() - idx,
        {
            string.push(data[idx]);
            idx = idx + 1;
            proof {
                assert(string@ =~= data@.subrange(start as int, idx as int));
            }
        }
        if idx == data.len() {
            proof {
                assert(find_byte(rem, 0) == -1) by {
                    if find_byte(rem, 0) >= 0 {
                        assert(data@[start + find_byte(rem, 0)] != 0u8);
                    }
                }
            }
            *pos = idx;
            return None;
        }
        proof {
            let f = find_byte(rem, 0);
            assert(rem[idx - start] == 0u8);
            assert(f >= 0) by {
                if f == -1 {
                    assert(rem[idx - start] != 0u8);
                }
            }
            assert(f == idx - start) by {
                if f < idx - start {
                    assert(data@[start + f] != 0u8);
                    assert(rem[f] == 0u8);
                } else if f > idx - start {
                    assert(rem[idx - start] != 0u8);
                }
            }
        }
        *pos = idx + 1;
        Some(utf8_to_string_lossy(string.as_slice()))
    }

    /// Reads one byte from `data` at `*pos`. `None` exactly when the buffer
    /// is exhausted.
    pub fn read_byte(data: &Vec<u8>, pos: &mut usize) -> (r: Option<u8>)
        requires
            *old(pos) <= data@.len(),
        ensures
            *final(pos) <= data@.len(),
            *old(pos) < data@.len() ==> (r == Some(data@[*old(pos) as int]) && *final(pos) == *old(
                pos,
            ) + 1),
            *old(pos) == data@.len() ==> r is None && *final(pos) == *old(pos),
    {
        if *pos < data.len() {
            let b = data[*pos];
            *pos = *pos + 1;
            Some(b)
        } else {
            None
        }
    }

    /// Reads a big-endian 32-bit integer from `data` at `*pos`. `None`
    /// exactly when fewer than four bytes remain.
    pub fn read_int32(data: &Vec<u8>, pos: &mut usize) -> (r: Option<i32>)
        requires
            *old(pos) <= data@.len(),
        ensures
            *final(pos) <= data@.len(),
            *old(pos) + 4 <= data@.len() ==> (r == Some(
                be32_value(
                    data@[*old(pos) as int],
                    data@[*old(pos) + 1],
                    data@[*old(pos) + 2],
                    data@[*old(pos) + 3],
                ) as i32,
            ) && *final(pos) == *old(pos) + 4),
            *old(pos) + 4 > data@.len() ==> r is None && *final(pos) == *old(pos),
    {
        if data.len() - *pos < 4 {
            return None;
        }
        let b0 = data[*pos];
        let b1 = data[*pos + 1];
        let b2 = data[*pos + 2];
        let b3 = data[*pos + 3];
        *pos = *pos + 4;
        let v: u32 = ((b0 as u32) << 24) | ((b1 as u32) << 16) | ((b2 as u32) << 8) | (b3 as u32);
        Some(v as i32)
    }
}

/// Assembles a query packet payload field by field.
pub struct PacketBuilder {
    pub elements: Vec<Element>,
}

impl PacketBuilder {
    /// An empty payload.
    pub fn new() -> (r: Self)
        ensures
            r.elements@ == Seq::<Element>::empty(),
    {
        Self { elements: Vec::new() }
    }

    /// Appends a NUL-terminated string field.
    pub fn insert_string(&mut self, string: &str)
        ensures
            final(self).elements@.len() == old(self).elements@.len() + 1,
            final(self).elements@.drop_last() == old(self).elements@,
            (final(self).elements@.last() matches Element::StringElement { val } && val@
                == string@),
    {
        self.elements.push(Element::StringElement { val: string.to_owned() });
        proof {
            assert(self.elements@.drop_last() =~= old(self).elements@);
        }
    }

    /// Appends a raw byte-block field.
    pub fn insert_bytearray(&mut self, bytes: Vec<u8>)
        ensures
            final(self).elements@.len() == old(self).elements@.len() + 1,
            final(self).elements@.drop_last() == old(self).elements@,
            (final(self).elements@.last() matches Element::Bytes { val } && val@ == bytes@),
    {
        self.elements.push(Element::Bytes { val: bytes });
        proof {
            assert(self.elements@.drop_last() =~= old(self).elements@);
        }
    }

    /// Appends a single-byte field.
    pub fn insert_byte(&mut self, byte: u8)
        ensures
            final(self).elements@ == old(self).elements@.push(Element::Byte { val: byte }),
    {
        self.elements.push(Element::Byte { val: byte });
    }

    /// Appends a big-endian 16-bit field.
    pub fn insert_short(&mut self, short: i16)
        ensures
            final(self).elements@ == old(self).elements@.push(Element::Short { val: short }),
    {
        self.elements.push(Element::Short { val: short });
    }

    /// Appends a big-endian 32-bit field.
    pub fn insert_int(&mut self, value: i32)
        ensures
            final(self).elements@ == old(self).elements@.push(Element::Int32 { val: value }),
    {
        self.elements.push(Element::Int32 { val: value });
    }

    /// Serializes the payload fields, in order.
    pub fn internal_builder(&mut self) -> (r: Vec<u8>)
        ensures
            final(self).elements@ == old(self).elements@,
            r@ == elements_bytes(old(self).elements@),
    {
        let mut packet: Vec<u8> = Vec::new();
        let mut i: usize = 0;
        while i < self.elements.len()
            invariant
                i <= self.elements@.len(),
                self.elements@ == old(self).elements@,
                packet@ == elements_bytes(self.elements@.take(i as int)),
            decreases self.elements@.len() - i,
        {
            let ghost before = packet@;
            match &self.elements[i] {
                Element::StringElement { val } => {
                    packet.extend_from_slice(val.as_str().as_bytes());
                    packet.push(0x00);
                    proof {
                        assert(packet@ =~= before + element_bytes(self.elements@[i as int]));
                    }
                },
                Element::Byte { val } => {
                    packet.push(*val);
                    proof {
                        assert(packet@ =~= before + element_bytes(self.elements@[i as int]));
                    }
                },
                Element::Short { val } => {
                    push_u16_be(*val as u16, &mut packet);
                    proof {
                        assert(packet@ =~= before + element_bytes(self.elements@[i as int]));
                    }
                },
                Element::Int32 { val } => {
                    push_u32_be(*val as u32, &mut packet);
                    proof {
                        assert(packet@ =~= before + element_bytes(self.elements@[i as int]));
                    }
                },
                Element::Bytes { val } => {
                    packet.extend_from_slice(val.as_slice());
                    proof {
                        assert(packet@ =~= before + element_bytes(self.elements@[i as int]));
                    }
                },
            }
            i = i + 1;
            proof {
                let es = self.elements@;
                assert(es.take(i as int) =~= es.take(i - 1) + seq![es[i - 1]]);
                lemma_elements_bytes_append(es.take(i - 1), seq![es[i - 1]]);
                assert(seq![es[i - 1]].drop_first() =~= Seq::<Element>::empty());
                assert(elements_bytes(seq![es[i - 1]]) == element_bytes(es[i - 1])
                    + elements_bytes(seq![es[i - 1]].drop_first()));
                assert(elements_bytes(Seq::<Element>::empty()) =~= Seq::<u8>::empty());
                assert(elements_bytes(seq![es[i - 1]]) =~= element_bytes(es[i - 1]));
                assert(packet@ =~= elements_bytes(es.take(i as int)));
            }
        }
        proof {
            assert(self.elements@.take(self.elements@.len() as int) =~= self.elements@);
        }
        packet
    }

    /// Serializes the payload and frames it with the given type byte and
    /// session id.
    pub fn build(self, id: u8, session_id: i32) -> (r: Vec<u8>)
        ensures
            r@ == packet_bytes(elements_bytes(self.elements@), id, session_id),
    {
        let mut b = self;
        let packet = b.internal_builder();
        PacketUtils::write_packet(packet, id, session_id)
    }
}

} // verus!
