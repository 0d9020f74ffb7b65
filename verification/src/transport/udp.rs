//! UDP datagrams.
use vstd::prelude::*;

use crate::bytes::{append_bytes, length_field, be16, be16_at, copy_range, lemma_be16_roundtrip, push_be16, read_be16};

verus! {

/// A UDP datagram: ports and payload.
#[derive(Clone, Debug, PartialEq, Eq)]
pub struct UdpPacket {
    pub src_port: u16,
    pub dst_port: u16,
    pub payload: Vec<u8>,
}

/// The length field written for a payload of `len` bytes: `8 + len`, kept to its low 16 bits.
pub open spec fn udp_length_field(len: nat) -> u16 {
    ((8 + len) % 65536) as u16
}

/// The wire bytes: ports, length, checksum 0, payload.
pub open spec fn udp_encoding(src_port: u16, dst_port: u16, payload: Seq<u8>) -> Seq<u8> {
    be16(src_port) + be16(dst_port) + be16(udp_length_field(payload.len())) + be16(0) + payload
}

/// What bytes decode to as (src port, dst port, payload); `None` when shorter than 8 bytes
/// or when the length field exceeds the bytes or is below 8. The payload ends at the length
/// field; the checksum is not looked at.
pub open spec fn udp_decoding(b: Seq<u8>) -> Option<(u16, u16, Seq<u8>)> {
    if b.len() < 8 {
        None
    } else {
        let len = be16_at(b, 4) as int;
        if b.len() < len || len < 8 {
            None
        } else {
            Some((be16_at(b, 0), be16_at(b, 2), b.subrange(8, len)))
        }
    }
}

impl UdpPacket {
    pub fn encode(&self) -> (r: Vec<u8>)
        ensures
            r@ == udp_encoding(self.src_port, self.dst_port, self.payload@),
    {
        let len: u16 = length_field(self.payload.len(), 8);
        let mut bytes: Vec<u8> = Vec::new();
        push_be16(&mut bytes, self.src_port);
        push_be16(&mut bytes, self.dst_port);
        push_be16(&mut bytes, len);
        push_be16(&mut bytes, 0);
        append_bytes(&mut bytes, self.payload.as_slice());
        assert(bytes@ =~= udp_encoding(self.src_port, self.dst_port, self.payload@));
        bytes
    }

    pub fn decode(bytes: &[u8]) -> (r: Option<UdpPacket>)
        ensures
            match r {
                Some(p) => udp_decoding(bytes@) == Some((p.src_port, p.dst_port, p.payload@)),
                None => udp_decoding(bytes@) is None,
            },
    {
        if bytes.len() < 8 {
            return None;
        }
        let len = read_be16(bytes, 4) as usize;
        if bytes.len() < len || len < 8 {
            return None;
        }
        Some(UdpPacket {
            src_port: read_be16(bytes, 0),
            dst_port: read_be16(bytes, 2),
            payload: copy_range(bytes, 8, len),
        })
    }
}

/// Decoding the bytes of an encoded datagram gives back its fields, for every payload that
/// fits the 16-bit length field.
pub proof fn lemma_udp_decode_encode(src_port: u16, dst_port: u16, payload: Seq<u8>)
    requires
        payload.len() + 8 <= 65535,
    ensures
        udp_decoding(udp_encoding(src_port, dst_port, payload)) == Some((src_port, dst_port, payload)),
{
    let b = udp_encoding(src_port, dst_port, payload);
    let l = udp_length_field(payload.len());
    lemma_be16_roundtrip(src_port);
    lemma_be16_roundtrip(dst_port);
    lemma_be16_roundtrip(l);
    assert(b[0] == be16(src_port)[0] && b[1] == be16(src_port)[1]);
    assert(b[2] == be16(dst_port)[0] && b[3] == be16(dst_port)[1]);
    assert(b[4] == be16(l)[0] && b[5] == be16(l)[1]);
    assert(b.subrange(8, 8 + payload.len() as int) =~= payload);
}

} // verus!
