//! IPv4 packets (fixed 20-byte header, no options written).
use vstd::prelude::*;

use crate::bytes::{append_bytes, length_field, be16, be16_at, copy_range, lemma_be16_roundtrip, push_be16, read_be16};
use super::addr::{lemma_ipv4_from_bytes, push_ipv4, read_ipv4, Ipv4Addr};

verus! {

/// The transport protocols carried over IPv4 here.
#[derive(Clone, Copy, Debug, PartialEq, Eq, Structural)]
pub enum IpProtocol {
    Icmp,
    Tcp,
    Udp,
}

impl IpProtocol {
    /// The protocol number on the wire.
    pub open spec fn code(self) -> u8 {
        match self {
            IpProtocol::Icmp => 1,
            IpProtocol::Tcp => 6,
            IpProtocol::Udp => 17,
        }
    }

    /// The protocol with number `value`, if any.
    pub open spec fn from_code(value: u8) -> Option<IpProtocol> {
        if value == 1 {
            Some(IpProtocol::Icmp)
        } else if value == 6 {
            Some(IpProtocol::Tcp)
        } else if value == 17 {
            Some(IpProtocol::Udp)
        } else {
            None
        }
    }

    pub fn to_u8(self) -> (r: u8)
        ensures
            r == self.code(),
    {
        match self {
            IpProtocol::Icmp => 1,
            IpProtocol::Tcp => 6,
            IpProtocol::Udp => 17,
        }
    }

    pub fn from_u8(value: u8) -> (r: Option<IpProtocol>)
        ensures
            r == IpProtocol::from_code(value),
    {
        if value == 1 {
            Some(IpProtocol::Icmp)
        } else if value == 6 {
            Some(IpProtocol::Tcp)
        } else if value == 17 {
            Some(IpProtocol::Udp)
        } else {
            None
        }
    }
}

/// An IPv4 packet with the header fields this stack uses.
#[derive(Clone, Debug, PartialEq, Eq)]
pub struct Ipv4Packet {
    pub src: Ipv4Addr,
    pub dst: Ipv4Addr,
    pub protocol: IpProtocol,
    pub ttl: u8,
    pub payload: Vec<u8>,
}

/// The value of a packet: its header fields and payload bytes.
pub struct PacketView {
    pub src: Ipv4Addr,
    pub dst: Ipv4Addr,
    pub protocol: IpProtocol,
    pub ttl: u8,
    pub payload: Seq<u8>,
}

impl View for Ipv4Packet {
    type V = PacketView;

    open spec fn view(&self) -> PacketView {
        PacketView { src: self.src, dst: self.dst, protocol: self.protocol, ttl: self.ttl, payload: self.payload@ }
    }
}

/// The total-length field written for a payload of `len` bytes: `20 + len`, kept to
/// its low 16 bits.
pub open spec fn ipv4_total_len_field(len: nat) -> u16 {
    ((20 + len) % 65536) as u16
}

/// The wire bytes: version 4 and header length 5 words, type of service 0, total length,
/// identification and fragment fields 0, TTL, protocol, checksum 0, addresses, payload.
pub open spec fn ipv4_encoding(src: Ipv4Addr, dst: Ipv4Addr, protocol: IpProtocol, ttl: u8, payload: Seq<u8>) -> Seq<u8> {
    seq![0x45u8, 0u8] + be16(ipv4_total_len_field(payload.len())) + be16(0) + be16(0)
        + seq![ttl, protocol.code()] + be16(0) + src.bytes() + dst.bytes() + payload
}

/// What bytes decode to as (src, dst, protocol, ttl, payload). `None` when shorter than 20
/// bytes, when the version is not 4 or the header is shorter than 5 words, when the total
/// length exceeds the bytes or is shorter than the header, or when the protocol is unknown.
/// The payload lies between the header and the total length.
pub open spec fn ipv4_decoding(b: Seq<u8>) -> Option<(Ipv4Addr, Ipv4Addr, IpProtocol, u8, Seq<u8>)> {
    if b.len() < 20 {
        None
    } else {
        let version = b[0] / 16;
        let ihl = b[0] % 16;
        let header_len = ihl * 4;
        let total_len = be16_at(b, 2) as int;
        if version != 4 || ihl < 5 || b.len() < total_len || total_len < header_len {
            None
        } else {
            match IpProtocol::from_code(b[9]) {
                Some(p) => Some((Ipv4Addr::from_seq(b, 12), Ipv4Addr::from_seq(b, 16), p, b[8], b.subrange(header_len as int, total_len))),
                None => None,
            }
        }
    }
}

impl Ipv4Packet {
    pub fn encode(&self) -> (r: Vec<u8>)
        ensures
            r@ == ipv4_encoding(self.src, self.dst, self.protocol, self.ttl, self.payload@),
    {
        let total_len: u16 = length_field(self.payload.len(), 20);
        let mut bytes: Vec<u8> = Vec::new();
        bytes.push(0x45);
        bytes.push(0);
        push_be16(&mut bytes, total_len);
        push_be16(&mut bytes, 0);
        push_be16(&mut bytes, 0);
        bytes.push(self.ttl);
        bytes.push(self.protocol.to_u8());
        push_be16(&mut bytes, 0);
        push_ipv4(&mut bytes, self.src);
        push_ipv4(&mut bytes, self.dst);
        append_bytes(&mut bytes, self.payload.as_slice());
        assert(total_len == ipv4_total_len_field(self.payload@.len()));
        assert(bytes@ =~= ipv4_encoding(self.src, self.dst, self.protocol, self.ttl, self.payload@));
        bytes
    }

    pub fn decode(bytes: &[u8]) -> (r: Option<Ipv4Packet>)
        ensures
            match r {
                Some(p) => ipv4_decoding(bytes@) == Some((p.src, p.dst, p.protocol, p.ttl, p.payload@)),
                None => ipv4_decoding(bytes@) is None,
            },
    {
        if bytes.len() < 20 {
            return None;
        }
        let version = bytes[0] / 16;
        let ihl = bytes[0] % 16;
        if version != 4 || ihl < 5 {
            return None;
        }
        let header_len: usize = (ihl as usize) * 4;
        let total_len: usize = read_be16(bytes, 2) as usize;
        if bytes.len() < total_len || total_len < header_len {
            return None;
        }
        let src = read_ipv4(bytes, 12);
        let dst = read_ipv4(bytes, 16);
        let protocol = match IpProtocol::from_u8(bytes[9]) {
            Some(p) => p,
            None => return None,
        };
        Some(Ipv4Packet { src, dst, protocol, ttl: bytes[8], payload: copy_range(bytes, header_len, total_len) })
    }
}

/// Decoding the bytes of an encoded packet gives back its fields, for every payload that
/// fits the 16-bit total length.
pub proof fn lemma_ipv4_decode_encode(src: Ipv4Addr, dst: Ipv4Addr, protocol: IpProtocol, ttl: u8, payload: Seq<u8>)
    requires
        payload.len() + 20 <= 65535,
    ensures
        ipv4_decoding(ipv4_encoding(src, dst, protocol, ttl, payload)) == Some((src, dst, protocol, ttl, payload)),
{
    let b = ipv4_encoding(src, dst, protocol, ttl, payload);
    let tl = ipv4_total_len_field(payload.len());
    lemma_be16_roundtrip(tl);
    assert(tl == 20 + payload.len());
    assert(b[0] == 0x45u8);
    assert(b[2] == be16(tl)[0] && b[3] == be16(tl)[1]);
    assert(b[8] == ttl && b[9] == protocol.code());
    assert(b.subrange(12, 16) =~= src.bytes());
    assert(b.subrange(16, 20) =~= dst.bytes());
    lemma_ipv4_from_bytes(src, b, 12);
    lemma_ipv4_from_bytes(dst, b, 16);
    assert(b.subrange(20, 20 + payload.len() as int) =~= payload);
}

} // verus!
