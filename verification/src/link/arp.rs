//! ARP for IPv4 over Ethernet.
use vstd::prelude::*;

use crate::bytes::{be16, be16_at, lemma_be16_roundtrip, push_be16, read_be16};
use crate::internet::addr::{lemma_ipv4_from_bytes, push_ipv4, read_ipv4, Ipv4Addr};
use super::ethernet::{lemma_mac_from_bytes, push_mac, read_mac, MacAddr};

verus! {

/// The ARP operation code.
#[derive(Clone, Copy, Debug, PartialEq, Eq, Structural)]
pub enum ArpOperation {
    Request,
    Reply,
}

impl ArpOperation {
    /// The 16-bit operation code on the wire.
    pub open spec fn code(self) -> u16 {
        match self {
            ArpOperation::Request => 1,
            ArpOperation::Reply => 2,
        }
    }

    /// The operation with wire code `value`, if any.
    pub open spec fn from_code(value: u16) -> Option<ArpOperation> {
        if value == 1 {
            Some(ArpOperation::Request)
        } else if value == 2 {
            Some(ArpOperation::Reply)
        } else {
            None
        }
    }

    pub fn to_u16(self) -> (r: u16)
        ensures
            r == self.code(),
    {
        match self {
            ArpOperation::Request => 1,
            ArpOperation::Reply => 2,
        }
    }

    pub fn from_u16(value: u16) -> (r: Option<ArpOperation>)
        ensures
            r == ArpOperation::from_code(value),
    {
        if value == 1 {
            Some(ArpOperation::Request)
        } else if value == 2 {
            Some(ArpOperation::Reply)
        } else {
            None
        }
    }
}

/// An ARP packet for IPv4 over Ethernet.
#[derive(Clone, Copy, Debug, PartialEq, Eq, Structural)]
pub struct ArpPacket {
    pub operation: ArpOperation,
    pub sender_mac: MacAddr,
    pub sender_ip: Ipv4Addr,
    pub target_mac: MacAddr,
    pub target_ip: Ipv4Addr,
}

/// The 28 wire bytes of an ARP packet: hardware type 1, protocol 0x0800, lengths 6 and 4,
/// then the operation and the four addresses.
pub open spec fn arp_encoding(p: ArpPacket) -> Seq<u8> {
    be16(1) + be16(0x0800) + seq![6u8, 4u8] + be16(p.operation.code()) + p.sender_mac.bytes()
        + p.sender_ip.bytes() + p.target_mac.bytes() + p.target_ip.bytes()
}

/// What bytes decode to: `None` when shorter than 28 bytes, when the fixed header
/// fields are not Ethernet/IPv4 with lengths 6/4, or when the operation is unknown.
/// Bytes after the 28th are ignored.
pub open spec fn arp_decoding(b: Seq<u8>) -> Option<ArpPacket> {
    if b.len() < 28 || be16_at(b, 0) != 1 || be16_at(b, 2) != 0x0800 || b[4] != 6 || b[5] != 4 {
        None
    } else {
        match ArpOperation::from_code(be16_at(b, 6)) {
            Some(op) => Some(ArpPacket {
                operation: op,
                sender_mac: MacAddr::from_seq(b, 8),
                sender_ip: Ipv4Addr::from_seq(b, 14),
                target_mac: MacAddr::from_seq(b, 18),
                target_ip: Ipv4Addr::from_seq(b, 24),
            }),
            None => None,
        }
    }
}

impl ArpPacket {
    pub fn encode(&self) -> (r: Vec<u8>)
        ensures
            r@ == arp_encoding(*self),
    {
        let mut bytes: Vec<u8> = Vec::new();
        push_be16(&mut bytes, 1);
        push_be16(&mut bytes, 0x0800);
        bytes.push(6);
        bytes.push(4);
        push_be16(&mut bytes, self.operation.to_u16());
        push_mac(&mut bytes, self.sender_mac);
        push_ipv4(&mut bytes, self.sender_ip);
        push_mac(&mut bytes, self.target_mac);
        push_ipv4(&mut bytes, self.target_ip);
        assert(bytes@ =~= arp_encoding(*self));
        bytes
    }

    pub fn decode(bytes: &[u8]) -> (r: Option<ArpPacket>)
        ensures
            r == arp_decoding(bytes@),
    {
        if bytes.len() < 28 {
            return None;
        }
        if read_be16(bytes, 0) != 1 {
            return None;
        }
        if read_be16(bytes, 2) != 0x0800 {
            return None;
        }
        if bytes[4] != 6 || bytes[5] != 4 {
            return None;
        }
        let operation = match ArpOperation::from_u16(read_be16(bytes, 6)) {
            Some(op) => op,
            None => return None,
        };
        Some(ArpPacket {
            operation,
            sender_mac: read_mac(bytes, 8),
            sender_ip: read_ipv4(bytes, 14),
            target_mac: read_mac(bytes, 18),
            target_ip: read_ipv4(bytes, 24),
        })
    }
}

/// Decoding the bytes of an encoded ARP packet gives back that packet.
pub proof fn lemma_arp_decode_encode(p: ArpPacket)
    ensures
        arp_decoding(arp_encoding(p)) == Some(p),
{
    let b = arp_encoding(p);
    lemma_be16_roundtrip(1);
    lemma_be16_roundtrip(0x0800);
    lemma_be16_roundtrip(p.operation.code());
    assert(b.len() == 28);
    assert(b[0] == be16(1)[0] && b[1] == be16(1)[1]);
    assert(b[2] == be16(0x0800)[0] && b[3] == be16(0x0800)[1]);
    assert(b[4] == 6 && b[5] == 4);
    assert(b[6] == be16(p.operation.code())[0] && b[7] == be16(p.operation.code())[1]);
    assert(b.subrange(8, 14) =~= p.sender_mac.bytes());
    assert(b.subrange(14, 18) =~= p.sender_ip.bytes());
    assert(b.subrange(18, 24) =~= p.target_mac.bytes());
    assert(b.subrange(24, 28) =~= p.target_ip.bytes());
    lemma_mac_from_bytes(p.sender_mac, b, 8);
    lemma_ipv4_from_bytes(p.sender_ip, b, 14);
    lemma_mac_from_bytes(p.target_mac, b, 18);
    lemma_ipv4_from_bytes(p.target_ip, b, 24);
}

} // verus!
