//! ICMP echo messages.
use vstd::prelude::*;

use crate::bytes::{append_bytes, be16, be16_at, copy_range, lemma_be16_roundtrip, push_be16, read_be16};

verus! {

/// The ICMP message types handled here.
#[derive(Clone, Copy, Debug, PartialEq, Eq, Structural)]
pub enum IcmpKind {
    EchoReply,
    EchoRequest,
}

impl IcmpKind {
    /// The ICMP type number on the wire.
    pub open spec fn code(self) -> u8 {
        match self {
            IcmpKind::EchoReply => 0,
            IcmpKind::EchoRequest => 8,
        }
    }

    /// The kind with type number `value`, if any.
    pub open spec fn from_code(value: u8) -> Option<IcmpKind> {
        if value == 0 {
            Some(IcmpKind::EchoReply)
        } else if value == 8 {
            Some(IcmpKind::EchoRequest)
        } else {
            None
        }
    }

    pub fn to_u8(self) -> (r: u8)
        ensures
            r == self.code(),
    {
        match self {
            IcmpKind::EchoReply => 0,
            IcmpKind::EchoRequest => 8,
        }
    }

    pub fn from_u8(value: u8) -> (r: Option<IcmpKind>)
        ensures
            r == IcmpKind::from_code(value),
    {
        if value == 0 {
            Some(IcmpKind::EchoReply)
        } else if value == 8 {
            Some(IcmpKind::EchoRequest)
        } else {
            None
        }
    }
}

/// An ICMP echo request or reply.
#[derive(Clone, Debug, PartialEq, Eq)]
pub struct IcmpPacket {
    pub kind: IcmpKind,
    pub identifier: u16,
    pub sequence: u16,
    pub payload: Vec<u8>,
}

/// The wire bytes: type, code 0, checksum 0, identifier, sequence, payload.
pub open spec fn echo_encoding(kind: IcmpKind, identifier: u16, sequence: u16, payload: Seq<u8>) -> Seq<u8> {
    seq![kind.code(), 0u8] + be16(0) + be16(identifier) + be16(sequence) + payload
}

/// What bytes decode to as (kind, identifier, sequence, payload); `None` when shorter than
/// 8 bytes or of an unknown type. Code and checksum are not looked at.
pub open spec fn echo_decoding(b: Seq<u8>) -> Option<(IcmpKind, u16, u16, Seq<u8>)> {
    if b.len() < 8 {
        None
    } else {
        match IcmpKind::from_code(b[0]) {
            Some(k) => Some((k, be16_at(b, 4), be16_at(b, 6), b.skip(8))),
            None => None,
        }
    }
}

impl IcmpPacket {
    pub fn encode(&self) -> (r: Vec<u8>)
        ensures
            r@ == echo_encoding(self.kind, self.identifier, self.sequence, self.payload@),
    {
        let mut bytes: Vec<u8> = Vec::new();
        bytes.push(self.kind.to_u8());
        bytes.push(0);
        push_be16(&mut bytes, 0);
        push_be16(&mut bytes, self.identifier);
        push_be16(&mut bytes, self.sequence);
        append_bytes(&mut bytes, self.payload.as_slice());
        assert(bytes@ =~= echo_encoding(self.kind, self.identifier, self.sequence, self.payload@));
        bytes
    }

    pub fn decode(bytes: &[u8]) -> (r: Option<IcmpPacket>)
        ensures
            match r {
                Some(p) => echo_decoding(bytes@) == Some((p.kind, p.identifier, p.sequence, p.payload@)),
                None => echo_decoding(bytes@) is None,
            },
    {
        if bytes.len() < 8 {
            return None;
        }
        let kind = match IcmpKind::from_u8(bytes[0]) {
            Some(k) => k,
            None => return None,
        };
        Some(IcmpPacket {
            kind,
            identifier: read_be16(bytes, 4),
            sequence: read_be16(bytes, 6),
            payload: copy_range(bytes, 8, bytes.len()),
        })
    }
}

/// Decoding the bytes of an encoded ICMP message gives back its fields.
pub proof fn lemma_echo_decode_encode(kind: IcmpKind, identifier: u16, sequence: u16, payload: Seq<u8>)
    ensures
        echo_decoding(echo_encoding(kind, identifier, sequence, payload)) == Some((kind, identifier, sequence, payload)),
{
    let b = echo_encoding(kind, identifier, sequence, payload);
    lemma_be16_roundtrip(identifier);
    lemma_be16_roundtrip(sequence);
    assert(b[0] == kind.code());
    assert(b[4] == be16(identifier)[0] && b[5] == be16(identifier)[1]);
    assert(b[6] == be16(sequence)[0] && b[7] == be16(sequence)[1]);
    assert(b.skip(8) =~= payload);
}

} // verus!
