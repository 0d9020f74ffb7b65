//! TCP segments (fixed 20-byte header, no options written).
use vstd::prelude::*;

use crate::bytes::{append_bytes, be16, be16_at, be32, be32_at, copy_range, lemma_be16_roundtrip, lemma_be32_roundtrip, push_be16, push_be32, read_be16, read_be32};

verus! {

pub const FLAG_FIN: u8 = 0x01;
pub const FLAG_SYN: u8 = 0x02;
pub const FLAG_ACK: u8 = 0x10;

/// A TCP segment with the header fields this stack uses.
#[derive(Clone, Debug, PartialEq, Eq)]
pub struct TcpPacket {
    pub src_port: u16,
    pub dst_port: u16,
    pub seq: u32,
    pub ack: u32,
    pub flags: u8,
    pub window: u16,
    pub payload: Vec<u8>,
}

/// The wire bytes: ports, sequence and acknowledgement numbers, data offset 5 words,
/// flags, window, checksum 0, urgent pointer 0, payload.
pub open spec fn tcp_encoding(src_port: u16, dst_port: u16, seq: u32, ack: u32, flags: u8, window: u16, payload: Seq<u8>) -> Seq<u8> {
    be16(src_port) + be16(dst_port) + be32(seq) + be32(ack) + seq![0x50u8, flags] + be16(window) + be16(0) + be16(0) + payload
}

/// What bytes decode to as (src port, dst port, seq, ack, flags, window, payload); `None`
/// when shorter than 20 bytes or when the data offset is below 5 words or beyond the bytes.
/// The payload starts at the data offset.
pub open spec fn tcp_decoding(b: Seq<u8>) -> Option<(u16, u16, u32, u32, u8, u16, Seq<u8>)> {
    if b.len() < 20 {
        None
    } else {
        let header_len = (b[12] / 16) * 4;
        if header_len < 20 || b.len() < header_len {
            None
        } else {
            Some((be16_at(b, 0), be16_at(b, 2), be32_at(b, 4), be32_at(b, 8), b[13], be16_at(b, 14), b.subrange(header_len as int, b.len() as int)))
        }
    }
}

impl TcpPacket {
    pub fn encode(&self) -> (r: Vec<u8>)
        ensures
            r@ == tcp_encoding(self.src_port, self.dst_port, self.seq, self.ack, self.flags, self.window, self.payload@),
    {
        let mut bytes: Vec<u8> = Vec::new();
        push_be16(&mut bytes, self.src_port);
        push_be16(&mut bytes, self.dst_port);
        push_be32(&mut bytes, self.seq);
        push_be32(&mut bytes, self.ack);
        bytes.push(0x50);
        bytes.push(self.flags);
        push_be16(&mut bytes, self.window);
        push_be16(&mut bytes, 0);
        push_be16(&mut bytes, 0);
        append_bytes(&mut bytes, self.payload.as_slice());
        assert(bytes@ =~= tcp_encoding(self.src_port, self.dst_port, self.seq, self.ack, self.flags, self.window, self.payload@));
        bytes
    }

    pub fn decode(bytes: &[u8]) -> (r: Option<TcpPacket>)
        ensures
            match r {
                Some(p) => tcp_decoding(bytes@) == Some((p.src_port, p.dst_port, p.seq, p.ack, p.flags, p.window, p.payload@)),
                None => tcp_decoding(bytes@) is None,
            },
    {
        if bytes.len() < 20 {
            return None;
        }
        let header_len: usize = ((bytes[12] / 16) as usize) * 4;
        if header_len < 20 || bytes.len() < header_len {
            return None;
        }
        Some(TcpPacket {
            src_port: read_be16(bytes, 0),
            dst_port: read_be16(bytes, 2),
            seq: read_be32(bytes, 4),
            ack: read_be32(bytes, 8),
            flags: bytes[13],
            window: read_be16(bytes, 14),
            payload: copy_range(bytes, header_len, bytes.len()),
        })
    }
}

/// Decoding the bytes of an encoded segment gives back its fields.
pub proof fn lemma_tcp_decode_encode(src_port: u16, dst_port: u16, seq: u32, ack: u32, flags: u8, window: u16, payload: Seq<u8>)
    ensures
        tcp_decoding(tcp_encoding(src_port, dst_port, seq, ack, flags, window, payload)) == Some((src_port, dst_port, seq, ack, flags, window, payload)),
{
    let b = tcp_encoding(src_port, dst_port, seq, ack, flags, window, payload);
    lemma_be16_roundtrip(src_port);
    lemma_be16_roundtrip(dst_port);
    lemma_be32_roundtrip(seq);
    lemma_be32_roundtrip(ack);
    lemma_be16_roundtrip(window);
    assert(b[0] == be16(src_port)[0] && b[1] == be16(src_port)[1]);
    assert(b[2] == be16(dst_port)[0] && b[3] == be16(dst_port)[1]);
    assert(b[4] == be32(seq)[0] && b[5] == be32(seq)[1] && b[6] == be32(seq)[2] && b[7] == be32(seq)[3]);
    assert(b[8] == be32(ack)[0] && b[9] == be32(ack)[1] && b[10] == be32(ack)[2] && b[11] == be32(ack)[3]);
    assert(b[12] == 0x50u8 && b[13] == flags);
    assert(b[14] == be16(window)[0] && b[15] == be16(window)[1]);
    assert(b.subrange(20, b.len() as int) =~= payload);
}

} // verus!
