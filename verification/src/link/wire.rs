//! The datagrams that carry a link over UDP: a registration that announces a hardware
//! address (tag 1, then the six octets) and a frame (tag 0, then the frame's bytes).
use vstd::prelude::*;

use crate::link::ethernet::{ethernet_decoding, ethernet_encoding, EthernetFrame, FrameView, MacAddr};

verus! {

/// What a link datagram carries.
pub enum LinkDatagram {
    Register(MacAddr),
    Frame(EthernetFrame),
    Other,
}

/// What a link datagram carries, as a value.
pub enum LinkDatagramView {
    Register(MacAddr),
    Frame(FrameView),
    Other,
}

impl View for LinkDatagram {
    type V = LinkDatagramView;

    open spec fn view(&self) -> LinkDatagramView {
        match self {
            LinkDatagram::Register(m) => LinkDatagramView::Register(*m),
            LinkDatagram::Frame(f) => LinkDatagramView::Frame(f@),
            LinkDatagram::Other => LinkDatagramView::Other,
        }
    }
}

/// How a datagram reads: at least 7 bytes with tag 1 register the address in bytes 1 to 6;
/// more than one byte with tag 0 carry the frame that the rest decodes to, if any; anything
/// else carries nothing.
pub open spec fn link_datagram_of(b: Seq<u8>) -> LinkDatagramView {
    if b.len() >= 7 && b[0] == 1 {
        LinkDatagramView::Register(MacAddr::from_seq(b, 1))
    } else if b.len() > 1 && b[0] == 0 {
        match ethernet_decoding(b.skip(1)) {
            Some((dst, src, ethertype, payload)) => LinkDatagramView::Frame(FrameView { dst, src, ethertype, payload }),
            None => LinkDatagramView::Other,
        }
    } else {
        LinkDatagramView::Other
    }
}

/// A datagram from a peer of the link: a registration, or a datagram tagged as a frame,
/// whether or not its frame decodes. The link learns its peer from such a datagram.
pub open spec fn from_link_peer(b: Seq<u8>) -> bool {
    (b.len() >= 7 && b[0] == 1) || (b.len() > 1 && b[0] == 0)
}

/// Whether a datagram came from a peer of the link.
pub fn is_from_link_peer(bytes: &[u8]) -> (r: bool)
    ensures
        r == from_link_peer(bytes@),
{
    let n = bytes.len();
    (n >= 7 && bytes[0] == 1) || (n > 1 && bytes[0] == 0)
}

/// The datagram that carries `frame`.
pub open spec fn frame_datagram_bytes(f: FrameView) -> Seq<u8> {
    seq![0u8] + ethernet_encoding(f.dst, f.src, f.ethertype, f.payload)
}

/// The datagram that registers `mac`.
pub open spec fn register_datagram_bytes(mac: MacAddr) -> Seq<u8> {
    seq![1u8] + mac.bytes()
}

/// Reads a link datagram.
pub fn parse_link_datagram(bytes: &[u8]) -> (r: LinkDatagram)
    ensures
        r@ == link_datagram_of(bytes@),
{
    let n = bytes.len();
    if n >= 7 && bytes[0] == 1 {
        return LinkDatagram::Register(crate::link::ethernet::read_mac(bytes, 1));
    }
    if n > 1 && bytes[0] == 0 {
        let rest = crate::text::slice_range(bytes, 1, n);
        assert(rest@ =~= bytes@.skip(1));
        return match EthernetFrame::decode(rest) {
            Some(f) => LinkDatagram::Frame(f),
            None => LinkDatagram::Other,
        };
    }
    LinkDatagram::Other
}

/// The datagram that carries `frame`.
pub fn frame_datagram(frame: &EthernetFrame) -> (r: Vec<u8>)
    ensures
        r@ == frame_datagram_bytes(frame@),
{
    let mut out: Vec<u8> = Vec::new();
    out.push(0);
    let bytes = frame.encode();
    crate::bytes::append_bytes(&mut out, bytes.as_slice());
    assert(out@ =~= frame_datagram_bytes(frame@));
    out
}

/// The datagram that registers `mac`.
pub fn register_datagram(mac: MacAddr) -> (r: Vec<u8>)
    ensures
        r@ == register_datagram_bytes(mac),
{
    let mut out: Vec<u8> = Vec::new();
    out.push(1);
    crate::link::ethernet::push_mac(&mut out, mac);
    assert(out@ =~= register_datagram_bytes(mac));
    out
}

/// A registration reads back as the address it registers, and a frame's datagram as the
/// frame.
pub proof fn lemma_link_datagram_roundtrip(mac: MacAddr, f: FrameView)
    ensures
        link_datagram_of(register_datagram_bytes(mac)) == LinkDatagramView::Register(mac),
        link_datagram_of(frame_datagram_bytes(f)) == LinkDatagramView::Frame(f),
{
    let b = register_datagram_bytes(mac);
    assert(MacAddr::from_seq(b, 1) == mac);
    let e = ethernet_encoding(f.dst, f.src, f.ethertype, f.payload);
    let d = frame_datagram_bytes(f);
    assert(d.skip(1) =~= e);
    crate::link::ethernet::lemma_ethernet_decode_encode(f.dst, f.src, f.ethertype, f.payload);
    assert(b.subrange(1, 7) =~= mac.bytes());
    crate::link::ethernet::lemma_mac_from_bytes(mac, b, 1);
}

} // verus!
