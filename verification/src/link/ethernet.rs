//! Ethernet II addressing and framing.
use vstd::prelude::*;

use vstd::string::StringSliceAdditionalSpecFns;

use crate::bytes::{append_bytes, be16, be16_at, copy_range, lemma_be16_roundtrip, push_be16, read_be16};
use crate::text::{ascii_to_string, lemma_graphic_ascii, lemma_graphic_mac, mac_text, parse_mac, parse_mac_text, push_mac_text};

verus! {

/// A 48-bit Ethernet hardware address.
#[derive(Clone, Copy, Debug, PartialEq, Eq, Hash, Structural)]
pub struct MacAddr(pub u8, pub u8, pub u8, pub u8, pub u8, pub u8);

impl MacAddr {
    /// The six octets of the address, most significant first.
    pub open spec fn bytes(self) -> Seq<u8> {
        seq![self.0, self.1, self.2, self.3, self.4, self.5]
    }

    /// The address whose octets are `s[at..at + 6]`.
    pub open spec fn from_seq(s: Seq<u8>, at: int) -> MacAddr {
        MacAddr(s[at], s[at + 1], s[at + 2], s[at + 3], s[at + 4], s[at + 5])
    }

    /// The all-ones broadcast address `ff:ff:ff:ff:ff:ff`.
    pub open spec fn broadcast_spec() -> MacAddr {
        MacAddr(0xff, 0xff, 0xff, 0xff, 0xff, 0xff)
    }

    pub fn broadcast() -> (r: MacAddr)
        ensures
            r == MacAddr::broadcast_spec(),
    {
        MacAddr(0xff, 0xff, 0xff, 0xff, 0xff, 0xff)
    }

    pub fn new(bytes: [u8; 6]) -> (r: MacAddr)
        ensures
            r.bytes() == bytes@,
    {
        let r = MacAddr(bytes[0], bytes[1], bytes[2], bytes[3], bytes[4], bytes[5]);
        assert(r.bytes() =~= bytes@);
        r
    }

    pub fn octets(self) -> (r: [u8; 6])
        ensures
            r@ == self.bytes(),
    {
        let r = [self.0, self.1, self.2, self.3, self.4, self.5];
        assert(r@ =~= self.bytes());
        r
    }

    /// Reads six colon-separated hexadecimal bytes.
    pub fn parse(s: &str) -> (r: Option<MacAddr>)
        ensures
            match parse_mac_text(s.spec_bytes()) {
                Some(o) => r == Some(MacAddr::from_seq(o, 0)),
                None => r is None,
            },
    {
        let b = s.as_bytes();
        assert(b@.subrange(0, b@.len() as int) =~= b@);
        match parse_mac(b, 0, b.len()) {
            Some(o) => {
                let m = MacAddr::new(o);
                assert(m == MacAddr::from_seq(o@, 0));
                Some(m)
            },
            None => None,
        }
    }

    /// The text of the address: six two-digit lowercase hexadecimal bytes separated by colons.
    pub fn to_text(&self) -> (r: String)
        ensures
            r@ == vstd::utf8::decode_utf8(mac_text(self.bytes())),
    {
        let mut out: Vec<u8> = Vec::new();
        push_mac_text(&mut out, self.octets());
        proof {
            lemma_graphic_mac(self.bytes());
            lemma_graphic_ascii(out@);
        }
        ascii_to_string(out)
    }
}

impl std::str::FromStr for MacAddr {
    type Err = &'static str;

    fn from_str(value: &str) -> (r: Result<MacAddr, &'static str>)
        ensures
            match parse_mac_text(value.spec_bytes()) {
                Some(o) => r == Ok::<MacAddr, &'static str>(MacAddr::from_seq(o, 0)),
                None => r matches Err(e) && e@ == "invalid MAC address"@,
            },
    {
        match MacAddr::parse(value) {
            Some(m) => Ok(m),
            None => Err("invalid MAC address"),
        }
    }
}

pub proof fn lemma_mac_from_bytes(m: MacAddr, s: Seq<u8>, at: int)
    requires
        0 <= at,
        at + 6 <= s.len(),
        s.subrange(at, at + 6) == m.bytes(),
    ensures
        MacAddr::from_seq(s, at) == m,
{
    assert(s[at] == s.subrange(at, at + 6)[0]);
    assert(s[at + 1] == s.subrange(at, at + 6)[1]);
    assert(s[at + 2] == s.subrange(at, at + 6)[2]);
    assert(s[at + 3] == s.subrange(at, at + 6)[3]);
    assert(s[at + 4] == s.subrange(at, at + 6)[4]);
    assert(s[at + 5] == s.subrange(at, at + 6)[5]);
}

/// Appends the six octets of `mac`.
pub fn push_mac(out: &mut Vec<u8>, mac: MacAddr)
    ensures
        final(out)@ == old(out)@ + mac.bytes(),
{
    out.push(mac.0);
    out.push(mac.1);
    out.push(mac.2);
    out.push(mac.3);
    out.push(mac.4);
    out.push(mac.5);
    assert(final(out)@ =~= old(out)@ + mac.bytes());
}

/// Reads the address stored at `bytes[at..at + 6]`.
pub fn read_mac(bytes: &[u8], at: usize) -> (r: MacAddr)
    requires
        at + 6 <= bytes@.len(),
    ensures
        r == MacAddr::from_seq(bytes@, at as int),
{
    MacAddr(bytes[at], bytes[at + 1], bytes[at + 2], bytes[at + 3], bytes[at + 4], bytes[at + 5])
}

/// The payload protocols an Ethernet frame can carry here.
#[derive(Clone, Copy, Debug, PartialEq, Eq, Structural)]
pub enum EtherType {
    Arp,
    Ipv4,
}

impl EtherType {
    /// The 16-bit EtherType code on the wire.
    pub open spec fn code(self) -> u16 {
        match self {
            EtherType::Arp => 0x0806,
            EtherType::Ipv4 => 0x0800,
        }
    }

    /// The EtherType with wire code `value`, if any.
    pub open spec fn from_code(value: u16) -> Option<EtherType> {
        if value == 0x0806 {
            Some(EtherType::Arp)
        } else if value == 0x0800 {
            Some(EtherType::Ipv4)
        } else {
            None
        }
    }

    pub fn to_u16(self) -> (r: u16)
        ensures
            r == self.code(),
    {
        match self {
            EtherType::Arp => 0x0806,
            EtherType::Ipv4 => 0x0800,
        }
    }

    pub fn from_u16(value: u16) -> (r: Option<EtherType>)
        ensures
            r == EtherType::from_code(value),
    {
        if value == 0x0806 {
            Some(EtherType::Arp)
        } else if value == 0x0800 {
            Some(EtherType::Ipv4)
        } else {
            None
        }
    }
}

pub proof fn lemma_ethertype_code_roundtrip(t: EtherType)
    ensures
        EtherType::from_code(t.code()) == Some(t),
{
}

/// An Ethernet II frame: destination, source, EtherType and payload.
#[derive(Clone, Debug, PartialEq, Eq)]
pub struct EthernetFrame {
    pub dst: MacAddr,
    pub src: MacAddr,
    pub ethertype: EtherType,
    pub payload: Vec<u8>,
}

/// The value of a frame: its header fields and payload bytes.
pub struct FrameView {
    pub dst: MacAddr,
    pub src: MacAddr,
    pub ethertype: EtherType,
    pub payload: Seq<u8>,
}

impl View for EthernetFrame {
    type V = FrameView;

    open spec fn view(&self) -> FrameView {
        FrameView { dst: self.dst, src: self.src, ethertype: self.ethertype, payload: self.payload@ }
    }
}

/// The wire bytes of a frame: `dst ++ src ++ be16(type) ++ payload`.
pub open spec fn ethernet_encoding(dst: MacAddr, src: MacAddr, ethertype: EtherType, payload: Seq<u8>) -> Seq<u8> {
    dst.bytes() + src.bytes() + be16(ethertype.code()) + payload
}

/// What a frame decodes to: `None` when it is shorter than the 14-byte header or its
/// EtherType code is unknown.
pub open spec fn ethernet_decoding(b: Seq<u8>) -> Option<(MacAddr, MacAddr, EtherType, Seq<u8>)> {
    if b.len() < 14 {
        None
    } else {
        match EtherType::from_code(be16_at(b, 12)) {
            Some(t) => Some((MacAddr::from_seq(b, 0), MacAddr::from_seq(b, 6), t, b.subrange(14, b.len() as int))),
            None => None,
        }
    }
}

impl EthernetFrame {
    pub fn encode(&self) -> (r: Vec<u8>)
        ensures
            r@ == ethernet_encoding(self.dst, self.src, self.ethertype, self.payload@),
    {
        let mut bytes: Vec<u8> = Vec::new();
        push_mac(&mut bytes, self.dst);
        push_mac(&mut bytes, self.src);
        push_be16(&mut bytes, self.ethertype.to_u16());
        append_bytes(&mut bytes, self.payload.as_slice());
        bytes
    }

    /// A copy of this frame.
    pub fn duplicate(&self) -> (r: EthernetFrame)
        ensures
            r@ == self@,
    {
        let payload = copy_range(self.payload.as_slice(), 0, self.payload.len());
        assert(payload@ =~= self.payload@);
        EthernetFrame { dst: self.dst, src: self.src, ethertype: self.ethertype, payload }
    }

    pub fn decode(bytes: &[u8]) -> (r: Option<EthernetFrame>)
        ensures
            match r {
                Some(f) => ethernet_decoding(bytes@) == Some((f.dst, f.src, f.ethertype, f.payload@)),
                None => ethernet_decoding(bytes@) is None,
            },
    {
        if bytes.len() < 14 {
            return None;
        }
        let dst = read_mac(bytes, 0);
        let src = read_mac(bytes, 6);
        let ethertype = match EtherType::from_u16(read_be16(bytes, 12)) {
            Some(t) => t,
            None => return None,
        };
        Some(EthernetFrame { dst, src, ethertype, payload: copy_range(bytes, 14, bytes.len()) })
    }
}

/// Decoding the bytes of an encoded frame gives back that frame.
pub proof fn lemma_ethernet_decode_encode(dst: MacAddr, src: MacAddr, ethertype: EtherType, payload: Seq<u8>)
    ensures
        ethernet_decoding(ethernet_encoding(dst, src, ethertype, payload)) == Some((dst, src, ethertype, payload)),
{
    let b = ethernet_encoding(dst, src, ethertype, payload);
    lemma_be16_roundtrip(ethertype.code());
    assert(b.subrange(0, 6) =~= dst.bytes());
    assert(b.subrange(6, 12) =~= src.bytes());
    lemma_mac_from_bytes(dst, b, 0);
    lemma_mac_from_bytes(src, b, 6);
    assert(b[12] == be16(ethertype.code())[0]);
    assert(b[13] == be16(ethertype.code())[1]);
    assert(b.subrange(14, b.len() as int) =~= payload);
}

/// A frame that decodes is exactly the encoding of what it decodes to.
pub proof fn lemma_ethernet_encode_decode(b: Seq<u8>)
    requires
        ethernet_decoding(b) is Some,
    ensures
        ({
            let (dst, src, t, payload) = ethernet_decoding(b)->0;
            ethernet_encoding(dst, src, t, payload) == b
        }),
{
    let (dst, src, t, payload) = ethernet_decoding(b)->0;
    let e = ethernet_encoding(dst, src, t, payload);
    assert(be16(t.code()) =~= b.subrange(12, 14)) by {
        let v = be16_at(b, 12);
        assert(v == t.code());
        assert(b[12] * 256 + b[13] < 65536) by (nonlinear_arith)
            requires b[12] < 256, b[13] < 256;
    }
    assert(e =~= b);
}

} // verus!
