//! IPv4 addresses and IPv4 socket addresses as plain values.
use vstd::prelude::*;

use vstd::string::StringSliceAdditionalSpecFns;

use crate::text::{
    all_digits, ascii_to_string, decimal_text, digits_value, find_bytes, find_from, ipv4_text, is_digit, lemma_decimal_text, lemma_find_at, lemma_find_from, lemma_octet_text, lemma_parse_ipv4_text,
    lemma_graphic_ascii, lemma_graphic_concat, lemma_graphic_decimal, lemma_graphic_ipv4, parse_ipv4, parse_ipv4_text,
    parse_uint, parse_uint_text, push_decimal, push_ipv4_text, strip_plus,
};
use crate::vec_map::KeyEq;

verus! {

/// An IPv4 address held as its four octets, most significant first.
#[derive(Clone, Copy, Debug, PartialEq, Eq, Hash, Structural)]
pub struct Ipv4Addr(pub u8, pub u8, pub u8, pub u8);

impl Ipv4Addr {
    /// The four octets, most significant first.
    pub open spec fn bytes(self) -> Seq<u8> {
        seq![self.0, self.1, self.2, self.3]
    }

    /// The address as a 32-bit number.
    pub open spec fn bits(self) -> u32 {
        (self.0 * 0x100_0000 + self.1 * 0x1_0000 + self.2 * 256 + self.3) as u32
    }

    /// The address whose 32-bit number is `v`.
    pub open spec fn from_bits(v: u32) -> Ipv4Addr {
        Ipv4Addr((v / 0x100_0000) as u8, ((v / 0x1_0000) % 256) as u8, ((v / 256) % 256) as u8, (v % 256) as u8)
    }

    /// The address whose octets are `s[at..at + 4]`.
    pub open spec fn from_seq(s: Seq<u8>, at: int) -> Ipv4Addr {
        Ipv4Addr(s[at], s[at + 1], s[at + 2], s[at + 3])
    }

    /// The limited broadcast address `255.255.255.255`.
    pub open spec fn broadcast_spec() -> Ipv4Addr {
        Ipv4Addr(255, 255, 255, 255)
    }

    /// The address `self` with the bits of `mask` kept, octet by octet.
    pub open spec fn masked_by(self, mask: Ipv4Addr) -> Ipv4Addr {
        Ipv4Addr(self.0 & mask.0, self.1 & mask.1, self.2 & mask.2, self.3 & mask.3)
    }

    pub fn new(a: u8, b: u8, c: u8, d: u8) -> (r: Ipv4Addr)
        ensures
            r == Ipv4Addr(a, b, c, d),
    {
        Ipv4Addr(a, b, c, d)
    }

    pub fn broadcast() -> (r: Ipv4Addr)
        ensures
            r == Ipv4Addr::broadcast_spec(),
    {
        Ipv4Addr(255, 255, 255, 255)
    }

    pub fn unspecified() -> (r: Ipv4Addr)
        ensures
            r == Ipv4Addr(0, 0, 0, 0),
    {
        Ipv4Addr(0, 0, 0, 0)
    }

    pub fn octets(self) -> (r: [u8; 4])
        ensures
            r@ == self.bytes(),
    {
        let r = [self.0, self.1, self.2, self.3];
        assert(r@ =~= self.bytes());
        r
    }

    pub fn to_u32(self) -> (r: u32)
        ensures
            r == self.bits(),
    {
        (self.0 as u32) * 0x100_0000 + (self.1 as u32) * 0x1_0000 + (self.2 as u32) * 256 + (self.3 as u32)
    }

    pub fn from_u32(v: u32) -> (r: Ipv4Addr)
        ensures
            r == Ipv4Addr::from_bits(v),
            r.bits() == v,
    {
        let r = Ipv4Addr((v / 0x100_0000) as u8, ((v / 0x1_0000) % 256) as u8, ((v / 256) % 256) as u8, (v % 256) as u8);
        r
    }

    pub fn masked(self, mask: Ipv4Addr) -> (r: Ipv4Addr)
        ensures
            r == self.masked_by(mask),
    {
        Ipv4Addr(self.0 & mask.0, self.1 & mask.1, self.2 & mask.2, self.3 & mask.3)
    }
}

/// The address written in dotted decimal in `t`, as Rust's address parser reads it.
pub open spec fn ipv4_of(t: Seq<u8>) -> Option<Ipv4Addr> {
    match parse_ipv4_text(t) {
        Some((a, b, c, d)) => Some(Ipv4Addr(a, b, c, d)),
        None => None,
    }
}

/// A port as Rust's socket-address parser reads it: one or more decimal digits, a value
/// below 65536.
pub open spec fn port_of(t: Seq<u8>) -> Option<u16> {
    if t.len() > 0 && all_digits(t) && digits_value(t) <= 65535 {
        Some(digits_value(t) as u16)
    } else {
        None
    }
}

/// A socket address `a.b.c.d:port`, as Rust's socket-address parser reads an IPv4 one:
/// the address before the first `:`, the port after it.
pub open spec fn socket_of(t: Seq<u8>) -> Option<SocketAddrV4> {
    match find_from(t, seq![58u8], 0) {
        None => None,
        Some(i) => match (ipv4_of(t.take(i as int)), port_of(t.skip((i + 1) as int))) {
            (Some(ip), Some(port)) => Some(SocketAddrV4 { ip, port }),
            _ => None,
        },
    }
}

/// A `u16` as Rust's integer parser reads it: an optional `+`, then decimal digits.
pub open spec fn u16_of(t: Seq<u8>) -> Option<u16> {
    match parse_uint_text(t, 65535) {
        Some(v) => Some(v as u16),
        None => None,
    }
}

/// Reads `s` as a `u16`.
pub fn parse_u16(s: &str) -> (r: Option<u16>)
    ensures
        r == u16_of(s.spec_bytes()),
{
    let b = s.as_bytes();
    assert(b@.subrange(0, b@.len() as int) =~= b@);
    match parse_uint(b, 0, b.len(), 65535) {
        Some(v) => Some(v as u16),
        None => None,
    }
}

impl Ipv4Addr {
    /// Reads a dotted-decimal address.
    pub fn parse(s: &str) -> (r: Option<Ipv4Addr>)
        ensures
            r == ipv4_of(s.spec_bytes()),
    {
        let b = s.as_bytes();
        assert(b@.subrange(0, b@.len() as int) =~= b@);
        match parse_ipv4(b, 0, b.len()) {
            Some((a, c, d, e)) => Some(Ipv4Addr(a, c, d, e)),
            None => None,
        }
    }

    /// The dotted-decimal text of the address.
    pub fn to_text(&self) -> (r: String)
        ensures
            r@ == vstd::utf8::decode_utf8(ipv4_text(self.0, self.1, self.2, self.3)),
    {
        let mut out: Vec<u8> = Vec::new();
        push_ipv4_text(&mut out, self.0, self.1, self.2, self.3);
        proof {
            lemma_graphic_ipv4(self.0, self.1, self.2, self.3);
            lemma_graphic_ascii(out@);
        }
        ascii_to_string(out)
    }
}

impl KeyEq for Ipv4Addr {
    fn key_eq(&self, other: &Self) -> (r: bool) {
        *self == *other
    }
}

/// Distinct addresses have distinct numbers, and every number names an address.
pub proof fn lemma_ipv4_bits_roundtrip(ip: Ipv4Addr, v: u32)
    ensures
        Ipv4Addr::from_bits(ip.bits()) == ip,
        Ipv4Addr::from_bits(v).bits() == v,
{
    let (a, b, c, d) = (ip.0 as int, ip.1 as int, ip.2 as int, ip.3 as int);
    let n = a * 0x100_0000 + b * 0x1_0000 + c * 256 + d;
    assert(n / 0x100_0000 == a && (n / 0x1_0000) % 256 == b && (n / 256) % 256 == c && n % 256 == d)
        by (nonlinear_arith)
        requires 0 <= a < 256, 0 <= b < 256, 0 <= c < 256, 0 <= d < 256, n == a * 0x100_0000 + b * 0x1_0000 + c * 256 + d;
    assert(0 <= n < 0x1_0000_0000) by (nonlinear_arith)
        requires 0 <= a < 256, 0 <= b < 256, 0 <= c < 256, 0 <= d < 256, n == a * 0x100_0000 + b * 0x1_0000 + c * 256 + d;
    let x = v as int;
    assert((x / 0x100_0000) * 0x100_0000 + ((x / 0x1_0000) % 256) * 0x1_0000 + ((x / 256) % 256) * 256 + x % 256 == x
        && x / 0x100_0000 < 256)
        by (nonlinear_arith)
        requires 0 <= x < 0x1_0000_0000;
}

pub proof fn lemma_ipv4_from_bytes(ip: Ipv4Addr, s: Seq<u8>, at: int)
    requires
        0 <= at,
        at + 4 <= s.len(),
        s.subrange(at, at + 4) == ip.bytes(),
    ensures
        Ipv4Addr::from_seq(s, at) == ip,
{
    assert(s[at] == s.subrange(at, at + 4)[0]);
    assert(s[at + 1] == s.subrange(at, at + 4)[1]);
    assert(s[at + 2] == s.subrange(at, at + 4)[2]);
    assert(s[at + 3] == s.subrange(at, at + 4)[3]);
}

/// Appends the four octets of `ip`.
pub fn push_ipv4(out: &mut Vec<u8>, ip: Ipv4Addr)
    ensures
        final(out)@ == old(out)@ + ip.bytes(),
{
    out.push(ip.0);
    out.push(ip.1);
    out.push(ip.2);
    out.push(ip.3);
    assert(final(out)@ =~= old(out)@ + ip.bytes());
}

/// Reads the address stored at `bytes[at..at + 4]`.
pub fn read_ipv4(bytes: &[u8], at: usize) -> (r: Ipv4Addr)
    requires
        at + 4 <= bytes@.len(),
    ensures
        r == Ipv4Addr::from_seq(bytes@, at as int),
{
    Ipv4Addr(bytes[at], bytes[at + 1], bytes[at + 2], bytes[at + 3])
}

/// An IPv4 address together with a port number.
#[derive(Clone, Copy, Debug, PartialEq, Eq, Hash, Structural)]
pub struct SocketAddrV4 {
    pub ip: Ipv4Addr,
    pub port: u16,
}

impl KeyEq for SocketAddrV4 {
    fn key_eq(&self, other: &Self) -> (r: bool) {
        *self == *other
    }
}

impl SocketAddrV4 {
    pub fn new(ip: Ipv4Addr, port: u16) -> (r: SocketAddrV4)
        ensures
            r.ip == ip,
            r.port == port,
    {
        SocketAddrV4 { ip, port }
    }

    pub fn ip(&self) -> (r: &Ipv4Addr)
        ensures
            *r == self.ip,
    {
        &self.ip
    }

    pub fn port(&self) -> (r: u16)
        ensures
            r == self.port,
    {
        self.port
    }

    /// Reads a socket address `a.b.c.d:port`.
    pub fn parse(s: &str) -> (r: Option<SocketAddrV4>)
        ensures
            r == socket_of(s.spec_bytes()),
    {
        SocketAddrV4::parse_bytes(s.as_bytes())
    }

    /// Reads a socket address `a.b.c.d:port` from its bytes.
    pub fn parse_bytes(b: &[u8]) -> (r: Option<SocketAddrV4>)
        ensures
            r == socket_of(b@),
    {
        let colon = [58u8];
        assert(colon@ =~= seq![58u8]);
        let at = match find_bytes(b, &colon) {
            Some(i) => i,
            None => return None,
        };
        proof {
            lemma_find_from(b@, seq![58u8], 0);
        }
        let n = b.len();
        assert(b@.subrange(0, at as int) =~= b@.take(at as int));
        assert(b@.subrange(at + 1, n as int) =~= b@.skip(at + 1));
        let ip = match parse_ipv4(b, 0, at) {
            Some((p, q, u, v)) => Ipv4Addr(p, q, u, v),
            None => return None,
        };
        if at + 1 < n && b[at + 1] == 43 {
            assert(!all_digits(b@.skip(at + 1))) by {
                assert(b@.skip(at + 1)[0] == 43);
            }
            return None;
        }
        let port = match parse_uint(b, at + 1, n, 65535) {
            Some(p) => p as u16,
            None => return None,
        };
        assert(strip_plus(b@.skip(at + 1)) == b@.skip(at + 1));
        Some(SocketAddrV4 { ip, port })
    }

    /// The text `a.b.c.d:port` of this address.
    pub fn to_text(&self) -> (r: String)
        ensures
            r@ == vstd::utf8::decode_utf8(socket_text(*self)),
    {
        let bytes = self.text_bytes();
        proof {
            lemma_graphic_socket(*self);
            lemma_graphic_ascii(bytes@);
        }
        ascii_to_string(bytes)
    }

    /// The text `a.b.c.d:port` of this address, as bytes.
    pub fn text_bytes(&self) -> (r: Vec<u8>)
        ensures
            r@ == socket_text(*self),
    {
        let mut out: Vec<u8> = Vec::new();
        push_ipv4_text(&mut out, self.ip.0, self.ip.1, self.ip.2, self.ip.3);
        out.push(58);
        push_decimal(&mut out, self.port as u64);
        assert(out@ =~= socket_text(*self));
        out
    }
}

/// The text of a socket address is graphic ASCII.
pub proof fn lemma_graphic_socket(a: SocketAddrV4)
    ensures
        crate::text::all_graphic(socket_text(a)),
{
    lemma_graphic_ipv4(a.ip.0, a.ip.1, a.ip.2, a.ip.3);
    lemma_graphic_decimal(a.port as nat);
    assert(crate::text::all_graphic(seq![58u8]));
    lemma_graphic_concat(ipv4_text(a.ip.0, a.ip.1, a.ip.2, a.ip.3), seq![58u8]);
    lemma_graphic_concat(ipv4_text(a.ip.0, a.ip.1, a.ip.2, a.ip.3) + seq![58u8], decimal_text(a.port as nat));
}

/// The text of a socket address: the dotted-decimal address, `:`, the decimal port.
pub open spec fn socket_text(a: SocketAddrV4) -> Seq<u8> {
    ipv4_text(a.ip.0, a.ip.1, a.ip.2, a.ip.3) + seq![58u8] + decimal_text(a.port as nat)
}

/// The bytes of the text of an address are digits and dots.
pub(crate) proof fn lemma_ipv4_text_bytes(ip: Ipv4Addr)
    ensures
        forall|j: int| 0 <= j < ipv4_text(ip.0, ip.1, ip.2, ip.3).len() ==> {
            let c = #[trigger] ipv4_text(ip.0, ip.1, ip.2, ip.3)[j];
            is_digit(c) || c == 46
        },
        ipv4_text(ip.0, ip.1, ip.2, ip.3).len() > 0,
        is_digit(ipv4_text(ip.0, ip.1, ip.2, ip.3)[0]),
{
    lemma_octet_text(ip.0);
    lemma_octet_text(ip.1);
    lemma_octet_text(ip.2);
    lemma_octet_text(ip.3);
    lemma_decimal_text(ip.0 as nat);
    let (d0, d1, d2, d3) = (decimal_text(ip.0 as nat), decimal_text(ip.1 as nat), decimal_text(ip.2 as nat), decimal_text(ip.3 as nat));
    let t = ipv4_text(ip.0, ip.1, ip.2, ip.3);
    assert forall|j: int| 0 <= j < t.len() implies ({
        let c = #[trigger] t[j];
        is_digit(c) || c == 46
    }) by {
        let l0 = d0.len() as int;
        let l1 = d1.len() as int;
        let l2 = d2.len() as int;
        if j < l0 {
            assert(t[j] == d0[j]);
        } else if j == l0 {
        } else if j < l0 + 1 + l1 {
            assert(t[j] == d1[j - l0 - 1]);
        } else if j == l0 + 1 + l1 {
        } else if j < l0 + 2 + l1 + l2 {
            assert(t[j] == d2[j - l0 - 2 - l1]);
        } else if j == l0 + 2 + l1 + l2 {
        } else {
            assert(t[j] == d3[j - l0 - 3 - l1 - l2]);
        }
    }
    assert(t[0] == d0[0]);
}

/// Reading the text of a socket address gives the address back.
pub proof fn lemma_socket_text_roundtrip(a: SocketAddrV4)
    ensures
        socket_of(socket_text(a)) == Some(a),
{
    let it = ipv4_text(a.ip.0, a.ip.1, a.ip.2, a.ip.3);
    let dp = decimal_text(a.port as nat);
    let t = socket_text(a);
    let colon = seq![58u8];
    lemma_ipv4_text_bytes(a.ip);
    assert forall|j: int| 0 <= j < it.len() implies #[trigger] t.subrange(j, j + colon.len()) != colon by {
        assert(t.subrange(j, j + 1)[0] == t[j]);
        assert(t[j] == it[j]);
    }
    assert(t.subrange(it.len() as int, it.len() + 1 as int) =~= colon);
    lemma_find_at(t, colon, it.len());
    assert(t.take(it.len() as int) =~= it);
    assert(t.skip(it.len() + 1 as int) =~= dp);
    lemma_parse_ipv4_text(a.ip.0, a.ip.1, a.ip.2, a.ip.3);
    lemma_decimal_text(a.port as nat);
}

} // verus!
