//! The DHCP messages of this stack, as one line of text each.
use vstd::prelude::*;

use crate::internet::addr::Ipv4Addr;
use crate::link::ethernet::MacAddr;
use crate::text::{
    all_graphic, append_lit, decimal_text, ipv4_text, lemma_ascii_valid_utf8, lemma_decimal_text, lemma_parse_decimal_text,
    lemma_parse_ipv4_text, lemma_parse_mac_text, lemma_tokens_word, mac_text, parse_ipv4, parse_ipv4_text, parse_mac,
    parse_mac_text, parse_uint, parse_uint_text, push_decimal, range_is, push_ipv4_text, push_mac_text, token_ranges, tokens,
    utf8_is_valid, lemma_graphic_decimal, lemma_graphic_ipv4, lemma_graphic_mac, joined, lemma_tokens_joined, lemma_words_ascii,
};

verus! {

pub const DHCP_SERVER_PORT: u16 = 67;
pub const DHCP_CLIENT_PORT: u16 = 68;
pub const DEFAULT_LEASE_SECONDS: u64 = 60;

/// A DHCP message.
#[derive(Clone, Copy, Debug, PartialEq, Eq, Structural)]
pub enum DhcpMessage {
    Discover { client_mac: MacAddr },
    Offer { client_mac: MacAddr, offered_ip: Ipv4Addr, lease_seconds: u64, gateway_ip: Ipv4Addr },
    Request { client_mac: MacAddr, requested_ip: Ipv4Addr },
    Ack { client_mac: MacAddr, assigned_ip: Ipv4Addr, lease_seconds: u64, gateway_ip: Ipv4Addr },
    Release { client_mac: MacAddr, released_ip: Ipv4Addr },
}

/// `DISCOVER`
pub open spec fn kw_discover() -> Seq<u8> {
    seq![68u8, 73, 83, 67, 79, 86, 69, 82]
}

/// `OFFER`
pub open spec fn kw_offer() -> Seq<u8> {
    seq![79u8, 70, 70, 69, 82]
}

/// `REQUEST`
pub open spec fn kw_request() -> Seq<u8> {
    seq![82u8, 69, 81, 85, 69, 83, 84]
}

/// `ACK`
pub open spec fn kw_ack() -> Seq<u8> {
    seq![65u8, 67, 75]
}

/// `RELEASE`
pub open spec fn kw_release() -> Seq<u8> {
    seq![82u8, 69, 76, 69, 65, 83, 69]
}

pub open spec fn sp() -> Seq<u8> {
    seq![32u8]
}

pub open spec fn nl() -> Seq<u8> {
    seq![10u8]
}

pub open spec fn ip_words(ip: Ipv4Addr) -> Seq<u8> {
    ipv4_text(ip.0, ip.1, ip.2, ip.3)
}

pub open spec fn mac_words(mac: MacAddr) -> Seq<u8> {
    mac_text(mac.bytes())
}

/// The line a message is written as: its kind in capitals, then its fields separated by
/// single spaces (hardware address in colon-separated lowercase hex, IPv4 addresses in
/// dotted decimal, the lease in decimal seconds), then a newline.
pub open spec fn dhcp_encoding(m: DhcpMessage) -> Seq<u8> {
    match m {
        DhcpMessage::Discover { client_mac } => kw_discover() + sp() + mac_words(client_mac) + nl(),
        DhcpMessage::Offer { client_mac, offered_ip, lease_seconds, gateway_ip } => kw_offer() + sp() + mac_words(client_mac)
            + sp() + ip_words(offered_ip) + sp() + decimal_text(lease_seconds as nat) + sp() + ip_words(gateway_ip) + nl(),
        DhcpMessage::Request { client_mac, requested_ip } => kw_request() + sp() + mac_words(client_mac) + sp()
            + ip_words(requested_ip) + nl(),
        DhcpMessage::Ack { client_mac, assigned_ip, lease_seconds, gateway_ip } => kw_ack() + sp() + mac_words(client_mac)
            + sp() + ip_words(assigned_ip) + sp() + decimal_text(lease_seconds as nat) + sp() + ip_words(gateway_ip) + nl(),
        DhcpMessage::Release { client_mac, released_ip } => kw_release() + sp() + mac_words(client_mac) + sp()
            + ip_words(released_ip) + nl(),
    }
}

pub open spec fn ip_of(t: Seq<u8>) -> Option<Ipv4Addr> {
    match parse_ipv4_text(t) {
        Some((a, b, c, d)) => Some(Ipv4Addr(a, b, c, d)),
        None => None,
    }
}

pub open spec fn u64_of(t: Seq<u8>) -> Option<u64> {
    match parse_uint_text(t, u64::MAX as nat) {
        Some(v) => Some(v as u64),
        None => None,
    }
}

/// What a line decodes to: the bytes must be UTF-8; its whitespace-separated words are the
/// kind, the hardware address, then the fields the kind takes; extra words are ignored.
/// `None` when the kind is unknown, a word is missing or a field does not parse.
pub open spec fn dhcp_decoding(b: Seq<u8>) -> Option<DhcpMessage> {
    let t = tokens(b);
    if !vstd::utf8::valid_utf8(b) || t.len() < 2 {
        None
    } else {
        match parse_mac_text(t[1]) {
            None => None,
            Some(o) => {
                let mac = MacAddr::from_seq(o, 0);
                if t[0] == kw_discover() {
                    Some(DhcpMessage::Discover { client_mac: mac })
                } else if t[0] == kw_offer() {
                    if t.len() >= 5 && ip_of(t[2]) is Some && u64_of(t[3]) is Some && ip_of(t[4]) is Some {
                        Some(DhcpMessage::Offer { client_mac: mac, offered_ip: ip_of(t[2])->0, lease_seconds: u64_of(t[3])->0, gateway_ip: ip_of(t[4])->0 })
                    } else {
                        None
                    }
                } else if t[0] == kw_request() {
                    if t.len() >= 3 && ip_of(t[2]) is Some {
                        Some(DhcpMessage::Request { client_mac: mac, requested_ip: ip_of(t[2])->0 })
                    } else {
                        None
                    }
                } else if t[0] == kw_ack() {
                    if t.len() >= 5 && ip_of(t[2]) is Some && u64_of(t[3]) is Some && ip_of(t[4]) is Some {
                        Some(DhcpMessage::Ack { client_mac: mac, assigned_ip: ip_of(t[2])->0, lease_seconds: u64_of(t[3])->0, gateway_ip: ip_of(t[4])->0 })
                    } else {
                        None
                    }
                } else if t[0] == kw_release() {
                    if t.len() >= 3 && ip_of(t[2]) is Some {
                        Some(DhcpMessage::Release { client_mac: mac, released_ip: ip_of(t[2])->0 })
                    } else {
                        None
                    }
                } else {
                    None
                }
            },
        }
    }
}

fn push_ip_words(out: &mut Vec<u8>, ip: Ipv4Addr)
    ensures
        final(out)@ == old(out)@ + ip_words(ip),
{
    push_ipv4_text(out, ip.0, ip.1, ip.2, ip.3);
}

fn push_mac_words(out: &mut Vec<u8>, mac: MacAddr)
    ensures
        final(out)@ == old(out)@ + mac_words(mac),
{
    push_mac_text(out, mac.octets());
}

fn ip_at(b: &[u8], r: (usize, usize)) -> (res: Option<Ipv4Addr>)
    requires
        r.0 <= r.1 <= b@.len(),
    ensures
        res == ip_of(b@.subrange(r.0 as int, r.1 as int)),
{
    match parse_ipv4(b, r.0, r.1) {
        Some((p, q, s, t)) => Some(Ipv4Addr(p, q, s, t)),
        None => None,
    }
}

fn u64_at(b: &[u8], r: (usize, usize)) -> (res: Option<u64>)
    requires
        r.0 <= r.1 <= b@.len(),
    ensures
        res == u64_of(b@.subrange(r.0 as int, r.1 as int)),
{
    parse_uint(b, r.0, r.1, u64::MAX)
}

impl DhcpMessage {
    pub fn encode(&self) -> (r: Vec<u8>)
        ensures
            r@ == dhcp_encoding(*self),
    {
        let mut out: Vec<u8> = Vec::new();
        match *self {
            DhcpMessage::Discover { client_mac } => {
                append_lit(&mut out, &[68, 73, 83, 67, 79, 86, 69, 82]);
                out.push(32);
                push_mac_words(&mut out, client_mac);
            },
            DhcpMessage::Offer { client_mac, offered_ip, lease_seconds, gateway_ip } => {
                append_lit(&mut out, &[79, 70, 70, 69, 82]);
                out.push(32);
                push_mac_words(&mut out, client_mac);
                out.push(32);
                push_ip_words(&mut out, offered_ip);
                out.push(32);
                push_decimal(&mut out, lease_seconds);
                out.push(32);
                push_ip_words(&mut out, gateway_ip);
            },
            DhcpMessage::Request { client_mac, requested_ip } => {
                append_lit(&mut out, &[82, 69, 81, 85, 69, 83, 84]);
                out.push(32);
                push_mac_words(&mut out, client_mac);
                out.push(32);
                push_ip_words(&mut out, requested_ip);
            },
            DhcpMessage::Ack { client_mac, assigned_ip, lease_seconds, gateway_ip } => {
                append_lit(&mut out, &[65, 67, 75]);
                out.push(32);
                push_mac_words(&mut out, client_mac);
                out.push(32);
                push_ip_words(&mut out, assigned_ip);
                out.push(32);
                push_decimal(&mut out, lease_seconds);
                out.push(32);
                push_ip_words(&mut out, gateway_ip);
            },
            DhcpMessage::Release { client_mac, released_ip } => {
                append_lit(&mut out, &[82, 69, 76, 69, 65, 83, 69]);
                out.push(32);
                push_mac_words(&mut out, client_mac);
                out.push(32);
                push_ip_words(&mut out, released_ip);
            },
        }
        out.push(10);
        assert(out@ =~= dhcp_encoding(*self));
        out
    }

    pub fn decode(bytes: &[u8]) -> (r: Option<DhcpMessage>)
        ensures
            r == dhcp_decoding(bytes@),
    {
        if !utf8_is_valid(bytes) {
            return None;
        }
        let t = token_ranges(bytes);
        if t.len() < 2 {
            return None;
        }
        let o = match parse_mac(bytes, t[1].0, t[1].1) {
            Some(o) => o,
            None => return None,
        };
        let mac = MacAddr::new(o);
        proof {
            assert(o@ == mac.bytes());
        }
        let kind = t[0];
        if range_is(bytes, kind, &[68, 73, 83, 67, 79, 86, 69, 82]) {
            Some(DhcpMessage::Discover { client_mac: mac })
        } else if range_is(bytes, kind, &[79, 70, 70, 69, 82]) {
            if t.len() < 5 {
                return None;
            }
            match (ip_at(bytes, t[2]), u64_at(bytes, t[3]), ip_at(bytes, t[4])) {
                (Some(offered_ip), Some(lease_seconds), Some(gateway_ip)) => Some(DhcpMessage::Offer { client_mac: mac, offered_ip, lease_seconds, gateway_ip }),
                _ => None,
            }
        } else if range_is(bytes, kind, &[82, 69, 81, 85, 69, 83, 84]) {
            if t.len() < 3 {
                return None;
            }
            match ip_at(bytes, t[2]) {
                Some(requested_ip) => Some(DhcpMessage::Request { client_mac: mac, requested_ip }),
                None => None,
            }
        } else if range_is(bytes, kind, &[65, 67, 75]) {
            if t.len() < 5 {
                return None;
            }
            match (ip_at(bytes, t[2]), u64_at(bytes, t[3]), ip_at(bytes, t[4])) {
                (Some(assigned_ip), Some(lease_seconds), Some(gateway_ip)) => Some(DhcpMessage::Ack { client_mac: mac, assigned_ip, lease_seconds, gateway_ip }),
                _ => None,
            }
        } else if range_is(bytes, kind, &[82, 69, 76, 69, 65, 83, 69]) {
            if t.len() < 3 {
                return None;
            }
            match ip_at(bytes, t[2]) {
                Some(released_ip) => Some(DhcpMessage::Release { client_mac: mac, released_ip }),
                None => None,
            }
        } else {
            None
        }
    }
}

/// The words and separators a message is written with.
pub open spec fn dhcp_words(m: DhcpMessage) -> (Seq<Seq<u8>>, Seq<u8>) {
    match m {
        DhcpMessage::Discover { client_mac } => (seq![kw_discover(), mac_words(client_mac)], seq![32u8, 10]),
        DhcpMessage::Offer { client_mac, offered_ip, lease_seconds, gateway_ip } => (
            seq![kw_offer(), mac_words(client_mac), ip_words(offered_ip), decimal_text(lease_seconds as nat), ip_words(gateway_ip)],
            seq![32u8, 32, 32, 32, 10],
        ),
        DhcpMessage::Request { client_mac, requested_ip } => (seq![kw_request(), mac_words(client_mac), ip_words(requested_ip)], seq![32u8, 32, 10]),
        DhcpMessage::Ack { client_mac, assigned_ip, lease_seconds, gateway_ip } => (
            seq![kw_ack(), mac_words(client_mac), ip_words(assigned_ip), decimal_text(lease_seconds as nat), ip_words(gateway_ip)],
            seq![32u8, 32, 32, 32, 10],
        ),
        DhcpMessage::Release { client_mac, released_ip } => (seq![kw_release(), mac_words(client_mac), ip_words(released_ip)], seq![32u8, 32, 10]),
    }
}

proof fn lemma_joined_2(w: Seq<Seq<u8>>, s: Seq<u8>)
    requires w.len() == 2, s.len() == 2,
    ensures joined(w, s) == w[0] + seq![s[0]] + w[1] + seq![s[1]],
{
    reveal_with_fuel(joined, 3);
    assert(w.drop_last().drop_last() =~= Seq::<Seq<u8>>::empty());
    assert(joined(w.drop_last(), s.drop_last()) =~= w[0] + seq![s[0]]);
}

proof fn lemma_joined_3(w: Seq<Seq<u8>>, s: Seq<u8>)
    requires w.len() == 3, s.len() == 3,
    ensures joined(w, s) == w[0] + seq![s[0]] + w[1] + seq![s[1]] + w[2] + seq![s[2]],
{
    lemma_joined_2(w.drop_last(), s.drop_last());
}

proof fn lemma_joined_5(w: Seq<Seq<u8>>, s: Seq<u8>)
    requires w.len() == 5, s.len() == 5,
    ensures joined(w, s) == w[0] + seq![s[0]] + w[1] + seq![s[1]] + w[2] + seq![s[2]] + w[3] + seq![s[3]] + w[4] + seq![s[4]],
{
    lemma_joined_3(w.drop_last().drop_last(), s.drop_last().drop_last());
    assert(w.drop_last().drop_last().drop_last() =~= w.subrange(0, 2));
    let w4 = w.drop_last();
    let s4 = s.drop_last();
    assert(joined(w4, s4) == joined(w4.drop_last(), s4.drop_last()) + w4.last() + seq![s4.last()]);
}

proof fn lemma_keywords_distinct()
    ensures
        kw_discover() != kw_offer(),
        kw_discover() != kw_request(),
        kw_discover() != kw_ack(),
        kw_discover() != kw_release(),
        kw_offer() != kw_request(),
        kw_offer() != kw_ack(),
        kw_offer() != kw_release(),
        kw_request() != kw_ack(),
        kw_request() != kw_release(),
        kw_ack() != kw_release(),
        all_graphic(kw_discover()),
        all_graphic(kw_offer()),
        all_graphic(kw_request()),
        all_graphic(kw_ack()),
        all_graphic(kw_release()),
{
    assert(kw_discover().len() != kw_offer().len());
    assert(kw_discover()[1] != kw_request()[1]);
    assert(kw_discover().len() != kw_ack().len());
    assert(kw_discover()[0] != kw_release()[0]);
    assert(kw_offer()[0] != kw_request()[0]);
    assert(kw_offer().len() != kw_ack().len());
    assert(kw_offer()[0] != kw_release()[0]);
    assert(kw_request().len() != kw_ack().len());
    assert(kw_request()[2] != kw_release()[2]);
    assert(kw_ack().len() != kw_release().len());
    assert forall|i: int| 0 <= i < kw_discover().len() implies crate::text::is_graphic(#[trigger] kw_discover()[i]) by {}
    assert forall|i: int| 0 <= i < kw_offer().len() implies crate::text::is_graphic(#[trigger] kw_offer()[i]) by {}
    assert forall|i: int| 0 <= i < kw_request().len() implies crate::text::is_graphic(#[trigger] kw_request()[i]) by {}
    assert forall|i: int| 0 <= i < kw_ack().len() implies crate::text::is_graphic(#[trigger] kw_ack()[i]) by {}
    assert forall|i: int| 0 <= i < kw_release().len() implies crate::text::is_graphic(#[trigger] kw_release()[i]) by {}
}

/// The line of `m` is UTF-8 and its words are the words of `m`.
#[verifier::spinoff_prover]
#[verifier::rlimit(40)]
proof fn lemma_dhcp_line(m: DhcpMessage)
    ensures
        vstd::utf8::valid_utf8(dhcp_encoding(m)),
        tokens(dhcp_encoding(m)) == dhcp_words(m).0,
{
    let b = dhcp_encoding(m);
    let (w, s) = dhcp_words(m);
    let mac = match m {
        DhcpMessage::Discover { client_mac } => client_mac,
        DhcpMessage::Offer { client_mac, .. } => client_mac,
        DhcpMessage::Request { client_mac, .. } => client_mac,
        DhcpMessage::Ack { client_mac, .. } => client_mac,
        DhcpMessage::Release { client_mac, .. } => client_mac,
    };
    lemma_graphic_mac(mac.bytes());
    lemma_keywords_distinct();
    match m {
        DhcpMessage::Discover { client_mac } => {
            lemma_joined_2(w, s);
            assert(b =~= joined(w, s));
        },
        DhcpMessage::Offer { client_mac, offered_ip, lease_seconds, gateway_ip } => {
            lemma_graphic_ipv4(offered_ip.0, offered_ip.1, offered_ip.2, offered_ip.3);
            lemma_graphic_ipv4(gateway_ip.0, gateway_ip.1, gateway_ip.2, gateway_ip.3);
            lemma_graphic_decimal(lease_seconds as nat);
            lemma_joined_5(w, s);
            assert(b =~= joined(w, s));
        },
        DhcpMessage::Request { client_mac, requested_ip } => {
            lemma_graphic_ipv4(requested_ip.0, requested_ip.1, requested_ip.2, requested_ip.3);
            lemma_joined_3(w, s);
            assert(b =~= joined(w, s));
        },
        DhcpMessage::Ack { client_mac, assigned_ip, lease_seconds, gateway_ip } => {
            lemma_graphic_ipv4(assigned_ip.0, assigned_ip.1, assigned_ip.2, assigned_ip.3);
            lemma_graphic_ipv4(gateway_ip.0, gateway_ip.1, gateway_ip.2, gateway_ip.3);
            lemma_graphic_decimal(lease_seconds as nat);
            lemma_joined_5(w, s);
            assert(b =~= joined(w, s));
        },
        DhcpMessage::Release { client_mac, released_ip } => {
            lemma_graphic_ipv4(released_ip.0, released_ip.1, released_ip.2, released_ip.3);
            lemma_joined_3(w, s);
            assert(b =~= joined(w, s));
        },
    }
    assert(forall|i: int| 0 <= i < w.len() ==> all_graphic(#[trigger] w[i]) && w[i].len() > 0);
    lemma_tokens_joined(w, s);
    lemma_words_ascii(w, s, b);
    lemma_ascii_valid_utf8(b);
}

proof fn lemma_fields(mac: MacAddr, ips: Seq<Ipv4Addr>, n: u64)
    ensures
        parse_mac_text(mac_words(mac)) == Some(mac.bytes()),
        MacAddr::from_seq(mac.bytes(), 0) == mac,
        u64_of(decimal_text(n as nat)) == Some(n),
        forall|i: int| 0 <= i < ips.len() ==> ip_of(#[trigger] ip_words(ips[i])) == Some(ips[i]),
{
    lemma_parse_mac_text(mac.bytes());
    lemma_parse_decimal_text(n as nat, u64::MAX as nat);
    assert forall|i: int| 0 <= i < ips.len() implies ip_of(#[trigger] ip_words(ips[i])) == Some(ips[i]) by {
        let ip = ips[i];
        lemma_parse_ipv4_text(ip.0, ip.1, ip.2, ip.3);
    }
}

proof fn lemma_roundtrip_discover(client_mac: MacAddr)
    ensures
        dhcp_decoding(dhcp_encoding(DhcpMessage::Discover { client_mac })) == Some(DhcpMessage::Discover { client_mac }),
{
    let m = DhcpMessage::Discover { client_mac };
    lemma_dhcp_line(m);
    lemma_keywords_distinct();
    lemma_fields(client_mac, Seq::empty(), 0);
    let t = tokens(dhcp_encoding(m));
    assert(t == dhcp_words(m).0);

}

proof fn lemma_roundtrip_offer(client_mac: MacAddr, offered_ip: Ipv4Addr, lease_seconds: u64, gateway_ip: Ipv4Addr)
    ensures
        dhcp_decoding(dhcp_encoding(DhcpMessage::Offer { client_mac, offered_ip, lease_seconds, gateway_ip })) == Some(DhcpMessage::Offer { client_mac, offered_ip, lease_seconds, gateway_ip }),
{
    let m = DhcpMessage::Offer { client_mac, offered_ip, lease_seconds, gateway_ip };
    lemma_dhcp_line(m);
    lemma_keywords_distinct();
    lemma_fields(client_mac, seq![offered_ip, gateway_ip], lease_seconds);
    let t = tokens(dhcp_encoding(m));
    assert(t == dhcp_words(m).0);
    assert(ip_of(ip_words(seq![offered_ip, gateway_ip][0])) == Some(offered_ip));
    assert(ip_of(ip_words(seq![offered_ip, gateway_ip][1])) == Some(gateway_ip));
    assert(t[2] == ip_words(offered_ip) && t[3] == decimal_text(lease_seconds as nat) && t[4] == ip_words(gateway_ip));
}

proof fn lemma_roundtrip_request(client_mac: MacAddr, requested_ip: Ipv4Addr)
    ensures
        dhcp_decoding(dhcp_encoding(DhcpMessage::Request { client_mac, requested_ip })) == Some(DhcpMessage::Request { client_mac, requested_ip }),
{
    let m = DhcpMessage::Request { client_mac, requested_ip };
    lemma_dhcp_line(m);
    lemma_keywords_distinct();
    lemma_fields(client_mac, seq![requested_ip], 0);
    let t = tokens(dhcp_encoding(m));
    assert(t == dhcp_words(m).0);
    assert(ip_of(ip_words(seq![requested_ip][0])) == Some(requested_ip));
    assert(t[2] == ip_words(requested_ip));
}

proof fn lemma_roundtrip_ack(client_mac: MacAddr, assigned_ip: Ipv4Addr, lease_seconds: u64, gateway_ip: Ipv4Addr)
    ensures
        dhcp_decoding(dhcp_encoding(DhcpMessage::Ack { client_mac, assigned_ip, lease_seconds, gateway_ip })) == Some(DhcpMessage::Ack { client_mac, assigned_ip, lease_seconds, gateway_ip }),
{
    let m = DhcpMessage::Ack { client_mac, assigned_ip, lease_seconds, gateway_ip };
    lemma_dhcp_line(m);
    lemma_keywords_distinct();
    lemma_fields(client_mac, seq![assigned_ip, gateway_ip], lease_seconds);
    let t = tokens(dhcp_encoding(m));
    assert(t == dhcp_words(m).0);
    assert(ip_of(ip_words(seq![assigned_ip, gateway_ip][0])) == Some(assigned_ip));
    assert(ip_of(ip_words(seq![assigned_ip, gateway_ip][1])) == Some(gateway_ip));
    assert(t[2] == ip_words(assigned_ip) && t[3] == decimal_text(lease_seconds as nat) && t[4] == ip_words(gateway_ip));
}

proof fn lemma_roundtrip_release(client_mac: MacAddr, released_ip: Ipv4Addr)
    ensures
        dhcp_decoding(dhcp_encoding(DhcpMessage::Release { client_mac, released_ip })) == Some(DhcpMessage::Release { client_mac, released_ip }),
{
    let m = DhcpMessage::Release { client_mac, released_ip };
    lemma_dhcp_line(m);
    lemma_keywords_distinct();
    lemma_fields(client_mac, seq![released_ip], 0);
    let t = tokens(dhcp_encoding(m));
    assert(t == dhcp_words(m).0);
    assert(ip_of(ip_words(seq![released_ip][0])) == Some(released_ip));
    assert(t[2] == ip_words(released_ip));
}

/// Decoding the line a message is written as gives back the message.
pub proof fn lemma_dhcp_decode_encode(m: DhcpMessage)
    ensures
        dhcp_decoding(dhcp_encoding(m)) == Some(m),
{
    match m {
        DhcpMessage::Discover { client_mac } => lemma_roundtrip_discover(client_mac),
        DhcpMessage::Offer { client_mac, offered_ip, lease_seconds, gateway_ip } => lemma_roundtrip_offer(client_mac, offered_ip, lease_seconds, gateway_ip),
        DhcpMessage::Request { client_mac, requested_ip } => lemma_roundtrip_request(client_mac, requested_ip),
        DhcpMessage::Ack { client_mac, assigned_ip, lease_seconds, gateway_ip } => lemma_roundtrip_ack(client_mac, assigned_ip, lease_seconds, gateway_ip),
        DhcpMessage::Release { client_mac, released_ip } => lemma_roundtrip_release(client_mac, released_ip),
    }
}

} // verus!
