//! A router between two interfaces: prefixes and masks, the route table with longest-prefix
//! lookup, and the forwarding of the packets a host kept for it.
use vstd::prelude::*;
use vstd::string::StringSliceAdditionalSpecFns;

use crate::application::stack::{send_ip_spec, Host, HostView};
use crate::internet::addr::{Ipv4Addr, SocketAddrV4};
use crate::internet::ip::{Ipv4Packet, PacketView};
use crate::link::ethernet::MacAddr;
use crate::text::{find_bytes, find_from, lemma_find_from, parse_ipv4, parse_ipv4_text, parse_uint, parse_uint_text};

verus! {

/// The prefix length the router gives its interfaces.
pub const DEFAULT_PREFIX_LEN: u8 = 24;

/// The netmask of a prefix of `prefix_len` bits.
pub open spec fn prefix_mask(prefix_len: u8) -> u32 {
    if prefix_len == 0 {
        0
    } else {
        0xffff_ffffu32 << ((32 - prefix_len) as u32)
    }
}

/// The first `prefix_len` bits of `ip`, the others cleared.
pub open spec fn masked_bits(ip: Ipv4Addr, prefix_len: u8) -> u32 {
    ip.bits() & prefix_mask(prefix_len)
}

/// The netmask of a prefix of `prefix_len` bits, as an address.
pub fn prefix_len_to_mask(prefix_len: u8) -> (r: Ipv4Addr)
    requires
        prefix_len <= 32,
    ensures
        r.bits() == prefix_mask(prefix_len),
{
    let mask: u32 = if prefix_len == 0 {
        0
    } else {
        0xffff_ffffu32 << ((32 - prefix_len) as u32)
    };
    Ipv4Addr::from_u32(mask)
}

/// The first `prefix_len` bits of `ip`.
pub fn masked(ip: Ipv4Addr, prefix_len: u8) -> (r: u32)
    requires
        prefix_len <= 32,
    ensures
        r == masked_bits(ip, prefix_len),
{
    ip.to_u32() & prefix_len_to_mask(prefix_len).to_u32()
}

/// `ip` with the bits of `mask` kept.
pub fn masked_ip(ip: Ipv4Addr, mask: Ipv4Addr) -> (r: Ipv4Addr)
    ensures
        r == Ipv4Addr::from_bits(ip.bits() & mask.bits()),
{
    Ipv4Addr::from_u32(ip.to_u32() & mask.to_u32())
}

/// How an interface reaches its link: it listens for peers, or it sends to an uplink.
#[derive(Clone, Copy, Debug, PartialEq, Eq, Structural)]
pub enum InterfaceLinkMode {
    Listen,
    Uplink(SocketAddrV4),
}

/// One of the two interfaces of the router.
#[derive(Clone, Copy, Debug, PartialEq, Eq, Structural)]
pub enum InterfaceId {
    Left,
    Right,
}

/// An interface of the router.
#[derive(Clone, Copy, Debug)]
pub struct InterfaceConfig {
    pub label: &'static str,
    pub mode: InterfaceLinkMode,
    pub ip: Ipv4Addr,
    pub prefix_len: u8,
    pub mac: MacAddr,
}

/// `ip` lies in the subnet of interface `i`.
pub open spec fn interface_contains(i: InterfaceConfig, ip: Ipv4Addr) -> bool {
    masked_bits(ip, i.prefix_len) == masked_bits(i.ip, i.prefix_len)
}

impl InterfaceConfig {
    /// The network address of the interface's subnet.
    pub fn network(self) -> (r: Ipv4Addr)
        requires
            self.prefix_len <= 32,
        ensures
            r == Ipv4Addr::from_bits(masked_bits(self.ip, self.prefix_len)),
    {
        masked_ip(self.ip, prefix_len_to_mask(self.prefix_len))
    }

    /// Whether `ip` lies in the interface's subnet.
    pub fn contains(self, ip: Ipv4Addr) -> (r: bool)
        requires
            self.prefix_len <= 32,
        ensures
            r == interface_contains(self, ip),
    {
        masked(ip, self.prefix_len) == masked(self.ip, self.prefix_len)
    }
}

/// A route: packets for `network/prefix_len` go to `next_hop`, or straight to their
/// destination when it is `None`.
#[derive(Clone, Copy, Debug, PartialEq, Eq, Structural)]
pub struct Route {
    pub network: Ipv4Addr,
    pub prefix_len: u8,
    pub next_hop: Option<Ipv4Addr>,
}

/// `ip` lies in the prefix of route `r`.
pub open spec fn route_matches(r: Route, ip: Ipv4Addr) -> bool {
    masked_bits(ip, r.prefix_len) == masked_bits(r.network, r.prefix_len)
}

/// Every route has a prefix of at most 32 bits.
pub open spec fn routes_ok(routes: Seq<Route>) -> bool {
    forall|i: int| 0 <= i < routes.len() ==> (#[trigger] routes[i]).prefix_len <= 32
}

impl Route {
    /// Whether `ip` lies in this route's prefix.
    pub fn matches(self, ip: Ipv4Addr) -> (r: bool)
        requires
            self.prefix_len <= 32,
        ensures
            r == route_matches(self, ip),
    {
        masked(ip, self.prefix_len) == masked(self.network, self.prefix_len)
    }
}

/// Route `i` is the one chosen for `dst`: it matches, no matching route has a longer
/// prefix, and every matching route before it has a shorter one.
pub open spec fn is_best_route(routes: Seq<Route>, dst: Ipv4Addr, i: int) -> bool {
    &&& 0 <= i < routes.len()
    &&& route_matches(routes[i], dst)
    &&& forall|j: int| 0 <= j < routes.len() && #[trigger] route_matches(routes[j], dst) ==> routes[j].prefix_len <= routes[i].prefix_len
    &&& forall|j: int| 0 <= j < i && #[trigger] route_matches(routes[j], dst) ==> routes[j].prefix_len < routes[i].prefix_len
}

/// The route chosen for `dst`: the first of the longest matching prefix.
pub open spec fn best_route(routes: Seq<Route>, dst: Ipv4Addr) -> Option<Route> {
    if exists|i: int| is_best_route(routes, dst, i) {
        Some(routes[choose|i: int| is_best_route(routes, dst, i)])
    } else {
        None
    }
}

/// At most one route is the chosen one.
pub proof fn lemma_best_route_unique(routes: Seq<Route>, dst: Ipv4Addr, i: int, j: int)
    requires
        is_best_route(routes, dst, i),
        is_best_route(routes, dst, j),
    ensures
        i == j,
{
    if i < j {
        assert(route_matches(routes[i], dst));
    } else if j < i {
        assert(route_matches(routes[j], dst));
    }
}

/// Longest-prefix match: the chosen route matches the destination and no matching route
/// is more specific; there is none only when no route matches.
pub proof fn lemma_longest_prefix(routes: Seq<Route>, dst: Ipv4Addr)
    ensures
        match best_route(routes, dst) {
            Some(r) => route_matches(r, dst) && routes.contains(r) && forall|j: int| 0 <= j < routes.len() && #[trigger] route_matches(routes[j], dst)
                ==> routes[j].prefix_len <= r.prefix_len,
            None => forall|j: int| 0 <= j < routes.len() ==> !#[trigger] route_matches(routes[j], dst),
        },
{
    if exists|i: int| is_best_route(routes, dst, i) {
        let i = choose|i: int| is_best_route(routes, dst, i);
        assert(routes[i] == best_route(routes, dst)->0);
    } else {
        assert forall|j: int| 0 <= j < routes.len() implies !#[trigger] route_matches(routes[j], dst) by {
            if route_matches(routes[j], dst) {
                lemma_best_exists(routes, dst, j);
            }
        }
    }
}

/// Some route is the chosen one as soon as one matches.
proof fn lemma_best_exists(routes: Seq<Route>, dst: Ipv4Addr, j: int)
    requires
        0 <= j < routes.len(),
        route_matches(routes[j], dst),
    ensures
        exists|i: int| is_best_route(routes, dst, i),
    decreases routes.len(),
{
    let n = routes.len();
    let last = routes[n - 1];
    let init = routes.drop_last();
    if j == n - 1 && !(exists|k: int| 0 <= k < n - 1 && route_matches(routes[k], dst)) {
        assert(is_best_route(routes, dst, n - 1));
    } else {
        let k = if j < n - 1 { j } else { choose|k: int| 0 <= k < n - 1 && route_matches(routes[k], dst) };
        assert(init[k] == routes[k]);
        lemma_best_exists(init, dst, k);
        let b = choose|b: int| is_best_route(init, dst, b);
        assert(init[b] == routes[b]);
        if route_matches(last, dst) && last.prefix_len > routes[b].prefix_len {
            assert forall|x: int| 0 <= x < n && #[trigger] route_matches(routes[x], dst) implies routes[x].prefix_len <= last.prefix_len by {
                if x < n - 1 {
                    assert(init[x] == routes[x]);
                    assert(route_matches(init[x], dst));
                }
            }
            assert forall|x: int| 0 <= x < n - 1 && #[trigger] route_matches(routes[x], dst) implies routes[x].prefix_len < last.prefix_len by {
                assert(init[x] == routes[x]);
                assert(route_matches(init[x], dst));
            }
            assert(is_best_route(routes, dst, n - 1));
        } else {
            assert forall|x: int| 0 <= x < n && #[trigger] route_matches(routes[x], dst) implies routes[x].prefix_len <= routes[b].prefix_len by {
                if x < n - 1 {
                    assert(init[x] == routes[x]);
                    assert(route_matches(init[x], dst));
                }
            }
            assert forall|x: int| 0 <= x < b && #[trigger] route_matches(routes[x], dst) implies routes[x].prefix_len < routes[b].prefix_len by {
                assert(init[x] == routes[x]);
                assert(route_matches(init[x], dst));
            }
            assert(is_best_route(routes, dst, b));
        }
    }
}

/// The route for `dst`: the first of the routes with the longest prefix that matches it.
pub fn lookup_route(routes: &[Route], dst_ip: Ipv4Addr) -> (r: Option<Route>)
    requires
        routes_ok(routes@),
    ensures
        r == best_route(routes@, dst_ip),
{
    let ghost rs = routes@;
    let mut best: Option<usize> = None;
    let mut i: usize = 0;
    while i < routes.len()
        invariant
            rs == routes@,
            routes_ok(rs),
            i <= rs.len(),
            match best {
                Some(b) => is_best_route(rs.take(i as int), dst_ip, b as int),
                None => forall|j: int| 0 <= j < i ==> !#[trigger] route_matches(rs[j], dst_ip),
            },
        decreases rs.len() - i,
    {
        let route = routes[i];
        let ghost t = rs.take(i + 1);
        assert(forall|j: int| 0 <= j < i ==> rs.take(i as int)[j] == #[trigger] t[j]);
        assert(forall|j: int| 0 <= j < i + 1 ==> rs[j] == #[trigger] t[j]);
        if route.matches(dst_ip) {
            match best {
                Some(b) => {
                    if route.prefix_len > routes[b].prefix_len {
                        best = Some(i);
                        assert forall|j: int| 0 <= j < t.len() && #[trigger] route_matches(t[j], dst_ip) implies t[j].prefix_len <= t[i as int].prefix_len by {
                            if j < i {
                                assert(route_matches(rs.take(i as int)[j], dst_ip));
                            }
                        }
                        assert forall|j: int| 0 <= j < i && #[trigger] route_matches(t[j], dst_ip) implies t[j].prefix_len < t[i as int].prefix_len by {
                            assert(route_matches(rs.take(i as int)[j], dst_ip));
                        }
                    } else {
                        assert forall|j: int| 0 <= j < t.len() && #[trigger] route_matches(t[j], dst_ip) implies t[j].prefix_len <= t[b as int].prefix_len by {
                            if j < i {
                                assert(route_matches(rs.take(i as int)[j], dst_ip));
                            }
                        }
                        assert forall|j: int| 0 <= j < b && #[trigger] route_matches(t[j], dst_ip) implies t[j].prefix_len < t[b as int].prefix_len by {
                            assert(route_matches(rs.take(i as int)[j], dst_ip));
                        }
                    }
                },
                None => {
                    best = Some(i);
                    assert(is_best_route(t, dst_ip, i as int));
                },
            }
        } else {
            match best {
                Some(b) => {
                    assert forall|j: int| 0 <= j < t.len() && #[trigger] route_matches(t[j], dst_ip) implies t[j].prefix_len <= t[b as int].prefix_len by {
                        assert(route_matches(rs.take(i as int)[j], dst_ip));
                    }
                    assert forall|j: int| 0 <= j < b && #[trigger] route_matches(t[j], dst_ip) implies t[j].prefix_len < t[b as int].prefix_len by {
                        assert(route_matches(rs.take(i as int)[j], dst_ip));
                    }
                },
                None => {},
            }
        }
        i = i + 1;
    }
    assert(rs.take(i as int) =~= rs);
    match best {
        Some(b) => {
            proof {
                assert forall|x: int| is_best_route(rs, dst_ip, x) implies x == b by {
                    lemma_best_route_unique(rs, dst_ip, x, b as int);
                }
            }
            Some(routes[b])
        },
        None => {
            proof {
                if exists|x: int| is_best_route(rs, dst_ip, x) {
                    let x = choose|x: int| is_best_route(rs, dst_ip, x);
                    assert(route_matches(rs[x], dst_ip));
                }
            }
            None
        },
    }
}

/// The interface a packet for `dst` leaves by under route `route`, and the next hop to
/// give it: the interface whose subnet holds the route's next hop (or the destination
/// itself for a direct route), the left one first; `None` when neither does.
pub open spec fn egress_spec(route: Route, dst: Ipv4Addr, left: InterfaceConfig, right: InterfaceConfig) -> Option<(InterfaceId, Option<Ipv4Addr>)> {
    let hop = match route.next_hop {
        Some(h) => h,
        None => dst,
    };
    if interface_contains(left, hop) {
        Some((InterfaceId::Left, route.next_hop))
    } else if interface_contains(right, hop) {
        Some((InterfaceId::Right, route.next_hop))
    } else {
        None
    }
}

/// The interface and next hop for a packet to `dst_ip` under `route`.
pub fn resolve_egress(route: Route, dst_ip: Ipv4Addr, left_interface: InterfaceConfig, right_interface: InterfaceConfig) -> (r: Option<(InterfaceId, Option<Ipv4Addr>)>)
    requires
        left_interface.prefix_len <= 32,
        right_interface.prefix_len <= 32,
    ensures
        r == egress_spec(route, dst_ip, left_interface, right_interface),
{
    let next_hop = match route.next_hop {
        Some(h) => h,
        None => dst_ip,
    };
    if left_interface.contains(next_hop) {
        Some((InterfaceId::Left, route.next_hop))
    } else if right_interface.contains(next_hop) {
        Some((InterfaceId::Right, route.next_hop))
    } else {
        None
    }
}

/// Forwarding one packet that came in on `ingress`, whose host is `a`; `b` is the host on
/// the other interface. A packet with a route and an egress interface is sent out of that
/// interface's host (a packet whose TTL is 0 is dropped there); the flag says whether the
/// packet found a way. Packets without one are dropped.
pub open spec fn forward_one(
    ingress: InterfaceId,
    routes: Seq<Route>,
    left: InterfaceConfig,
    right: InterfaceConfig,
    a: HostView,
    b: HostView,
    p: PacketView,
) -> (HostView, HostView, bool) {
    match best_route(routes, p.dst) {
        None => (a, b, false),
        Some(route) => match egress_spec(route, p.dst, left, right) {
            None => (a, b, false),
            Some((egress, hop)) => if egress == ingress {
                (if p.ttl != 0 { send_ip_spec(a, p, hop) } else { a }, b, true)
            } else {
                (a, if p.ttl != 0 { send_ip_spec(b, p, hop) } else { b }, true)
            },
        },
    }
}

/// Sending keeps the packets a host holds for forwarding.
pub proof fn lemma_send_keeps_forwarded(h: HostView, p: PacketView, via: Option<Ipv4Addr>)
    ensures
        send_ip_spec(h, p, via).forwarded == h.forwarded,
{
}

/// Forwarding every packet host `a` holds, oldest first; the flag says whether any found a
/// way.
pub open spec fn forward_queue(
    ingress: InterfaceId,
    routes: Seq<Route>,
    left: InterfaceConfig,
    right: InterfaceConfig,
    a: HostView,
    b: HostView,
) -> (HostView, HostView, bool)
    decreases a.forwarded.len(),
{
    if a.forwarded.len() == 0 {
        (a, b, false)
    } else {
        let p = a.forwarded[0];
        let a0 = HostView { forwarded: a.forwarded.drop_first(), ..a };
        let (a1, b1, moved) = forward_one(ingress, routes, left, right, a0, b, p);
        proof {
            let route = best_route(routes, p.dst)->0;
            let (egress, hop) = egress_spec(route, p.dst, left, right)->0;
            lemma_send_keeps_forwarded(a0, p, hop);
        }
        let (a2, b2, more) = forward_queue(ingress, routes, left, right, a1, b1);
        (a2, b2, moved || more)
    }
}

/// Forwards the packets `inbound` holds for forwarding; true when any found a way.
pub fn forward_pending(
    ingress: InterfaceId,
    routes: &[Route],
    left_interface: InterfaceConfig,
    right_interface: InterfaceConfig,
    inbound: &mut Host,
    other: &mut Host,
) -> (r: bool)
    requires
        routes_ok(routes@),
        left_interface.prefix_len <= 32,
        right_interface.prefix_len <= 32,
        old(inbound).wf(),
        old(other).wf(),
    ensures
        final(inbound).wf(),
        final(other).wf(),
        final(inbound).name_view() == old(inbound).name_view(),
        final(other).name_view() == old(other).name_view(),
        (final(inbound).view(), final(other).view(), r) == forward_queue(
            ingress,
            routes@,
            left_interface,
            right_interface,
            old(inbound).view(),
            old(other).view(),
        ),
{
    let ghost goal = forward_queue(ingress, routes@, left_interface, right_interface, inbound.view(), other.view());
    let mut progressed = false;
    loop
        invariant
            routes_ok(routes@),
            left_interface.prefix_len <= 32,
            right_interface.prefix_len <= 32,
            inbound.wf(),
            other.wf(),
            inbound.name_view() == old(inbound).name_view(),
            other.name_view() == old(other).name_view(),
            goal == ({
                let (a, b, more) = forward_queue(ingress, routes@, left_interface, right_interface, inbound.view(), other.view());
                (a, b, progressed || more)
            }),
        ensures
            inbound.wf(),
            other.wf(),
            inbound.name_view() == old(inbound).name_view(),
            other.name_view() == old(other).name_view(),
            goal == (inbound.view(), other.view(), progressed),
        decreases inbound.view().forwarded.len(),
    {
        let ghost a = inbound.view();
        let ghost b = other.view();
        let packet = match inbound.recv_forwarded_ipv4() {
            Some(p) => p,
            None => {
                break;
            },
        };
        let ghost p = packet@;
        let route = match lookup_route(routes, packet.dst) {
            Some(route) => route,
            None => {
                continue;
            },
        };
        let (egress, next_hop) = match resolve_egress(route, packet.dst, left_interface, right_interface) {
            Some(x) => x,
            None => {
                continue;
            },
        };
        if egress == ingress {
            inbound.send_ipv4_via(packet, next_hop);
        } else {
            other.send_ipv4_via(packet, next_hop);
        }
        progressed = true;
    }
    progressed
}

/// Why a route text was refused.
#[derive(Clone, Copy, Debug, PartialEq, Eq, Structural)]
pub enum CidrError {
    /// No `/` between address and prefix length.
    MissingSlash,
    /// The prefix length is not a number from 0 to 255.
    BadPrefix,
    /// The prefix length is above 32.
    PrefixTooLong,
    /// The address is not a dotted-decimal IPv4 address.
    BadNetwork,
}

/// How a route text `a.b.c.d/len` reads: split at the first `/`; the length must be a
/// decimal number of at most 32; the network is the address with the bits past the prefix
/// cleared.
pub open spec fn cidr_of(s: Seq<u8>) -> Result<(Ipv4Addr, u8), CidrError> {
    match find_from(s, seq![47u8], 0) {
        None => Err(CidrError::MissingSlash),
        Some(i) => match parse_uint_text(s.skip((i + 1) as int), 255) {
            None => Err(CidrError::BadPrefix),
            Some(p) => if p > 32 {
                Err(CidrError::PrefixTooLong)
            } else {
                match parse_ipv4_text(s.take(i as int)) {
                    None => Err(CidrError::BadNetwork),
                    Some((a, b, c, d)) => Ok((Ipv4Addr::from_bits(Ipv4Addr(a, b, c, d).bits() & prefix_mask(p as u8)), p as u8)),
                }
            },
        },
    }
}

/// Reads a route text `a.b.c.d/len`.
pub fn parse_cidr(value: &str) -> (r: Result<(Ipv4Addr, u8), CidrError>)
    ensures
        r == cidr_of(value.spec_bytes()),
{
    let bytes = value.as_bytes();
    let slash = [47u8];
    assert(slash@ =~= seq![47u8]);
    let at = match find_bytes(bytes, &slash) {
        Some(i) => i,
        None => return Err(CidrError::MissingSlash),
    };
    proof {
        lemma_find_from(bytes@, seq![47u8], 0);
    }
    let n = bytes.len();
    assert(bytes@.subrange(at + 1, n as int) =~= bytes@.skip(at + 1));
    assert(bytes@.subrange(0, at as int) =~= bytes@.take(at as int));
    let prefix_len = match parse_uint(bytes, at + 1, n, 255) {
        Some(p) => p as u8,
        None => return Err(CidrError::BadPrefix),
    };
    if prefix_len > 32 {
        return Err(CidrError::PrefixTooLong);
    }
    let network = match parse_ipv4(bytes, 0, at) {
        Some((a, b, c, d)) => Ipv4Addr(a, b, c, d),
        None => return Err(CidrError::BadNetwork),
    };
    Ok((masked_ip(network, prefix_len_to_mask(prefix_len)), prefix_len))
}

/// The DHCP pool an interface serves: addresses 10 to 99 of its subnet, on an interface
/// that listens; none on an uplink.
pub fn dhcp_pool_for_interface(interface: InterfaceConfig) -> (r: Option<(Ipv4Addr, Ipv4Addr)>)
    requires
        interface.prefix_len <= 32,
        masked_bits(interface.ip, interface.prefix_len) + 99 <= u32::MAX,
    ensures
        match r {
            Some((start, end)) => interface.mode == InterfaceLinkMode::Listen
                && start == Ipv4Addr::from_bits((masked_bits(interface.ip, interface.prefix_len) + 10) as u32)
                && end == Ipv4Addr::from_bits((masked_bits(interface.ip, interface.prefix_len) + 99) as u32),
            None => interface.mode != InterfaceLinkMode::Listen,
        },
{
    match interface.mode {
        InterfaceLinkMode::Listen => {},
        InterfaceLinkMode::Uplink(_) => return None,
    }
    let network = interface.network().to_u32();
    proof {
        crate::internet::addr::lemma_ipv4_bits_roundtrip(interface.ip, masked_bits(interface.ip, interface.prefix_len));
    }
    Some((Ipv4Addr::from_u32(network + 10), Ipv4Addr::from_u32(network + 99)))
}

} // verus!
