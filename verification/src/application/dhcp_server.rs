//! The DHCP server: an address pool, offers that wait for their request, and leases that
//! run out. Times are milliseconds on the server's clock.
use vstd::prelude::*;

use crate::application::dhcp::{dhcp_decoding, dhcp_encoding, DhcpMessage, DEFAULT_LEASE_SECONDS, DHCP_CLIENT_PORT, DHCP_SERVER_PORT};
use crate::application::stack::{send_ip_spec, Host, HostView};
use crate::clock::Clock;
use crate::internet::addr::Ipv4Addr;
use crate::internet::ip::{IpProtocol, PacketView};
use crate::link::ethernet::MacAddr;
use crate::order::{lex_lt, sorted_positions};
use crate::transport::udp::udp_encoding;
use crate::text::{all_graphic, append_lit, ascii_to_string, ipv4_text, is_graphic, lemma_graphic_ipv4, lemma_graphic_mac, mac_text, push_ipv4_text, push_mac_text};
use crate::vec_map::{lemma_seq_to_map_index, VecMap};

verus! {

/// How long an offer waits for its request, in milliseconds.
pub const DHCP_OFFER_TIMEOUT_MS: u64 = 5000;

/// A lease: the address and when it runs out.
#[derive(Clone, Copy, Debug, PartialEq, Eq, Structural)]
pub struct LeaseRecord {
    pub ip: Ipv4Addr,
    pub expires_at: u64,
}

/// An offer made and not yet requested: the address and when the offer lapses.
#[derive(Clone, Copy, Debug, PartialEq, Eq, Structural)]
pub struct PendingOffer {
    pub ip: Ipv4Addr,
    pub expires_at: u64,
}

/// A lease as the server lists it: who holds which address, and for how much longer.
#[derive(Clone, Copy, Debug, PartialEq, Eq, Structural)]
pub struct LeaseEntry {
    pub mac: MacAddr,
    pub ip: Ipv4Addr,
    pub remaining_ms: u64,
}

/// What the server did.
#[derive(Clone, Copy, Debug, PartialEq, Eq, Structural)]
pub enum DhcpServerEvent {
    Offered { mac: MacAddr, ip: Ipv4Addr },
    Leased { mac: MacAddr, ip: Ipv4Addr },
    Released { mac: MacAddr, ip: Ipv4Addr },
    Expired { mac: MacAddr, ip: Ipv4Addr },
}

/// The text of an event: what happened, the address, and `to` or `from` the client.
pub open spec fn event_text(e: DhcpServerEvent) -> Seq<u8> {
    let (verb, ip, joint, mac) = match e {
        DhcpServerEvent::Offered { mac, ip } => (seq![111u8, 102, 102, 101, 114, 101, 100, 32], ip, seq![32u8, 116, 111, 32], mac),
        DhcpServerEvent::Leased { mac, ip } => (seq![108u8, 101, 97, 115, 101, 100, 32], ip, seq![32u8, 116, 111, 32], mac),
        DhcpServerEvent::Released { mac, ip } => (seq![114u8, 101, 108, 101, 97, 115, 101, 100, 32], ip, seq![32u8, 102, 114, 111, 109, 32], mac),
        DhcpServerEvent::Expired { mac, ip } => (seq![101u8, 120, 112, 105, 114, 101, 100, 32], ip, seq![32u8, 102, 114, 111, 109, 32], mac),
    };
    verb + ipv4_text(ip.0, ip.1, ip.2, ip.3) + joint + mac_text(mac.bytes())
}

impl DhcpServerEvent {
    /// The text of the event, such as `leased 10.0.0.10 to 02:00:00:00:00:01`.
    pub fn describe(self) -> (r: String)
        ensures
            r@ == vstd::utf8::decode_utf8(event_text(self)),
    {
        let mut out: Vec<u8> = Vec::new();
        let (ip, mac) = match self {
            DhcpServerEvent::Offered { mac, ip } => {
                append_lit(&mut out, &[111, 102, 102, 101, 114, 101, 100, 32]);
                (ip, mac)
            },
            DhcpServerEvent::Leased { mac, ip } => {
                append_lit(&mut out, &[108, 101, 97, 115, 101, 100, 32]);
                (ip, mac)
            },
            DhcpServerEvent::Released { mac, ip } => {
                append_lit(&mut out, &[114, 101, 108, 101, 97, 115, 101, 100, 32]);
                (ip, mac)
            },
            DhcpServerEvent::Expired { mac, ip } => {
                append_lit(&mut out, &[101, 120, 112, 105, 114, 101, 100, 32]);
                (ip, mac)
            },
        };
        push_ipv4_text(&mut out, ip.0, ip.1, ip.2, ip.3);
        match self {
            DhcpServerEvent::Offered { .. } | DhcpServerEvent::Leased { .. } => append_lit(&mut out, &[32, 116, 111, 32]),
            _ => append_lit(&mut out, &[32, 102, 114, 111, 109, 32]),
        }
        push_mac_text(&mut out, mac.octets());
        assert(out@ =~= event_text(self));
        proof {
            lemma_event_text_ascii(self);
        }
        ascii_to_string(out)
    }
}

/// Every literal byte below 0x80, and graphic text, make ASCII text.
proof fn lemma_ascii_parts(verb: Seq<u8>, ip: Seq<u8>, joint: Seq<u8>, mac: Seq<u8>)
    requires
        forall|i: int| 0 <= i < verb.len() ==> #[trigger] verb[i] < 0x80,
        forall|i: int| 0 <= i < joint.len() ==> #[trigger] joint[i] < 0x80,
        all_graphic(ip),
        all_graphic(mac),
    ensures
        forall|i: int| 0 <= i < (verb + ip + joint + mac).len() ==> #[trigger] (verb + ip + joint + mac)[i] < 0x80,
{
    let s = verb + ip + joint + mac;
    assert forall|i: int| 0 <= i < s.len() implies #[trigger] s[i] < 0x80 by {
        let a = verb.len() as int;
        let b = a + ip.len();
        let c = b + joint.len();
        if i < a {
            assert(s[i] == verb[i]);
        } else if i < b {
            assert(s[i] == ip[i - a]);
            assert(is_graphic(ip[i - a]));
        } else if i < c {
            assert(s[i] == joint[i - b]);
        } else {
            assert(s[i] == mac[i - c]);
            assert(is_graphic(mac[i - c]));
        }
    }
}

/// The text of an event is ASCII.
proof fn lemma_event_text_ascii(e: DhcpServerEvent)
    ensures
        forall|i: int| 0 <= i < event_text(e).len() ==> #[trigger] event_text(e)[i] < 0x80,
{
    let (ip, mac) = match e {
        DhcpServerEvent::Offered { mac, ip } => (ip, mac),
        DhcpServerEvent::Leased { mac, ip } => (ip, mac),
        DhcpServerEvent::Released { mac, ip } => (ip, mac),
        DhcpServerEvent::Expired { mac, ip } => (ip, mac),
    };
    lemma_graphic_ipv4(ip.0, ip.1, ip.2, ip.3);
    lemma_graphic_mac(mac.bytes());
    let it = ipv4_text(ip.0, ip.1, ip.2, ip.3);
    let mt = mac_text(mac.bytes());
    match e {
        DhcpServerEvent::Offered { .. } => lemma_ascii_parts(seq![111u8, 102, 102, 101, 114, 101, 100, 32], it, seq![32u8, 116, 111, 32], mt),
        DhcpServerEvent::Leased { .. } => lemma_ascii_parts(seq![108u8, 101, 97, 115, 101, 100, 32], it, seq![32u8, 116, 111, 32], mt),
        DhcpServerEvent::Released { .. } => lemma_ascii_parts(seq![114u8, 101, 108, 101, 97, 115, 101, 100, 32], it, seq![32u8, 102, 114, 111, 109, 32], mt),
        DhcpServerEvent::Expired { .. } => lemma_ascii_parts(seq![101u8, 120, 112, 105, 114, 101, 100, 32], it, seq![32u8, 102, 114, 111, 109, 32], mt),
    }
}

/// The pool was given with its start after its end.
#[derive(Clone, Copy, Debug, PartialEq, Eq, Structural)]
pub enum PoolError {
    StartAfterEnd,
}

/// The state of a server.
pub struct DhcpServerView {
    pub pool: Seq<Ipv4Addr>,
    pub gateway_ip: Ipv4Addr,
    pub leases: Map<MacAddr, LeaseRecord>,
    pub pending_offers: Map<MacAddr, PendingOffer>,
}

/// The addresses from `start` to `end`, in order.
pub open spec fn pool_range(start: Ipv4Addr, end: Ipv4Addr) -> Seq<Ipv4Addr> {
    Seq::new((end.bits() - start.bits() + 1) as nat, |i: int| Ipv4Addr::from_bits((start.bits() + i) as u32))
}

/// The length of a lease in milliseconds.
pub open spec fn lease_ms() -> nat {
    DEFAULT_LEASE_SECONDS as nat * 1000
}

/// `a + b`, or `u64::MAX` when that does not fit.
pub open spec fn sat_add(a: u64, b: nat) -> u64 {
    if a + b <= u64::MAX {
        (a + b) as u64
    } else {
        u64::MAX
    }
}

/// `mac` holds `ip`: leased to it or offered to it.
pub open spec fn holds(s: DhcpServerView, mac: MacAddr, ip: Ipv4Addr) -> bool {
    (s.leases.dom().contains(mac) && s.leases[mac].ip == ip) || (s.pending_offers.dom().contains(mac)
        && s.pending_offers[mac].ip == ip)
}

/// Someone holds `ip`.
pub open spec fn in_use(s: DhcpServerView, ip: Ipv4Addr) -> bool {
    exists|m: MacAddr| #[trigger] holds(s, m, ip)
}

/// No address is held by two clients.
pub open spec fn addresses_distinct(s: DhcpServerView) -> bool {
    forall|m1: MacAddr, m2: MacAddr, ip: Ipv4Addr| #[trigger] holds(s, m1, ip) && #[trigger] holds(s, m2, ip) ==> m1 == m2
}

/// Every address held comes from the pool.
pub open spec fn addresses_from_pool(s: DhcpServerView) -> bool {
    forall|m: MacAddr, ip: Ipv4Addr| #[trigger] holds(s, m, ip) ==> s.pool.contains(ip)
}

/// The first address of `pool[i..]` nobody holds.
pub open spec fn first_free(s: DhcpServerView, i: nat) -> Option<Ipv4Addr>
    decreases s.pool.len() - i,
{
    if i >= s.pool.len() {
        None
    } else if !in_use(s, s.pool[i as int]) {
        Some(s.pool[i as int])
    } else {
        first_free(s, i + 1)
    }
}

/// The address to offer `mac`: the one it has leased, else the one offered to it, else the
/// first free one of the pool.
pub open spec fn pick_spec(s: DhcpServerView, mac: MacAddr) -> Option<Ipv4Addr> {
    if s.leases.dom().contains(mac) {
        Some(s.leases[mac].ip)
    } else if s.pending_offers.dom().contains(mac) {
        Some(s.pending_offers[mac].ip)
    } else {
        first_free(s, 0)
    }
}

/// The address kept for `mac`: the one offered to it, else the one it has leased.
pub open spec fn reserved_ip(s: DhcpServerView, mac: MacAddr) -> Option<Ipv4Addr> {
    if s.pending_offers.dom().contains(mac) {
        Some(s.pending_offers[mac].ip)
    } else if s.leases.dom().contains(mac) {
        Some(s.leases[mac].ip)
    } else {
        None
    }
}

/// The host after it broadcasts `m` from the server port to the client port.
pub open spec fn reply_spec(h: HostView, m: DhcpMessage) -> HostView {
    send_ip_spec(
        h,
        PacketView {
            src: h.ip,
            dst: Ipv4Addr::broadcast_spec(),
            protocol: IpProtocol::Udp,
            ttl: 64,
            payload: udp_encoding(DHCP_SERVER_PORT, DHCP_CLIENT_PORT, dhcp_encoding(m)),
        },
        None,
    )
}

/// Handling a datagram at time `now`. A discover is offered the address `pick_spec` gives,
/// held for the offer timeout; a request for the address kept for the client is leased for
/// the lease time and acknowledged; a release of the address the client has leased frees
/// it. Nothing else changes anything or is answered.
pub open spec fn handle_spec(s: DhcpServerView, h: HostView, payload: Seq<u8>, now: u64) -> (DhcpServerView, HostView, Option<DhcpServerEvent>) {
    match dhcp_decoding(payload) {
        Some(DhcpMessage::Discover { client_mac }) => match pick_spec(s, client_mac) {
            Some(ip) => (
                DhcpServerView {
                    pending_offers: s.pending_offers.insert(client_mac, PendingOffer { ip, expires_at: sat_add(now, DHCP_OFFER_TIMEOUT_MS as nat) }),
                    ..s
                },
                reply_spec(h, DhcpMessage::Offer { client_mac, offered_ip: ip, lease_seconds: DEFAULT_LEASE_SECONDS, gateway_ip: s.gateway_ip }),
                Some(DhcpServerEvent::Offered { mac: client_mac, ip }),
            ),
            None => (s, h, None),
        },
        Some(DhcpMessage::Request { client_mac, requested_ip }) => if reserved_ip(s, client_mac) == Some(requested_ip) {
            (
                DhcpServerView {
                    leases: s.leases.insert(client_mac, LeaseRecord { ip: requested_ip, expires_at: sat_add(now, lease_ms()) }),
                    pending_offers: s.pending_offers.remove(client_mac),
                    ..s
                },
                reply_spec(h, DhcpMessage::Ack { client_mac, assigned_ip: requested_ip, lease_seconds: DEFAULT_LEASE_SECONDS, gateway_ip: s.gateway_ip }),
                Some(DhcpServerEvent::Leased { mac: client_mac, ip: requested_ip }),
            )
        } else {
            (s, h, None)
        },
        Some(DhcpMessage::Release { client_mac, released_ip }) => if s.leases.dom().contains(client_mac) && s.leases[client_mac].ip == released_ip {
            (
                DhcpServerView { leases: s.leases.remove(client_mac), pending_offers: s.pending_offers.remove(client_mac), ..s },
                h,
                Some(DhcpServerEvent::Released { mac: client_mac, ip: released_ip }),
            )
        } else {
            (s, h, None)
        },
        _ => (s, h, None),
    }
}

/// The leases still running at `now`.
pub open spec fn live_leases(s: DhcpServerView, now: u64) -> Map<MacAddr, LeaseRecord> {
    Map::new(|m: MacAddr| s.leases.dom().contains(m) && s.leases[m].expires_at > now, |m: MacAddr| s.leases[m])
}

/// The offers still waiting at `now`.
pub open spec fn live_offers(s: DhcpServerView, now: u64) -> Map<MacAddr, PendingOffer> {
    Map::new(
        |m: MacAddr| s.pending_offers.dom().contains(m) && s.pending_offers[m].expires_at > now,
        |m: MacAddr| s.pending_offers[m],
    )
}

/// `e` reports a lease that has run out at `now`.
pub open spec fn is_expiry_of(s: DhcpServerView, now: u64, e: DhcpServerEvent) -> bool {
    exists|m: MacAddr|
        s.leases.dom().contains(m) && s.leases[m].expires_at <= now && e == (DhcpServerEvent::Expired { mac: m, ip: s.leases[m].ip })
}

pub struct DhcpServer {
    pool: Vec<Ipv4Addr>,
    gateway_ip: Ipv4Addr,
    leases: VecMap<MacAddr, LeaseRecord>,
    pending_offers: VecMap<MacAddr, PendingOffer>,
    clock: Clock,
}

/// The addresses from `start` to `end`.
fn ip_range(start: Ipv4Addr, end: Ipv4Addr) -> (r: Result<Vec<Ipv4Addr>, PoolError>)
    ensures
        match r {
            Ok(v) => start.bits() <= end.bits() && v@ == pool_range(start, end),
            Err(_) => start.bits() > end.bits(),
        },
{
    let s = start.to_u32();
    let e = end.to_u32();
    if s > e {
        return Err(PoolError::StartAfterEnd);
    }
    let mut out: Vec<Ipv4Addr> = Vec::new();
    let mut v = s;
    loop
        invariant_except_break
            s <= v <= e,
            out@ == pool_range(start, end).take(v - s),
        invariant
            s == start.bits(),
            e == end.bits(),
            s <= e,
        ensures
            out@ == pool_range(start, end),
        decreases e - v,
    {
        let ghost before = out@;
        out.push(Ipv4Addr::from_u32(v));
        assert(out@ =~= pool_range(start, end).take(v - s + 1));
        if v == e {
            assert(out@ =~= pool_range(start, end));
            break;
        }
        v = v + 1;
    }
    Ok(out)
}

impl DhcpServer {
    pub closed spec fn view(&self) -> DhcpServerView {
        DhcpServerView {
            pool: self.pool@,
            gateway_ip: self.gateway_ip,
            leases: self.leases.view(),
            pending_offers: self.pending_offers.view(),
        }
    }

    pub closed spec fn wf(&self) -> bool {
        &&& self.leases.wf()
        &&& self.pending_offers.wf()
        &&& addresses_distinct(self.view())
        &&& addresses_from_pool(self.view())
    }

    /// A server with the pool `pool_start..=pool_end` that names `gateway_ip` as gateway.
    pub fn new(pool_start: Ipv4Addr, pool_end: Ipv4Addr, gateway_ip: Ipv4Addr) -> (r: Result<DhcpServer, PoolError>)
        ensures
            match r {
                Ok(server) => pool_start.bits() <= pool_end.bits() && server.wf() && server.view() == (DhcpServerView {
                    pool: pool_range(pool_start, pool_end),
                    gateway_ip,
                    leases: Map::empty(),
                    pending_offers: Map::empty(),
                }),
                Err(e) => pool_start.bits() > pool_end.bits() && e == PoolError::StartAfterEnd,
            },
    {
        let pool = match ip_range(pool_start, pool_end) {
            Ok(pool) => pool,
            Err(e) => return Err(e),
        };
        let server = DhcpServer { pool, gateway_ip, leases: VecMap::new(), pending_offers: VecMap::new(), clock: Clock::start() };
        Ok(server)
    }

    /// The length of the leases this server gives, in seconds.
    pub fn lease_seconds(&self) -> (r: u64)
        ensures
            r == DEFAULT_LEASE_SECONDS,
    {
        DEFAULT_LEASE_SECONDS
    }

    /// Whether someone holds `ip`.
    fn ip_in_use(&self, ip: Ipv4Addr) -> (r: bool)
        requires
            self.wf(),
        ensures
            r == in_use(self.view(), ip),
    {
        let ghost s = self.view();
        let ghost le = self.leases.entries_spec();
        let ghost pe = self.pending_offers.entries_spec();
        proof {
            self.leases.lemma_wf();
            self.pending_offers.lemma_wf();
        }
        let mut i: usize = 0;
        while i < self.leases.len()
            invariant
                s == self.view(),
                le == self.leases.entries_spec(),
                crate::vec_map::keys_distinct(le),
                i <= le.len(),
                forall|j: int| 0 <= j < i ==> (#[trigger] le[j]).1.ip != ip,
            decreases le.len() - i,
        {
            let e = self.leases.entry_at(i);
            if e.1.ip == ip {
                proof {
                    lemma_seq_to_map_index(le, i as int);
                    assert(holds(s, le[i as int].0, ip));
                }
                return true;
            }
            i = i + 1;
        }
        let mut k: usize = 0;
        while k < self.pending_offers.len()
            invariant
                s == self.view(),
                pe == self.pending_offers.entries_spec(),
                crate::vec_map::keys_distinct(pe),
                k <= pe.len(),
                forall|j: int| 0 <= j < k ==> (#[trigger] pe[j]).1.ip != ip,
            decreases pe.len() - k,
        {
            let e = self.pending_offers.entry_at(k);
            if e.1.ip == ip {
                proof {
                    lemma_seq_to_map_index(pe, k as int);
                    assert(holds(s, pe[k as int].0, ip));
                }
                return true;
            }
            k = k + 1;
        }
        proof {
            assert forall|m: MacAddr| !holds(s, m, ip) by {
                if s.leases.dom().contains(m) {
                    let j = choose|j: int| 0 <= j < le.len() && le[j].0 == m;
                    lemma_seq_to_map_index(le, j);
                    assert(le[j].1.ip != ip);
                }
                if s.pending_offers.dom().contains(m) {
                    let j = choose|j: int| 0 <= j < pe.len() && pe[j].0 == m;
                    lemma_seq_to_map_index(pe, j);
                    assert(pe[j].1.ip != ip);
                }
            }
        }
        false
    }

    /// The address to offer `mac`.
    fn pick_lease(&self, mac: MacAddr) -> (r: Option<Ipv4Addr>)
        requires
            self.wf(),
        ensures
            r == pick_spec(self.view(), mac),
    {
        if let Some(rec) = self.leases.get(&mac) {
            return Some(rec.ip);
        }
        if let Some(offer) = self.pending_offers.get(&mac) {
            return Some(offer.ip);
        }
        let ghost s = self.view();
        let mut i: usize = 0;
        while i < self.pool.len()
            invariant
                self.wf(),
                s == self.view(),
                !s.leases.dom().contains(mac),
                !s.pending_offers.dom().contains(mac),
                i <= s.pool.len(),
                first_free(s, 0) == first_free(s, i as nat),
            decreases s.pool.len() - i,
        {
            let candidate = self.pool[i];
            if !self.ip_in_use(candidate) {
                return Some(candidate);
            }
            i = i + 1;
        }
        None
    }

    /// Handles one datagram sent to the server port, at time `now`, answering through
    /// `host`.
    pub fn handle_datagram_at(&mut self, host: &mut Host, payload: &[u8], now: u64) -> (r: Option<DhcpServerEvent>)
        requires
            old(self).wf(),
            old(host).wf(),
        ensures
            final(self).wf(),
            final(host).wf(),
            final(host).name_view() == old(host).name_view(),
            (final(self).view(), final(host).view(), r) == handle_spec(old(self).view(), old(host).view(), payload@, now),
    {
        let message = match DhcpMessage::decode(payload) {
            Some(m) => m,
            None => return None,
        };
        let ghost s = self.view();
        match message {
            DhcpMessage::Discover { client_mac } => {
                let offered_ip = match self.pick_lease(client_mac) {
                    Some(ip) => ip,
                    None => return None,
                };
                proof {
                    lemma_pick_keeps_invariant(s, client_mac, sat_add(now, DHCP_OFFER_TIMEOUT_MS as nat));
                }
                self.pending_offers.insert(client_mac, PendingOffer { ip: offered_ip, expires_at: now.saturating_add(DHCP_OFFER_TIMEOUT_MS) });
                let reply = DhcpMessage::Offer { client_mac, offered_ip, lease_seconds: DEFAULT_LEASE_SECONDS, gateway_ip: self.gateway_ip };
                host.send_udp(DHCP_SERVER_PORT, Ipv4Addr::broadcast(), DHCP_CLIENT_PORT, reply.encode());
                Some(DhcpServerEvent::Offered { mac: client_mac, ip: offered_ip })
            },
            DhcpMessage::Request { client_mac, requested_ip } => {
                let reserved = match self.pending_offers.get(&client_mac) {
                    Some(offer) => Some(offer.ip),
                    None => match self.leases.get(&client_mac) {
                        Some(rec) => Some(rec.ip),
                        None => None,
                    },
                };
                if reserved != Some(requested_ip) {
                    return None;
                }
                proof {
                    lemma_request_keeps_invariant(s, client_mac, requested_ip, sat_add(now, lease_ms()));
                }
                self.leases.insert(client_mac, LeaseRecord { ip: requested_ip, expires_at: now.saturating_add(DEFAULT_LEASE_SECONDS * 1000) });
                self.pending_offers.remove(&client_mac);
                let reply = DhcpMessage::Ack { client_mac, assigned_ip: requested_ip, lease_seconds: DEFAULT_LEASE_SECONDS, gateway_ip: self.gateway_ip };
                host.send_udp(DHCP_SERVER_PORT, Ipv4Addr::broadcast(), DHCP_CLIENT_PORT, reply.encode());
                Some(DhcpServerEvent::Leased { mac: client_mac, ip: requested_ip })
            },
            DhcpMessage::Release { client_mac, released_ip } => {
                let matches = match self.leases.get(&client_mac) {
                    Some(rec) => rec.ip == released_ip,
                    None => false,
                };
                if matches {
                    proof {
                        lemma_removal_keeps_invariant(s, client_mac);
                    }
                    self.leases.remove(&client_mac);
                    self.pending_offers.remove(&client_mac);
                    return Some(DhcpServerEvent::Released { mac: client_mac, ip: released_ip });
                }
                None
            },
            _ => None,
        }
    }

    /// Handles one datagram sent to the server port now, answering through `host`.
    pub fn handle_datagram(&mut self, host: &mut Host, payload: &[u8]) -> (r: Option<DhcpServerEvent>)
        requires
            old(self).wf(),
            old(host).wf(),
        ensures
            final(self).wf(),
            final(host).wf(),
            final(host).name_view() == old(host).name_view(),
            exists|now: u64| (final(self).view(), final(host).view(), r) == handle_spec(old(self).view(), old(host).view(), payload@, now),
    {
        let now = self.clock.now_ms();
        self.handle_datagram_at(host, payload, now)
    }

    /// Drops the leases and offers that have run out at `now`, reporting each lease dropped.
    pub fn expire_at(&mut self, now: u64) -> (r: Vec<DhcpServerEvent>)
        requires
            old(self).wf(),
        ensures
            final(self).wf(),
            final(self).view() == (DhcpServerView {
                leases: live_leases(old(self).view(), now),
                pending_offers: live_offers(old(self).view(), now),
                ..old(self).view()
            }),
            r@.no_duplicates(),
            forall|e: DhcpServerEvent| r@.contains(e) <==> is_expiry_of(old(self).view(), now, e),
    {
        let ghost s = self.view();
        let ghost le = self.leases.entries_spec();
        let ghost pe = self.pending_offers.entries_spec();
        proof {
            self.leases.lemma_wf();
            self.pending_offers.lemma_wf();
        }
        let mut events: Vec<DhcpServerEvent> = Vec::new();
        let mut kept: VecMap<MacAddr, LeaseRecord> = VecMap::new();
        let mut i: usize = 0;
        while i < self.leases.len()
            invariant
                le == self.leases.entries_spec(),
                s.leases == seq_map_of(le),
                crate::vec_map::keys_distinct(le),
                i <= le.len(),
                kept.wf(),
                kept.view() == Map::new(
                    |m: MacAddr| exists|j: int| 0 <= j < i && le[j].0 == m && le[j].1.expires_at > now,
                    |m: MacAddr| s.leases[m],
                ),
                events@.no_duplicates(),
                forall|x: int| 0 <= x < events@.len() ==> exists|j: int| 0 <= j < i && le[j].1.expires_at <= now
                    && #[trigger] events@[x] == (DhcpServerEvent::Expired { mac: le[j].0, ip: le[j].1.ip }),
                forall|j: int| 0 <= j < i && le[j].1.expires_at <= now ==> events@.contains(
                    DhcpServerEvent::Expired { mac: (#[trigger] le[j]).0, ip: le[j].1.ip },
                ),
            decreases le.len() - i,
        {
            let (mac, rec) = *self.leases.entry_at(i);
            proof {
                lemma_seq_to_map_index(le, i as int);
            }
            if rec.expires_at <= now {
                let ev = DhcpServerEvent::Expired { mac, ip: rec.ip };
                proof {
                    assert(!events@.contains(ev)) by {
                        if events@.contains(ev) {
                            let x = choose|x: int| 0 <= x < events@.len() && events@[x] == ev;
                            let j = choose|j: int| 0 <= j < i && le[j].1.expires_at <= now
                                && events@[x] == (DhcpServerEvent::Expired { mac: le[j].0, ip: le[j].1.ip });
                            assert(le[j].0 == mac);
                        }
                    }
                }
                let ghost before = events@;
                events.push(ev);
                proof {
                    assert forall|x: int, y: int| 0 <= x < events@.len() && 0 <= y < events@.len() && x != y implies events@[x] != events@[y] by {
                        if x < before.len() && y < before.len() {
                        } else if x < before.len() {
                            assert(before.contains(events@[x]));
                        } else {
                            assert(before.contains(events@[y]));
                        }
                    }
                    assert forall|j: int| 0 <= j < i + 1 && le[j].1.expires_at <= now implies events@.contains(
                        DhcpServerEvent::Expired { mac: (#[trigger] le[j]).0, ip: le[j].1.ip },
                    ) by {
                        if j < i {
                            let x = choose|x: int| 0 <= x < before.len() && before[x] == (DhcpServerEvent::Expired { mac: le[j].0, ip: le[j].1.ip });
                            assert(events@[x] == before[x]);
                        } else {
                            assert(events@[before.len() as int] == ev);
                        }
                    }
                }
                assert(kept.view() =~= Map::new(
                    |m: MacAddr| exists|j: int| 0 <= j < i + 1 && le[j].0 == m && le[j].1.expires_at > now,
                    |m: MacAddr| s.leases[m],
                ));
            } else {
                proof {
                    assert(!kept.view().dom().contains(mac)) by {
                        if kept.view().dom().contains(mac) {
                            let j = choose|j: int| 0 <= j < i && le[j].0 == mac && le[j].1.expires_at > now;
                            assert(le[j].0 == le[i as int].0);
                        }
                    }
                }
                kept.insert(mac, rec);
                assert(kept.view() =~= Map::new(
                    |m: MacAddr| exists|j: int| 0 <= j < i + 1 && le[j].0 == m && le[j].1.expires_at > now,
                    |m: MacAddr| s.leases[m],
                ));
            }
            i = i + 1;
        }
        let mut kept_offers: VecMap<MacAddr, PendingOffer> = VecMap::new();
        let mut k: usize = 0;
        while k < self.pending_offers.len()
            invariant
                pe == self.pending_offers.entries_spec(),
                s.pending_offers == seq_map_of(pe),
                crate::vec_map::keys_distinct(pe),
                k <= pe.len(),
                kept_offers.wf(),
                kept_offers.view() == Map::new(
                    |m: MacAddr| exists|j: int| 0 <= j < k && pe[j].0 == m && pe[j].1.expires_at > now,
                    |m: MacAddr| s.pending_offers[m],
                ),
            decreases pe.len() - k,
        {
            let (mac, offer) = *self.pending_offers.entry_at(k);
            proof {
                lemma_seq_to_map_index(pe, k as int);
            }
            if offer.expires_at > now {
                proof {
                    assert(!kept_offers.view().dom().contains(mac)) by {
                        if kept_offers.view().dom().contains(mac) {
                            let j = choose|j: int| 0 <= j < k && pe[j].0 == mac && pe[j].1.expires_at > now;
                            assert(pe[j].0 == pe[k as int].0);
                        }
                    }
                }
                kept_offers.insert(mac, offer);
            }
            assert(kept_offers.view() =~= Map::new(
                |m: MacAddr| exists|j: int| 0 <= j < k + 1 && pe[j].0 == m && pe[j].1.expires_at > now,
                |m: MacAddr| s.pending_offers[m],
            ));
            k = k + 1;
        }
        proof {
            assert(kept.view() =~= live_leases(s, now)) by {
                assert forall|m: MacAddr| kept.view().dom().contains(m) <==> live_leases(s, now).dom().contains(m) by {
                    if s.leases.dom().contains(m) {
                        let j = choose|j: int| 0 <= j < le.len() && le[j].0 == m;
                        lemma_seq_to_map_index(le, j);
                    }
                }
            }
            assert(kept_offers.view() =~= live_offers(s, now)) by {
                assert forall|m: MacAddr| kept_offers.view().dom().contains(m) <==> live_offers(s, now).dom().contains(m) by {
                    if s.pending_offers.dom().contains(m) {
                        let j = choose|j: int| 0 <= j < pe.len() && pe[j].0 == m;
                        lemma_seq_to_map_index(pe, j);
                    }
                }
            }
            assert forall|e: DhcpServerEvent| events@.contains(e) <==> is_expiry_of(s, now, e) by {
                if events@.contains(e) {
                    let x = choose|x: int| 0 <= x < events@.len() && events@[x] == e;
                    let j = choose|j: int| 0 <= j < i && le[j].1.expires_at <= now
                        && events@[x] == (DhcpServerEvent::Expired { mac: le[j].0, ip: le[j].1.ip });
                    lemma_seq_to_map_index(le, j);
                    assert(s.leases.dom().contains(le[j].0));
                }
                if is_expiry_of(s, now, e) {
                    let m = choose|m: MacAddr| s.leases.dom().contains(m) && s.leases[m].expires_at <= now
                        && e == (DhcpServerEvent::Expired { mac: m, ip: s.leases[m].ip });
                    let j = choose|j: int| 0 <= j < le.len() && le[j].0 == m;
                    lemma_seq_to_map_index(le, j);
                }
            }
            let t = DhcpServerView { leases: live_leases(s, now), pending_offers: live_offers(s, now), ..s };
            lemma_shrink_keeps_invariant(s, t);
        }
        self.leases = kept;
        self.pending_offers = kept_offers;
        events
    }

    /// Drops the leases and offers that have run out now, reporting each lease dropped.
    pub fn expire(&mut self) -> (r: Vec<DhcpServerEvent>)
        requires
            old(self).wf(),
        ensures
            final(self).wf(),
            exists|now: u64| {
                &&& final(self).view() == (DhcpServerView {
                    leases: #[trigger] live_leases(old(self).view(), now),
                    pending_offers: live_offers(old(self).view(), now),
                    ..old(self).view()
                })
                &&& forall|e: DhcpServerEvent| r@.contains(e) <==> is_expiry_of(old(self).view(), now, e)
            },
            r@.no_duplicates(),
    {
        let now = self.clock.now_ms();
        self.expire_at(now)
    }

    /// The leases at `now`, in increasing order of hardware address, with the time each
    /// has left (0 once it has run out).
    pub fn leases_at(&self, now: u64) -> (r: Vec<LeaseEntry>)
        requires
            self.wf(),
        ensures
            r@.len() == self.view().leases.dom().len(),
            forall|i: int| 0 <= i < r@.len() ==> {
                let e = #[trigger] r@[i];
                &&& self.view().leases.dom().contains(e.mac)
                &&& e.ip == self.view().leases[e.mac].ip
                &&& e.remaining_ms == if self.view().leases[e.mac].expires_at > now {
                    (self.view().leases[e.mac].expires_at - now) as u64
                } else {
                    0
                }
            },
            forall|m: MacAddr| #[trigger] self.view().leases.dom().contains(m) ==> exists|i: int| 0 <= i < r@.len() && r@[i].mac == m,
            forall|i: int, j: int| 0 <= i < j < r@.len() ==> r@[i].mac != r@[j].mac,
            forall|i: int| 0 <= i && i + 1 < r@.len() ==> !lex_lt(#[trigger] r@[i + 1].mac.bytes(), r@[i].mac.bytes()),
    {
        let n = self.leases.len();
        let ghost es = self.leases.entries_spec();
        let ghost t = self.view().leases;
        proof {
            self.leases.lemma_wf();
        }
        let mut keys: Vec<Vec<u8>> = Vec::new();
        let mut i: usize = 0;
        while i < n
            invariant
                i <= n,
                n == es.len(),
                es == self.leases.entries_spec(),
                keys@.len() == i,
                forall|j: int| 0 <= j < i ==> (#[trigger] keys@[j])@ == es[j].0.bytes(),
            decreases n - i,
        {
            let e = self.leases.entry_at(i);
            let o = e.0.octets();
            let mut k: Vec<u8> = Vec::new();
            k.push(o[0]);
            k.push(o[1]);
            k.push(o[2]);
            k.push(o[3]);
            k.push(o[4]);
            k.push(o[5]);
            assert(k@ =~= es[i as int].0.bytes());
            keys.push(k);
            i = i + 1;
        }
        let p = sorted_positions(&keys);
        let ghost ks = keys@.map_values(|k: Vec<u8>| k@);
        let mut out: Vec<LeaseEntry> = Vec::new();
        let mut j: usize = 0;
        while j < n
            invariant
                j <= n,
                n == es.len(),
                es == self.leases.entries_spec(),
                p@.len() == n,
                forall|x: int| 0 <= x < n ==> #[trigger] p@[x] < n,
                out@.len() == j,
                forall|x: int| 0 <= x < j ==> {
                    let e = #[trigger] out@[x];
                    let q = es[p@[x] as int];
                    &&& e.mac == q.0
                    &&& e.ip == q.1.ip
                    &&& e.remaining_ms == if q.1.expires_at > now { (q.1.expires_at - now) as u64 } else { 0 }
                },
            decreases n - j,
        {
            let (mac, rec) = *self.leases.entry_at(p[j]);
            out.push(LeaseEntry { mac, ip: rec.ip, remaining_ms: rec.expires_at.saturating_sub(now) });
            j = j + 1;
        }
        proof {
            assert forall|x: int| 0 <= x < out@.len() implies t.dom().contains((#[trigger] out@[x]).mac) && t[out@[x].mac] == es[p@[x] as int].1 by {
                lemma_seq_to_map_index(es, p@[x] as int);
            }
            assert forall|x: int, y: int| 0 <= x < y < out@.len() implies out@[x].mac != out@[y].mac by {
                assert(p@[x] != p@[y]);
            }
            assert forall|m: MacAddr| #[trigger] t.dom().contains(m) implies exists|x: int| 0 <= x < out@.len() && out@[x].mac == m by {
                let e = choose|e: int| 0 <= e < es.len() && es[e].0 == m;
                assert(p@.contains(e as usize));
                let x = choose|x: int| 0 <= x < p@.len() && p@[x] == e as usize;
                assert(out@[x].mac == m);
            }
            let ms = out@.map_values(|e: LeaseEntry| e.mac);
            assert(t.dom() =~= ms.to_set()) by {
                assert forall|m: MacAddr| t.dom().contains(m) implies ms.to_set().contains(m) by {
                    let x = choose|x: int| 0 <= x < out@.len() && out@[x].mac == m;
                    assert(ms[x] == m);
                }
                assert forall|m: MacAddr| ms.to_set().contains(m) implies t.dom().contains(m) by {
                    let x = choose|x: int| 0 <= x < ms.len() && ms[x] == m;
                    assert(out@[x].mac == m);
                }
            }
            assert(ms.no_duplicates()) by {
                assert forall|x: int, y: int| 0 <= x < ms.len() && 0 <= y < ms.len() && x != y implies ms[x] != ms[y] by {
                    if x < y {
                        assert(out@[x].mac != out@[y].mac);
                    } else {
                        assert(out@[y].mac != out@[x].mac);
                    }
                }
            }
            ms.unique_seq_to_set();
            assert forall|x: int| 0 <= x && x + 1 < out@.len() implies !lex_lt(#[trigger] out@[x + 1].mac.bytes(), out@[x].mac.bytes()) by {
                assert(ks[p@[x + 1] as int] == es[p@[x + 1] as int].0.bytes());
                assert(ks[p@[x] as int] == es[p@[x] as int].0.bytes());
            }
        }
        out
    }

    /// The leases now, in increasing order of hardware address, with the time each has left.
    pub fn leases(&self) -> (r: Vec<LeaseEntry>)
        requires
            self.wf(),
        ensures
            r@.len() == self.view().leases.dom().len(),
            forall|i: int| 0 <= i < r@.len() ==> self.view().leases.dom().contains((#[trigger] r@[i]).mac)
                && r@[i].ip == self.view().leases[r@[i].mac].ip,
            forall|m: MacAddr| #[trigger] self.view().leases.dom().contains(m) ==> exists|i: int| 0 <= i < r@.len() && r@[i].mac == m,
            forall|i: int| 0 <= i && i + 1 < r@.len() ==> !lex_lt(#[trigger] r@[i + 1].mac.bytes(), r@[i].mac.bytes()),
    {
        let now = self.clock.now_ms();
        self.leases_at(now)
    }
}

/// The map a sequence of entries with distinct keys stands for.
pub open spec fn seq_map_of<V>(s: Seq<(MacAddr, V)>) -> Map<MacAddr, V> {
    crate::vec_map::seq_to_map(s)
}

/// Offering `mac` the address `pick_spec` gives keeps every address with one holder, from
/// the pool.
proof fn lemma_pick_keeps_invariant(s: DhcpServerView, mac: MacAddr, e: u64)
    requires
        addresses_distinct(s),
        addresses_from_pool(s),
        pick_spec(s, mac) is Some,
    ensures
        ({
            let t = DhcpServerView {
                pending_offers: s.pending_offers.insert(mac, PendingOffer { ip: pick_spec(s, mac)->0, expires_at: e }),
                ..s
            };
            addresses_distinct(t) && addresses_from_pool(t)
        }),
{
    let ip = pick_spec(s, mac)->0;
    if !s.leases.dom().contains(mac) && !s.pending_offers.dom().contains(mac) {
        lemma_first_free(s, 0);
    }
    let t = DhcpServerView { pending_offers: s.pending_offers.insert(mac, PendingOffer { ip, expires_at: e }), ..s };
    assert forall|m1: MacAddr, m2: MacAddr, a: Ipv4Addr| #[trigger] holds(t, m1, a) && #[trigger] holds(t, m2, a) implies m1 == m2 by {
        if m1 != mac {
            assert(holds(s, m1, a));
        }
        if m2 != mac {
            assert(holds(s, m2, a));
        }
        if m1 != mac && m2 == mac {
            assert(a == ip || holds(s, mac, a));
            if s.leases.dom().contains(mac) || s.pending_offers.dom().contains(mac) {
                assert(holds(s, mac, ip));
            } else {
                assert(!in_use(s, ip));
            }
        }
        if m1 == mac && m2 != mac {
            assert(a == ip || holds(s, mac, a));
            if s.leases.dom().contains(mac) || s.pending_offers.dom().contains(mac) {
                assert(holds(s, mac, ip));
            } else {
                assert(!in_use(s, ip));
            }
        }
    }
    assert forall|m: MacAddr, a: Ipv4Addr| #[trigger] holds(t, m, a) implies t.pool.contains(a) by {
        if m != mac {
            assert(holds(s, m, a));
        } else if a == ip {
            if s.leases.dom().contains(mac) || s.pending_offers.dom().contains(mac) {
                assert(holds(s, mac, ip));
            }
        } else {
            assert(holds(s, mac, a));
        }
    }
}

/// The first free address is a free address of the pool.
proof fn lemma_first_free(s: DhcpServerView, i: nat)
    ensures
        first_free(s, i) matches Some(ip) ==> s.pool.contains(ip) && !in_use(s, ip),
    decreases s.pool.len() - i,
{
    if i < s.pool.len() {
        if in_use(s, s.pool[i as int]) {
            lemma_first_free(s, i + 1);
        }
    }
}

/// Leasing `mac` the address kept for it keeps every address with one holder, from the pool.
proof fn lemma_request_keeps_invariant(s: DhcpServerView, mac: MacAddr, ip: Ipv4Addr, e: u64)
    requires
        addresses_distinct(s),
        addresses_from_pool(s),
        reserved_ip(s, mac) == Some(ip),
    ensures
        ({
            let t = DhcpServerView {
                leases: s.leases.insert(mac, LeaseRecord { ip, expires_at: e }),
                pending_offers: s.pending_offers.remove(mac),
                ..s
            };
            addresses_distinct(t) && addresses_from_pool(t)
        }),
{
    let t = DhcpServerView {
        leases: s.leases.insert(mac, LeaseRecord { ip, expires_at: e }),
        pending_offers: s.pending_offers.remove(mac),
        ..s
    };
    assert(holds(s, mac, ip));
    assert forall|m: MacAddr, a: Ipv4Addr| #[trigger] holds(t, m, a) implies holds(s, m, a) by {
        if m == mac {
            assert(a == ip);
        }
    }
}

/// Removing holdings keeps every address with one holder, from the pool.
proof fn lemma_shrink_keeps_invariant(s: DhcpServerView, t: DhcpServerView)
    requires
        addresses_distinct(s),
        addresses_from_pool(s),
        t.pool == s.pool,
        forall|m: MacAddr| #[trigger] t.leases.dom().contains(m) ==> s.leases.dom().contains(m) && t.leases[m] == s.leases[m],
        forall|m: MacAddr| #[trigger] t.pending_offers.dom().contains(m) ==> s.pending_offers.dom().contains(m)
            && t.pending_offers[m] == s.pending_offers[m],
    ensures
        addresses_distinct(t),
        addresses_from_pool(t),
{
    assert forall|m: MacAddr, a: Ipv4Addr| #[trigger] holds(t, m, a) implies holds(s, m, a) by {}
}

/// Releasing `mac` keeps every address with one holder, from the pool.
proof fn lemma_removal_keeps_invariant(s: DhcpServerView, mac: MacAddr)
    requires
        addresses_distinct(s),
        addresses_from_pool(s),
    ensures
        ({
            let t = DhcpServerView { leases: s.leases.remove(mac), pending_offers: s.pending_offers.remove(mac), ..s };
            addresses_distinct(t) && addresses_from_pool(t)
        }),
{
    let t = DhcpServerView { leases: s.leases.remove(mac), pending_offers: s.pending_offers.remove(mac), ..s };
    lemma_shrink_keeps_invariant(s, t);
}

/// A discover from a client that holds a lease is offered the address it has leased, that
/// address is kept for it as an offer, and its lease stays as it was.
pub proof fn lemma_discover_offers_leased_address(s: DhcpServerView, h: HostView, payload: Seq<u8>, now: u64, mac: MacAddr)
    requires
        dhcp_decoding(payload) == Some(DhcpMessage::Discover { client_mac: mac }),
        s.leases.dom().contains(mac),
    ensures
        handle_spec(s, h, payload, now).2 == Some(DhcpServerEvent::Offered { mac, ip: s.leases[mac].ip }),
        handle_spec(s, h, payload, now).0.pending_offers.dom().contains(mac),
        handle_spec(s, h, payload, now).0.pending_offers[mac].ip == s.leases[mac].ip,
        handle_spec(s, h, payload, now).0.leases == s.leases,
{
}

/// A request from a client for the address it has leased, when no other address is offered
/// to it, renews the lease: it is acknowledged, and the lease runs for the lease time from
/// `now` (to the end of the clock when that is further).
pub proof fn lemma_request_renews_lease(s: DhcpServerView, h: HostView, payload: Seq<u8>, now: u64, mac: MacAddr, ip: Ipv4Addr)
    requires
        dhcp_decoding(payload) == Some(DhcpMessage::Request { client_mac: mac, requested_ip: ip }),
        s.leases.dom().contains(mac),
        s.leases[mac].ip == ip,
        s.pending_offers.dom().contains(mac) ==> s.pending_offers[mac].ip == ip,
    ensures
        handle_spec(s, h, payload, now).2 == Some(DhcpServerEvent::Leased { mac, ip }),
        handle_spec(s, h, payload, now).0.leases == s.leases.insert(
            mac,
            LeaseRecord { ip, expires_at: sat_add(now, DEFAULT_LEASE_SECONDS as nat * 1000) },
        ),
        !handle_spec(s, h, payload, now).0.pending_offers.dom().contains(mac),
        handle_spec(s, h, payload, now).1 == reply_spec(
            h,
            DhcpMessage::Ack { client_mac: mac, assigned_ip: ip, lease_seconds: DEFAULT_LEASE_SECONDS, gateway_ip: s.gateway_ip },
        ),
{
}

/// `first_free(s, i)` is the first address from position `i` of the pool on that nobody
/// holds, and there is none only when every address from there on is held.
proof fn lemma_first_free_is_first(s: DhcpServerView, i: nat)
    ensures
        first_free(s, i) matches Some(ip) ==> exists|k: int|
            i <= k < s.pool.len() && s.pool[k] == ip && !in_use(s, s.pool[k]) && forall|j: int|
                i <= j < k ==> #[trigger] in_use(s, s.pool[j]),
        first_free(s, i) is None ==> forall|j: int| i <= j < s.pool.len() ==> #[trigger] in_use(s, s.pool[j]),
    decreases s.pool.len() - i,
{
    if i < s.pool.len() {
        if in_use(s, s.pool[i as int]) {
            lemma_first_free_is_first(s, i + 1);
            if let Some(ip) = first_free(s, i) {
                let k = choose|k: int|
                    i + 1 <= k < s.pool.len() && s.pool[k] == ip && !in_use(s, s.pool[k]) && forall|j: int|
                        i + 1 <= j < k ==> #[trigger] in_use(s, s.pool[j]);
                assert forall|j: int| i <= j < k implies #[trigger] in_use(s, s.pool[j]) by {
                    if j > i {
                        assert(i + 1 <= j < k);
                    }
                }
            }
        } else {
            assert(first_free(s, i) == Some(s.pool[i as int]));
        }
    }
}

/// A discover from a client that holds nothing is offered the first address of the pool
/// that nobody holds, and is offered nothing only when every address of the pool is held;
/// the offer is then kept for it.
pub proof fn lemma_discover_offers_first_free_address(s: DhcpServerView, h: HostView, payload: Seq<u8>, now: u64, mac: MacAddr)
    requires
        dhcp_decoding(payload) == Some(DhcpMessage::Discover { client_mac: mac }),
        !s.leases.dom().contains(mac),
        !s.pending_offers.dom().contains(mac),
    ensures
        handle_spec(s, h, payload, now).2 is None <==> forall|j: int| 0 <= j < s.pool.len() ==> #[trigger] in_use(s, s.pool[j]),
        handle_spec(s, h, payload, now).2 matches Some(e) ==> exists|k: int|
            0 <= k < s.pool.len() && e == (DhcpServerEvent::Offered { mac, ip: s.pool[k] }) && !in_use(s, s.pool[k])
                && handle_spec(s, h, payload, now).0.pending_offers[mac].ip == s.pool[k]
                && forall|j: int| 0 <= j < k ==> #[trigger] in_use(s, s.pool[j]),
{
    lemma_first_free_is_first(s, 0);
    if let Some(ip) = first_free(s, 0) {
        let k = choose|k: int|
            0 <= k < s.pool.len() && s.pool[k] == ip && !in_use(s, s.pool[k]) && forall|j: int|
                0 <= j < k ==> #[trigger] in_use(s, s.pool[j]);
        assert(!in_use(s, s.pool[k]));
    }
}

/// A request for the address offered to the client is leased to it for the lease time from
/// `now` and acknowledged, and the offer is used up.
pub proof fn lemma_request_takes_offer(s: DhcpServerView, h: HostView, payload: Seq<u8>, now: u64, mac: MacAddr, ip: Ipv4Addr)
    requires
        dhcp_decoding(payload) == Some(DhcpMessage::Request { client_mac: mac, requested_ip: ip }),
        s.pending_offers.dom().contains(mac),
        s.pending_offers[mac].ip == ip,
    ensures
        handle_spec(s, h, payload, now).2 == Some(DhcpServerEvent::Leased { mac, ip }),
        handle_spec(s, h, payload, now).0.leases == s.leases.insert(
            mac,
            LeaseRecord { ip, expires_at: sat_add(now, DEFAULT_LEASE_SECONDS as nat * 1000) },
        ),
        handle_spec(s, h, payload, now).0.pending_offers == s.pending_offers.remove(mac),
{
}

/// A request for an address that is neither offered nor leased to the client is refused:
/// nothing changes and nothing is sent.
pub proof fn lemma_request_for_unheld_address_refused(s: DhcpServerView, h: HostView, payload: Seq<u8>, now: u64, mac: MacAddr, ip: Ipv4Addr)
    requires
        dhcp_decoding(payload) == Some(DhcpMessage::Request { client_mac: mac, requested_ip: ip }),
        !holds(s, mac, ip),
    ensures
        handle_spec(s, h, payload, now) == (s, h, None::<DhcpServerEvent>),
{
}

/// A release of the address the client has leased frees it: the lease and any offer to the
/// client are gone and nothing is sent. A release of any other address changes nothing.
pub proof fn lemma_release_frees_lease(s: DhcpServerView, h: HostView, payload: Seq<u8>, now: u64, mac: MacAddr, ip: Ipv4Addr)
    requires
        dhcp_decoding(payload) == Some(DhcpMessage::Release { client_mac: mac, released_ip: ip }),
    ensures
        s.leases.dom().contains(mac) && s.leases[mac].ip == ip ==> handle_spec(s, h, payload, now) == (
            DhcpServerView { leases: s.leases.remove(mac), pending_offers: s.pending_offers.remove(mac), ..s },
            h,
            Some(DhcpServerEvent::Released { mac, ip }),
        ),
        !(s.leases.dom().contains(mac) && s.leases[mac].ip == ip) ==> handle_spec(s, h, payload, now) == (s, h, None::<DhcpServerEvent>),
{
}

/// A server never has one address leased or offered to two clients, and only gives out
/// addresses of its pool.
pub proof fn lemma_addresses_distinct(server: &DhcpServer)
    requires
        server.wf(),
    ensures
        addresses_distinct(server.view()),
        addresses_from_pool(server.view()),
{
}

} // verus!
