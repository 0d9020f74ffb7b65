//! The DHCP client: the message exchange that obtains or renews a lease, and the lease
//! manager that decides when to renew and what to do with the answer. Times are
//! milliseconds on the caller's clock.
use vstd::prelude::*;

use crate::application::dhcp::{dhcp_decoding, dhcp_encoding, DhcpMessage, DHCP_CLIENT_PORT, DHCP_SERVER_PORT};
use crate::application::dhcp_server::sat_add;
use crate::application::stack::{send_ip_spec, Host, HostView};
use crate::internet::addr::{Ipv4Addr, SocketAddrV4};
use crate::internet::ip::{IpProtocol, PacketView};
use crate::link::ethernet::MacAddr;
use crate::transport::udp::udp_encoding;

verus! {

/// How long to wait after a failed renewal before trying again, in milliseconds.
pub const DHCP_RETRY_INTERVAL_MS: u64 = 1000;
/// A lease is renewed once this many quarters of it have passed.
pub const DHCP_RENEW_NUMERATOR: u64 = 3;
pub const DHCP_RENEW_DENOMINATOR: u64 = 4;
/// How long discovery may take before it gives up, in milliseconds.
pub const DISCOVER_TIMEOUT_MS: u64 = 5000;
/// How long discovery waits for an offer before it asks again, in milliseconds.
pub const DISCOVER_RESEND_AFTER_MS: u64 = 2000;
/// How long a renewal may take before it gives up, in milliseconds.
pub const RENEWAL_TIMEOUT_MS: u64 = 2000;

/// A lease the client obtained.
#[derive(Clone, Copy, Debug, PartialEq, Eq, Structural)]
pub struct AcquiredLease {
    pub actual_bind: SocketAddrV4,
    pub assigned_ip: Ipv4Addr,
    pub gateway_ip: Ipv4Addr,
    pub lease_seconds: u64,
    pub obtained_at: u64,
}

/// The host after it broadcasts `m` from the client port to the server port.
pub open spec fn client_send_spec(h: HostView, m: DhcpMessage) -> HostView {
    send_ip_spec(
        h,
        PacketView {
            src: h.ip,
            dst: Ipv4Addr::broadcast_spec(),
            protocol: IpProtocol::Udp,
            ttl: 64,
            payload: udp_encoding(DHCP_CLIENT_PORT, DHCP_SERVER_PORT, dhcp_encoding(m)),
        },
        None,
    )
}

/// The host with the client port open.
pub open spec fn open_client_port(h: HostView) -> HostView {
    HostView {
        udp_ports: if h.udp_ports.dom().contains(DHCP_CLIENT_PORT) {
            h.udp_ports
        } else {
            h.udp_ports.insert(DHCP_CLIENT_PORT, Seq::empty())
        },
        ..h
    }
}

/// Broadcasts `m` from the client port to the server port.
fn send_to_servers(host: &mut Host, m: DhcpMessage)
    requires
        old(host).wf(),
    ensures
        final(host).wf(),
        final(host).name_view() == old(host).name_view(),
        final(host).view() == client_send_spec(old(host).view(), m),
{
    host.send_udp(DHCP_CLIENT_PORT, Ipv4Addr::broadcast(), DHCP_SERVER_PORT, m.encode());
}

/// What the client does when its exchange has waited `elapsed` milliseconds.
#[derive(Clone, Copy, Debug, PartialEq, Eq, Structural)]
pub enum ExchangeTimer {
    Wait,
    ResendDiscover,
    TimedOut,
}

/// One exchange with the servers: a discovery (discover, offer, request, ack) or a renewal
/// (request, ack).
#[derive(Clone, Copy, Debug, PartialEq, Eq, Structural)]
pub struct DhcpExchange {
    pub mac: MacAddr,
    pub renewal: bool,
    pub requested: Option<Ipv4Addr>,
}

/// The outcome of a datagram for an exchange: the exchange and host after it, and the
/// lease (address, gateway, seconds) when the datagram acknowledged one.
pub open spec fn exchange_datagram_spec(x: DhcpExchange, h: HostView, payload: Seq<u8>) -> (DhcpExchange, HostView, Option<(Ipv4Addr, Ipv4Addr, u64)>) {
    match dhcp_decoding(payload) {
        Some(DhcpMessage::Offer { client_mac, offered_ip, lease_seconds, gateway_ip }) => if !x.renewal && client_mac == x.mac {
            (
                DhcpExchange { requested: Some(offered_ip), ..x },
                client_send_spec(h, DhcpMessage::Request { client_mac: x.mac, requested_ip: offered_ip }),
                None,
            )
        } else {
            (x, h, None)
        },
        Some(DhcpMessage::Ack { client_mac, assigned_ip, lease_seconds, gateway_ip }) => if client_mac == x.mac {
            (x, HostView { ip: assigned_ip, default_gateway: Some(gateway_ip), ..h }, Some((assigned_ip, gateway_ip, lease_seconds)))
        } else {
            (x, h, None)
        },
        _ => (x, h, None),
    }
}

/// The client takes a lease only from an acknowledgement addressed to its own hardware
/// address: a lease that comes out of a datagram is the one such an Ack carries, and the
/// host then has its address and gateway; an Ack for another client changes neither the
/// exchange nor the host and yields no lease.
pub proof fn lemma_lease_only_from_own_ack(x: DhcpExchange, h: HostView, payload: Seq<u8>)
    ensures
        exchange_datagram_spec(x, h, payload).2 matches Some(lease) ==> dhcp_decoding(payload) == Some(
            DhcpMessage::Ack { client_mac: x.mac, assigned_ip: lease.0, lease_seconds: lease.2, gateway_ip: lease.1 },
        ) && exchange_datagram_spec(x, h, payload).1 == (HostView { ip: lease.0, default_gateway: Some(lease.1), ..h }),
        dhcp_decoding(payload) matches Some(DhcpMessage::Ack { client_mac, .. }) && client_mac != x.mac
            ==> exchange_datagram_spec(x, h, payload) == (x, h, None::<(Ipv4Addr, Ipv4Addr, u64)>),
{
}

/// During a discovery, an offer addressed to this client is requested: the exchange
/// remembers the offered address and a request for it goes out, and no lease is taken yet.
/// An offer for another client, or any offer during a renewal, changes nothing.
pub proof fn lemma_offer_is_requested(x: DhcpExchange, h: HostView, payload: Seq<u8>, mac: MacAddr, ip: Ipv4Addr, secs: u64, gw: Ipv4Addr)
    requires
        dhcp_decoding(payload) == Some(DhcpMessage::Offer { client_mac: mac, offered_ip: ip, lease_seconds: secs, gateway_ip: gw }),
    ensures
        !x.renewal && mac == x.mac ==> exchange_datagram_spec(x, h, payload) == (
            DhcpExchange { requested: Some(ip), ..x },
            client_send_spec(h, DhcpMessage::Request { client_mac: x.mac, requested_ip: ip }),
            None::<(Ipv4Addr, Ipv4Addr, u64)>,
        ),
        x.renewal || mac != x.mac ==> exchange_datagram_spec(x, h, payload) == (x, h, None::<(Ipv4Addr, Ipv4Addr, u64)>),
{
}

/// What the timer says: a discovery gives up after 5 s and asks again while no offer has
/// come after 2 s; a renewal gives up after 2 s.
pub open spec fn exchange_timer_spec(x: DhcpExchange, elapsed: u64) -> ExchangeTimer {
    if x.renewal {
        if elapsed > RENEWAL_TIMEOUT_MS {
            ExchangeTimer::TimedOut
        } else {
            ExchangeTimer::Wait
        }
    } else if elapsed > DISCOVER_TIMEOUT_MS {
        ExchangeTimer::TimedOut
    } else if x.requested is None && elapsed > DISCOVER_RESEND_AFTER_MS {
        ExchangeTimer::ResendDiscover
    } else {
        ExchangeTimer::Wait
    }
}

impl DhcpExchange {
    /// Starts a discovery for `mac`: opens the client port and broadcasts a discover.
    pub fn start_discovery(host: &mut Host, mac: MacAddr) -> (r: DhcpExchange)
        requires
            old(host).wf(),
        ensures
            final(host).wf(),
            final(host).name_view() == old(host).name_view(),
            r == (DhcpExchange { mac, renewal: false, requested: None }),
            final(host).view() == client_send_spec(open_client_port(old(host).view()), DhcpMessage::Discover { client_mac: mac }),
    {
        host.open_udp(DHCP_CLIENT_PORT);
        send_to_servers(host, DhcpMessage::Discover { client_mac: mac });
        DhcpExchange { mac, renewal: false, requested: None }
    }

    /// Starts a renewal of `requested_ip` for `mac`: opens the client port and broadcasts a
    /// request.
    pub fn start_renewal(host: &mut Host, mac: MacAddr, requested_ip: Ipv4Addr) -> (r: DhcpExchange)
        requires
            old(host).wf(),
        ensures
            final(host).wf(),
            final(host).name_view() == old(host).name_view(),
            r == (DhcpExchange { mac, renewal: true, requested: Some(requested_ip) }),
            final(host).view() == client_send_spec(
                open_client_port(old(host).view()),
                DhcpMessage::Request { client_mac: mac, requested_ip },
            ),
    {
        host.open_udp(DHCP_CLIENT_PORT);
        send_to_servers(host, DhcpMessage::Request { client_mac: mac, requested_ip });
        DhcpExchange { mac, renewal: true, requested: Some(requested_ip) }
    }

    /// Handles a datagram that reached the client port: a discovery answers an offer for
    /// its address with a request; an ack for its address configures the host and ends the
    /// exchange with the lease.
    pub fn handle_datagram(&mut self, host: &mut Host, payload: &[u8]) -> (r: Option<(Ipv4Addr, Ipv4Addr, u64)>)
        requires
            old(host).wf(),
        ensures
            final(host).wf(),
            final(host).name_view() == old(host).name_view(),
            (*final(self), final(host).view(), r) == exchange_datagram_spec(*old(self), old(host).view(), payload@),
    {
        match DhcpMessage::decode(payload) {
            Some(DhcpMessage::Offer { client_mac, offered_ip, lease_seconds: _, gateway_ip: _ }) => {
                if !self.renewal && client_mac == self.mac {
                    self.requested = Some(offered_ip);
                    send_to_servers(host, DhcpMessage::Request { client_mac: self.mac, requested_ip: offered_ip });
                }
                None
            },
            Some(DhcpMessage::Ack { client_mac, assigned_ip, lease_seconds, gateway_ip }) => {
                if client_mac == self.mac {
                    host.set_ip(assigned_ip);
                    host.set_default_gateway(Some(gateway_ip));
                    Some((assigned_ip, gateway_ip, lease_seconds))
                } else {
                    None
                }
            },
            _ => None,
        }
    }

    /// What to do once the exchange has run for `elapsed` milliseconds.
    pub fn on_timer(&self, elapsed: u64) -> (r: ExchangeTimer)
        ensures
            r == exchange_timer_spec(*self, elapsed),
    {
        if self.renewal {
            if elapsed > RENEWAL_TIMEOUT_MS {
                ExchangeTimer::TimedOut
            } else {
                ExchangeTimer::Wait
            }
        } else if elapsed > DISCOVER_TIMEOUT_MS {
            ExchangeTimer::TimedOut
        } else if self.requested.is_none() && elapsed > DISCOVER_RESEND_AFTER_MS {
            ExchangeTimer::ResendDiscover
        } else {
            ExchangeTimer::Wait
        }
    }

    /// Broadcasts the discover again.
    pub fn resend_discover(&self, host: &mut Host)
        requires
            old(host).wf(),
        ensures
            final(host).wf(),
            final(host).name_view() == old(host).name_view(),
            final(host).view() == client_send_spec(old(host).view(), DhcpMessage::Discover { client_mac: self.mac }),
    {
        send_to_servers(host, DhcpMessage::Discover { client_mac: self.mac });
    }
}

/// Broadcasts the release of `released_ip` by `mac`.
pub fn queue_release(host: &mut Host, mac: MacAddr, released_ip: Ipv4Addr)
    requires
        old(host).wf(),
    ensures
        final(host).wf(),
        final(host).name_view() == old(host).name_view(),
        final(host).view() == client_send_spec(
            open_client_port(old(host).view()),
            DhcpMessage::Release { client_mac: mac, released_ip },
        ),
{
    host.open_udp(DHCP_CLIENT_PORT);
    send_to_servers(host, DhcpMessage::Release { client_mac: mac, released_ip });
}

/// The state of a lease manager.
#[derive(Clone, Copy, Debug, PartialEq, Eq, Structural)]
pub struct LeaseManager {
    pub switch_addr: SocketAddrV4,
    pub mac: MacAddr,
    pub assigned_ip: Option<Ipv4Addr>,
    pub default_gateway: Option<Ipv4Addr>,
    pub renew_at: u64,
    pub expires_at: u64,
    pub retry_at: u64,
}

/// The milliseconds after which a lease of `seconds` is renewed: three quarters of it.
pub open spec fn renew_after_ms(seconds: u64) -> nat {
    if seconds * 750 <= u64::MAX {
        (seconds * 750) as nat
    } else {
        u64::MAX as nat
    }
}

/// The milliseconds of a lease of `seconds`.
pub open spec fn lease_length_ms(seconds: u64) -> nat {
    if seconds * 1000 <= u64::MAX {
        (seconds * 1000) as nat
    } else {
        u64::MAX as nat
    }
}

/// A manager for a lease just obtained: renew at three quarters of it, expiry at its end,
/// and a retry allowed at once.
pub open spec fn from_acquired_spec(switch_addr: SocketAddrV4, mac: MacAddr, lease: AcquiredLease) -> LeaseManager {
    LeaseManager {
        switch_addr,
        mac,
        assigned_ip: Some(lease.assigned_ip),
        default_gateway: Some(lease.gateway_ip),
        renew_at: sat_add(lease.obtained_at, renew_after_ms(lease.lease_seconds)),
        expires_at: sat_add(lease.obtained_at, lease_length_ms(lease.lease_seconds)),
        retry_at: lease.obtained_at,
    }
}

/// What maintenance did.
#[derive(Clone, Copy, Debug, PartialEq, Eq, Structural)]
pub enum MaintainEvent {
    /// The same address was obtained again.
    Renewed(Ipv4Addr),
    /// Another address was obtained, or one after none.
    Reacquired(Ipv4Addr),
    /// The attempt failed and the lease on this address ran out: the host lost it.
    Expired(Ipv4Addr),
    /// The attempt failed; another comes after the retry interval.
    RetryLater,
}

/// Renewal is due at `now`: the retry time has come, and the lease (if any) has reached
/// its renewal time.
pub open spec fn maintain_due_spec(m: LeaseManager, now: u64) -> bool {
    now >= m.retry_at && !(m.assigned_ip is Some && now < m.renew_at)
}

/// The manager, host and event after a renewal attempt begun at `now` ends with
/// `outcome`: a lease obtained replaces the manager's state and configures the host; a
/// failure past the lease's expiry unconfigures the host; any failure delays the next
/// attempt by the retry interval.
pub open spec fn renewal_result_spec(m: LeaseManager, h: HostView, outcome: Option<AcquiredLease>, now: u64) -> (LeaseManager, HostView, MaintainEvent) {
    match outcome {
        Some(lease) => {
            let n = from_acquired_spec(m.switch_addr, m.mac, lease);
            (
                n,
                HostView { ip: lease.assigned_ip, default_gateway: n.default_gateway, ..h },
                if m.assigned_ip == Some(lease.assigned_ip) {
                    MaintainEvent::Renewed(lease.assigned_ip)
                } else {
                    MaintainEvent::Reacquired(lease.assigned_ip)
                },
            )
        },
        None => if m.assigned_ip is Some && now >= m.expires_at {
            (
                LeaseManager { assigned_ip: None, default_gateway: None, retry_at: sat_add(now, DHCP_RETRY_INTERVAL_MS as nat), ..m },
                HostView { ip: Ipv4Addr(0, 0, 0, 0), default_gateway: None, ..h },
                MaintainEvent::Expired(m.assigned_ip->0),
            )
        } else {
            (LeaseManager { retry_at: sat_add(now, DHCP_RETRY_INTERVAL_MS as nat), ..m }, h, MaintainEvent::RetryLater)
        },
    }
}

impl LeaseManager {
    /// A manager for `lease`, obtained for `mac` through the switch at `switch_addr`.
    pub fn from_acquired(switch_addr: SocketAddrV4, mac: MacAddr, lease: AcquiredLease) -> (r: LeaseManager)
        ensures
            r == from_acquired_spec(switch_addr, mac, lease),
    {
        let per_second: u64 = 1000 * DHCP_RENEW_NUMERATOR / DHCP_RENEW_DENOMINATOR;
        assert(per_second == 750);
        let secs = lease.lease_seconds;
        assert(secs <= u64::MAX / 750 <==> secs * 750 <= u64::MAX) by (nonlinear_arith);
        assert(secs <= u64::MAX / 1000 <==> secs * 1000 <= u64::MAX) by (nonlinear_arith);
        let renew_after = if lease.lease_seconds <= u64::MAX / per_second {
            lease.lease_seconds * per_second
        } else {
            u64::MAX
        };
        let length = if lease.lease_seconds <= u64::MAX / 1000 {
            lease.lease_seconds * 1000
        } else {
            u64::MAX
        };
        LeaseManager {
            switch_addr,
            mac,
            assigned_ip: Some(lease.assigned_ip),
            default_gateway: Some(lease.gateway_ip),
            renew_at: lease.obtained_at.saturating_add(renew_after),
            expires_at: lease.obtained_at.saturating_add(length),
            retry_at: lease.obtained_at,
        }
    }

    /// Points the manager at another switch.
    pub fn update_switch_addr(&mut self, switch_addr: SocketAddrV4)
        ensures
            *final(self) == (LeaseManager { switch_addr, ..*old(self) }),
    {
        self.switch_addr = switch_addr;
    }

    /// The address to release on exit, if the manager holds one.
    pub fn release_ip(&self) -> (r: Option<Ipv4Addr>)
        ensures
            r == self.assigned_ip,
    {
        self.assigned_ip
    }

    /// The gateway the lease named, if any.
    pub fn default_gateway(&self) -> (r: Option<Ipv4Addr>)
        ensures
            r == self.default_gateway,
    {
        self.default_gateway
    }

    /// Whether a renewal attempt is due at `now`.
    pub fn maintain_due(&self, now: u64) -> (r: bool)
        ensures
            r == maintain_due_spec(*self, now),
    {
        if now < self.retry_at {
            return false;
        }
        if self.assigned_ip.is_some() && now < self.renew_at {
            return false;
        }
        true
    }

    /// Applies the outcome of a renewal attempt begun at `now` (the lease obtained, or
    /// `None` when none was) to the manager and to `host`.
    pub fn apply_renewal(&mut self, host: &mut Host, outcome: Option<AcquiredLease>, now: u64) -> (r: MaintainEvent)
        requires
            old(host).wf(),
        ensures
            final(host).wf(),
            final(host).name_view() == old(host).name_view(),
            (*final(self), final(host).view(), r) == renewal_result_spec(*old(self), old(host).view(), outcome, now),
    {
        match outcome {
            Some(lease) => {
                let previous_ip = self.assigned_ip;
                let next_ip = lease.assigned_ip;
                *self = LeaseManager::from_acquired(self.switch_addr, self.mac, lease);
                if host.ip() != next_ip {
                    host.set_ip(next_ip);
                }
                host.set_default_gateway(self.default_gateway);
                if previous_ip == Some(next_ip) {
                    MaintainEvent::Renewed(next_ip)
                } else {
                    MaintainEvent::Reacquired(next_ip)
                }
            },
            None => {
                let mut event = MaintainEvent::RetryLater;
                if self.assigned_ip.is_some() && now >= self.expires_at {
                    if let Some(expired_ip) = self.assigned_ip {
                        self.assigned_ip = None;
                        host.set_ip(Ipv4Addr::unspecified());
                        self.default_gateway = None;
                        host.set_default_gateway(None);
                        event = MaintainEvent::Expired(expired_ip);
                    }
                }
                self.retry_at = now.saturating_add(DHCP_RETRY_INTERVAL_MS);
                event
            },
        }
    }
}

} // verus!
