use tcpip_userland::application::dhcp::{DhcpMessage, DEFAULT_LEASE_SECONDS, DHCP_CLIENT_PORT, DHCP_SERVER_PORT};
use tcpip_userland::application::dhcp_client::{AcquiredLease, DhcpExchange, ExchangeTimer, LeaseManager, MaintainEvent};
use tcpip_userland::application::dhcp_server::{DhcpServer, DhcpServerEvent, PoolError};
use tcpip_userland::internet::addr::{Ipv4Addr, SocketAddrV4};
use tcpip_userland::link::ethernet::MacAddr;
use tcpip_userland::link::SharedMedium;
use tcpip_userland::{run_until_idle, Host};

#[test]
fn dhcp_messages_round_trip() {
    let mac = MacAddr::new([0x02, 0, 0, 0, 0, 1]);
    let ip = Ipv4Addr::new(10, 0, 0, 10);
    let messages = [
        DhcpMessage::Discover { client_mac: mac },
        DhcpMessage::Offer {
            client_mac: mac,
            offered_ip: ip,
            lease_seconds: DEFAULT_LEASE_SECONDS,
            gateway_ip: Ipv4Addr::new(10, 0, 0, 1),
        },
        DhcpMessage::Request { client_mac: mac, requested_ip: ip },
        DhcpMessage::Ack {
            client_mac: mac,
            assigned_ip: ip,
            lease_seconds: DEFAULT_LEASE_SECONDS,
            gateway_ip: Ipv4Addr::new(10, 0, 0, 1),
        },
        DhcpMessage::Release { client_mac: mac, released_ip: ip },
    ];

    for message in messages {
        assert_eq!(DhcpMessage::decode(&message.encode()), Some(message));
    }
}

#[test]
fn dhcp_lines_are_text() {
    let mac = MacAddr::new([0x02, 0, 0, 0, 0, 0x1f]);
    let m = DhcpMessage::Offer {
        client_mac: mac,
        offered_ip: Ipv4Addr::new(10, 0, 0, 10),
        lease_seconds: 60,
        gateway_ip: Ipv4Addr::new(10, 0, 0, 1),
    };
    assert_eq!(m.encode(), b"OFFER 02:00:00:00:00:1f 10.0.0.10 60 10.0.0.1\n".to_vec());
    assert_eq!(DhcpMessage::decode(b"DISCOVER 02:00:00:00:00:1F"), Some(DhcpMessage::Discover { client_mac: mac }));
    assert_eq!(DhcpMessage::decode(b"HELLO 02:00:00:00:00:1f"), None);
    assert_eq!(DhcpMessage::decode(b"REQUEST 02:00:00:00:00:1f"), None);
    assert_eq!(DhcpMessage::decode(b"REQUEST 02:00:00:00:00:1f 10.0.0.300"), None);
}

fn server() -> DhcpServer {
    DhcpServer::new(Ipv4Addr::new(10, 0, 0, 10), Ipv4Addr::new(10, 0, 0, 11), Ipv4Addr::new(10, 0, 0, 1)).unwrap()
}

fn server_host(medium: &mut SharedMedium) -> Host {
    let mut host = Host::new("server", Ipv4Addr::new(10, 0, 0, 1), MacAddr::new([2, 0, 0, 0, 0, 0xfe]), medium);
    host.open_udp(DHCP_SERVER_PORT);
    host
}

#[test]
fn pool_must_be_ordered() {
    assert_eq!(
        DhcpServer::new(Ipv4Addr::new(10, 0, 0, 20), Ipv4Addr::new(10, 0, 0, 10), Ipv4Addr::new(10, 0, 0, 1)).err(),
        Some(PoolError::StartAfterEnd)
    );
    assert_eq!(server().lease_seconds(), 60);
}

#[test]
fn server_offers_leases_and_releases() {
    let mut medium = SharedMedium::new();
    let mut host = server_host(&mut medium);
    let mut s = server();
    let a = MacAddr::new([2, 0, 0, 0, 0, 1]);
    let b = MacAddr::new([2, 0, 0, 0, 0, 2]);
    let c = MacAddr::new([2, 0, 0, 0, 0, 3]);

    let discover = |m: MacAddr| DhcpMessage::Discover { client_mac: m }.encode();
    assert_eq!(
        s.handle_datagram_at(&mut host, &discover(a), 0),
        Some(DhcpServerEvent::Offered { mac: a, ip: Ipv4Addr::new(10, 0, 0, 10) })
    );
    assert_eq!(
        s.handle_datagram_at(&mut host, &discover(a), 10),
        Some(DhcpServerEvent::Offered { mac: a, ip: Ipv4Addr::new(10, 0, 0, 10) })
    );
    assert_eq!(
        s.handle_datagram_at(&mut host, &discover(b), 20),
        Some(DhcpServerEvent::Offered { mac: b, ip: Ipv4Addr::new(10, 0, 0, 11) })
    );
    assert_eq!(s.handle_datagram_at(&mut host, &discover(c), 30), None);

    let wrong = DhcpMessage::Request { client_mac: a, requested_ip: Ipv4Addr::new(10, 0, 0, 11) }.encode();
    assert_eq!(s.handle_datagram_at(&mut host, &wrong, 40), None);
    let right = DhcpMessage::Request { client_mac: a, requested_ip: Ipv4Addr::new(10, 0, 0, 10) }.encode();
    assert_eq!(
        s.handle_datagram_at(&mut host, &right, 50),
        Some(DhcpServerEvent::Leased { mac: a, ip: Ipv4Addr::new(10, 0, 0, 10) })
    );

    let leases = s.leases_at(1050);
    assert_eq!(leases.len(), 1);
    assert_eq!((leases[0].mac, leases[0].ip, leases[0].remaining_ms), (a, Ipv4Addr::new(10, 0, 0, 10), 59_000));

    let bad_release = DhcpMessage::Release { client_mac: a, released_ip: Ipv4Addr::new(10, 0, 0, 11) }.encode();
    assert_eq!(s.handle_datagram_at(&mut host, &bad_release, 60), None);
    let release = DhcpMessage::Release { client_mac: a, released_ip: Ipv4Addr::new(10, 0, 0, 10) }.encode();
    assert_eq!(
        s.handle_datagram_at(&mut host, &release, 70),
        Some(DhcpServerEvent::Released { mac: a, ip: Ipv4Addr::new(10, 0, 0, 10) })
    );
    assert!(s.leases_at(80).is_empty());
    assert_eq!(
        s.handle_datagram_at(&mut host, &discover(c), 90),
        Some(DhcpServerEvent::Offered { mac: c, ip: Ipv4Addr::new(10, 0, 0, 10) })
    );
    assert_eq!(s.handle_datagram_at(&mut host, b"garbage", 100), None);
}

#[test]
fn leases_and_offers_expire() {
    let mut medium = SharedMedium::new();
    let mut host = server_host(&mut medium);
    let mut s = server();
    let a = MacAddr::new([2, 0, 0, 0, 0, 1]);
    let b = MacAddr::new([2, 0, 0, 0, 0, 2]);
    s.handle_datagram_at(&mut host, &DhcpMessage::Discover { client_mac: a }.encode(), 0);
    s.handle_datagram_at(&mut host, &DhcpMessage::Request { client_mac: a, requested_ip: Ipv4Addr::new(10, 0, 0, 10) }.encode(), 0);
    s.handle_datagram_at(&mut host, &DhcpMessage::Discover { client_mac: b }.encode(), 1000);

    assert!(s.expire_at(5999).is_empty());
    assert!(s.expire_at(6000).is_empty());
    let request_b = DhcpMessage::Request { client_mac: b, requested_ip: Ipv4Addr::new(10, 0, 0, 11) }.encode();
    assert_eq!(s.handle_datagram_at(&mut host, &request_b, 6001), None);

    assert!(s.expire_at(59_999).is_empty());
    assert_eq!(
        s.expire_at(60_000),
        vec![DhcpServerEvent::Expired { mac: a, ip: Ipv4Addr::new(10, 0, 0, 10) }]
    );
    assert!(s.leases_at(60_000).is_empty());
}

#[test]
fn server_reply_reaches_client_port() {
    let mut medium = SharedMedium::new();
    let mut hosts = [
        server_host(&mut medium),
        Host::new("client", Ipv4Addr::new(0, 0, 0, 0), MacAddr::new([2, 0, 0, 0, 0, 1]), &mut medium),
    ];
    hosts[1].open_udp(DHCP_CLIENT_PORT);
    let mut s = server();
    let event = s.handle_datagram_at(&mut hosts[0], &DhcpMessage::Discover { client_mac: MacAddr::new([2, 0, 0, 0, 0, 1]) }.encode(), 0);
    assert!(event.is_some());
    assert!(run_until_idle(&mut hosts, &mut medium));
    let d = hosts[1].recv_udp(DHCP_CLIENT_PORT).unwrap();
    assert_eq!(d.peer.port(), DHCP_SERVER_PORT);
    assert_eq!(
        DhcpMessage::decode(&d.payload),
        Some(DhcpMessage::Offer {
            client_mac: MacAddr::new([2, 0, 0, 0, 0, 1]),
            offered_ip: Ipv4Addr::new(10, 0, 0, 10),
            lease_seconds: 60,
            gateway_ip: Ipv4Addr::new(10, 0, 0, 1),
        })
    );
}

#[test]
fn discovery_obtains_a_lease_from_the_server() {
    let mut medium = SharedMedium::new();
    let mac = MacAddr::new([2, 0, 0, 0, 0, 1]);
    let mut hosts = [server_host(&mut medium), Host::new("client", Ipv4Addr::new(0, 0, 0, 0), mac, &mut medium)];
    let mut s = server();
    let mut exchange = DhcpExchange::start_discovery(&mut hosts[1], mac);
    let mut lease = None;
    for round in 0..20u64 {
        assert!(run_until_idle(&mut hosts, &mut medium));
        while let Some(d) = hosts[0].recv_udp(DHCP_SERVER_PORT) {
            s.handle_datagram_at(&mut hosts[0], &d.payload, round);
        }
        assert!(run_until_idle(&mut hosts, &mut medium));
        while let Some(d) = hosts[1].recv_udp(DHCP_CLIENT_PORT) {
            if let Some(l) = exchange.handle_datagram(&mut hosts[1], &d.payload) {
                lease = Some(l);
            }
        }
        if lease.is_some() {
            break;
        }
    }
    let (ip, gateway, seconds) = lease.expect("lease");
    assert_eq!(ip, Ipv4Addr::new(10, 0, 0, 10));
    assert_eq!(gateway, Ipv4Addr::new(10, 0, 0, 1));
    assert_eq!(seconds, 60);
    assert_eq!(hosts[1].ip(), ip);
    assert_eq!(exchange.requested, Some(ip));
}

#[test]
fn exchange_timers() {
    let mac = MacAddr::new([2, 0, 0, 0, 0, 1]);
    let discovery = DhcpExchange { mac, renewal: false, requested: None };
    assert_eq!(discovery.on_timer(1000), ExchangeTimer::Wait);
    assert_eq!(discovery.on_timer(2001), ExchangeTimer::ResendDiscover);
    assert_eq!(discovery.on_timer(5001), ExchangeTimer::TimedOut);
    let offered = DhcpExchange { requested: Some(Ipv4Addr::new(10, 0, 0, 10)), ..discovery };
    assert_eq!(offered.on_timer(3000), ExchangeTimer::Wait);
    let renewal = DhcpExchange { mac, renewal: true, requested: Some(Ipv4Addr::new(10, 0, 0, 10)) };
    assert_eq!(renewal.on_timer(2000), ExchangeTimer::Wait);
    assert_eq!(renewal.on_timer(2001), ExchangeTimer::TimedOut);
}

fn lease(ip: [u8; 4], at: u64) -> AcquiredLease {
    AcquiredLease {
        actual_bind: SocketAddrV4::new(Ipv4Addr::new(127, 0, 0, 1), 40000),
        assigned_ip: Ipv4Addr::new(ip[0], ip[1], ip[2], ip[3]),
        gateway_ip: Ipv4Addr::new(10, 0, 0, 1),
        lease_seconds: 60,
        obtained_at: at,
    }
}

#[test]
fn lease_manager_renews_at_three_quarters() {
    let mac = MacAddr::new([2, 0, 0, 0, 0, 1]);
    let switch = SocketAddrV4::new(Ipv4Addr::new(127, 0, 0, 1), 9000);
    let m = LeaseManager::from_acquired(switch, mac, lease([10, 0, 0, 10], 1000));
    assert_eq!(m.renew_at, 46_000);
    assert_eq!(m.expires_at, 61_000);
    assert_eq!(m.release_ip(), Some(Ipv4Addr::new(10, 0, 0, 10)));
    assert_eq!(m.default_gateway(), Some(Ipv4Addr::new(10, 0, 0, 1)));
    assert!(!m.maintain_due(45_999));
    assert!(m.maintain_due(46_000));
}

#[test]
fn lease_manager_applies_renewals_and_expiry() {
    let mut medium = SharedMedium::new();
    let mac = MacAddr::new([2, 0, 0, 0, 0, 1]);
    let mut host = Host::new("client", Ipv4Addr::new(10, 0, 0, 10), mac, &mut medium);
    let switch = SocketAddrV4::new(Ipv4Addr::new(127, 0, 0, 1), 9000);
    let mut m = LeaseManager::from_acquired(switch, mac, lease([10, 0, 0, 10], 0));

    assert_eq!(m.apply_renewal(&mut host, Some(lease([10, 0, 0, 10], 45_000)), 45_000), MaintainEvent::Renewed(Ipv4Addr::new(10, 0, 0, 10)));
    assert_eq!(m.apply_renewal(&mut host, Some(lease([10, 0, 0, 12], 90_000)), 90_000), MaintainEvent::Reacquired(Ipv4Addr::new(10, 0, 0, 12)));
    assert_eq!(host.ip(), Ipv4Addr::new(10, 0, 0, 12));

    assert_eq!(m.apply_renewal(&mut host, None, 100_000), MaintainEvent::RetryLater);
    assert_eq!(m.retry_at, 101_000);
    assert!(!m.maintain_due(100_500));
    assert_eq!(m.apply_renewal(&mut host, None, 150_000), MaintainEvent::Expired(Ipv4Addr::new(10, 0, 0, 12)));
    assert_eq!(host.ip(), Ipv4Addr::new(0, 0, 0, 0));
    assert_eq!(m.release_ip(), None);
    assert_eq!(m.default_gateway(), None);
    assert!(m.maintain_due(151_000));
    m.update_switch_addr(SocketAddrV4::new(Ipv4Addr::new(127, 0, 0, 1), 9100));
    assert_eq!(m.switch_addr.port(), 9100);
}

#[test]
fn event_texts() {
    let mac = MacAddr::new([2, 0, 0, 0, 0, 0xab]);
    let ip = Ipv4Addr::new(10, 0, 0, 10);
    assert_eq!(DhcpServerEvent::Offered { mac, ip }.describe(), "offered 10.0.0.10 to 02:00:00:00:00:ab");
    assert_eq!(DhcpServerEvent::Leased { mac, ip }.describe(), "leased 10.0.0.10 to 02:00:00:00:00:ab");
    assert_eq!(DhcpServerEvent::Released { mac, ip }.describe(), "released 10.0.0.10 from 02:00:00:00:00:ab");
    assert_eq!(DhcpServerEvent::Expired { mac, ip }.describe(), "expired 10.0.0.10 from 02:00:00:00:00:ab");
}
