use tcpip_userland::internet::addr::Ipv4Addr;
use tcpip_userland::link::ethernet::MacAddr;
use tcpip_userland::link::SharedMedium;
use tcpip_userland::{run_until_idle, Host};

fn build_pair() -> ([Host; 2], SharedMedium) {
    let mut medium = SharedMedium::new();
    let hosts = [
        Host::new(
            "alpha",
            Ipv4Addr::new(10, 0, 0, 1),
            MacAddr::new([0x02, 0x00, 0x00, 0x00, 0x00, 0x01]),
            &mut medium,
        ),
        Host::new(
            "beta",
            Ipv4Addr::new(10, 0, 0, 2),
            MacAddr::new([0x02, 0x00, 0x00, 0x00, 0x00, 0x02]),
            &mut medium,
        ),
    ];
    (hosts, medium)
}

#[test]
fn udp_is_dispatched_per_port() {
    let (mut hosts, mut medium) = build_pair();
    {
        let (left, right) = hosts.split_at_mut(1);
        let host_a = &mut left[0];
        let host_b = &mut right[0];
        host_b.open_udp(7000);
        host_b.open_udp(7001);
        host_a.send_udp(50000, host_b.ip(), 7000, b"first".to_vec());
        host_a.send_udp(50001, host_b.ip(), 7001, b"second".to_vec());
    }
    assert!(run_until_idle(&mut hosts, &mut medium));

    let (left, right) = hosts.split_at_mut(1);
    let host_b = &mut right[0];
    assert_eq!(host_b.recv_udp(7000).unwrap().payload, b"first".to_vec());
    assert_eq!(host_b.recv_udp(7001).unwrap().payload, b"second".to_vec());
    assert!(left[0].recv_ping_reply().is_none());
}

#[test]
fn icmp_echo_round_trip_works() {
    let (mut hosts, mut medium) = build_pair();
    {
        let (left, right) = hosts.split_at_mut(1);
        let host_a = &mut left[0];
        let host_b = &mut right[0];
        let _ = host_a.ping(host_b.ip(), b"hello".to_vec());
    }
    assert!(run_until_idle(&mut hosts, &mut medium));
    let reply = hosts[0].recv_ping_reply().unwrap();
    assert_eq!(reply.source, Ipv4Addr::new(10, 0, 0, 2));
    assert_eq!(reply.payload, b"hello".to_vec());
}

#[test]
fn tcp_listener_can_accept_multiple_connections() {
    let (mut hosts, mut medium) = build_pair();
    let client_a;
    let client_b;
    {
        let (left, right) = hosts.split_at_mut(1);
        let host_a = &mut left[0];
        let host_b = &mut right[0];
        host_b.listen_tcp(9000);
        client_a = host_a.connect_tcp_from(41000, host_b.ip(), 9000);
        client_b = host_a.connect_tcp_from(41001, host_b.ip(), 9000);
    }
    assert!(run_until_idle(&mut hosts, &mut medium));

    let (server_a, server_b);
    {
        let (left, right) = hosts.split_at_mut(1);
        let host_a = &mut left[0];
        let host_b = &mut right[0];
        assert!(host_a.is_tcp_established(client_a));
        assert!(host_a.is_tcp_established(client_b));
        server_a = host_b.accept_tcp(9000).unwrap();
        server_b = host_b.accept_tcp(9000).unwrap();
        assert!(host_a.send_tcp(client_a, b"one".to_vec()));
        assert!(host_a.send_tcp(client_b, b"two".to_vec()));
    }
    assert!(run_until_idle(&mut hosts, &mut medium));

    {
        let (left, right) = hosts.split_at_mut(1);
        let host_a = &mut left[0];
        let host_b = &mut right[0];
        assert_eq!(host_b.recv_tcp(server_a).unwrap(), b"one".to_vec());
        assert_eq!(host_b.recv_tcp(server_b).unwrap(), b"two".to_vec());
        assert!(host_b.send_tcp(server_a, b"ack-one".to_vec()));
        assert!(host_b.send_tcp(server_b, b"ack-two".to_vec()));
        assert!(host_a.recv_tcp(client_a).is_none());
        assert!(host_a.recv_tcp(client_b).is_none());
    }
    assert!(run_until_idle(&mut hosts, &mut medium));

    let (left, _) = hosts.split_at_mut(1);
    let host_a = &mut left[0];
    assert_eq!(host_a.recv_tcp(client_a).unwrap(), b"ack-one".to_vec());
    assert_eq!(host_a.recv_tcp(client_b).unwrap(), b"ack-two".to_vec());
}

#[test]
fn udp_broadcast_reaches_other_host() {
    let mut medium = SharedMedium::new();
    let mut hosts = [
        Host::new(
            "alpha",
            Ipv4Addr::new(0, 0, 0, 0),
            MacAddr::new([0x02, 0x00, 0x00, 0x00, 0x00, 0x01]),
            &mut medium,
        ),
        Host::new(
            "beta",
            Ipv4Addr::new(10, 0, 0, 2),
            MacAddr::new([0x02, 0x00, 0x00, 0x00, 0x00, 0x02]),
            &mut medium,
        ),
    ];

    {
        let (left, right) = hosts.split_at_mut(1);
        let host_a = &mut left[0];
        let host_b = &mut right[0];
        host_b.open_udp(67);
        host_a.send_udp(68, Ipv4Addr::new(255, 255, 255, 255), 67, b"discover".to_vec());
    }
    assert!(run_until_idle(&mut hosts, &mut medium));

    let (_, right) = hosts.split_at_mut(1);
    let host_b = &mut right[0];
    assert_eq!(host_b.recv_udp(67).unwrap().payload, b"discover".to_vec());
}

#[test]
fn udp_to_closed_port_is_dropped() {
    let (mut hosts, mut medium) = build_pair();
    let beta = hosts[1].ip();
    hosts[0].send_udp(50000, beta, 7000, b"nobody".to_vec());
    assert!(run_until_idle(&mut hosts, &mut medium));
    assert!(hosts[1].recv_udp(7000).is_none());
    hosts[1].open_udp(7000);
    assert!(hosts[1].recv_udp(7000).is_none());
}

#[test]
fn datagram_peer_is_the_sender() {
    let (mut hosts, mut medium) = build_pair();
    hosts[1].open_udp(9);
    let beta = hosts[1].ip();
    hosts[0].send_udp(4242, beta, 9, b"x".to_vec());
    assert!(run_until_idle(&mut hosts, &mut medium));
    let d = hosts[1].recv_udp(9).unwrap();
    assert_eq!(*d.peer.ip(), Ipv4Addr::new(10, 0, 0, 1));
    assert_eq!(d.peer.port(), 4242);
}

#[test]
fn ping_uses_increasing_identifiers() {
    let (mut hosts, mut medium) = build_pair();
    let beta = hosts[1].ip();
    let first = hosts[0].ping(beta, b"a".to_vec());
    let second = hosts[0].ping(beta, b"b".to_vec());
    assert_eq!(first, (1, 1));
    assert_eq!(second, (2, 2));
    assert!(run_until_idle(&mut hosts, &mut medium));
    let r1 = hosts[0].recv_ping_reply().unwrap();
    let r2 = hosts[0].recv_ping_reply().unwrap();
    assert_eq!((r1.identifier, r1.sequence, r1.payload), (1, 1, b"a".to_vec()));
    assert_eq!((r2.identifier, r2.sequence, r2.payload), (2, 2, b"b".to_vec()));
}

#[test]
fn tcp_to_port_without_listener_stays_unestablished() {
    let (mut hosts, mut medium) = build_pair();
    let beta = hosts[1].ip();
    let key = hosts[0].connect_tcp_from(41000, beta, 9999);
    assert!(run_until_idle(&mut hosts, &mut medium));
    assert!(!hosts[0].is_tcp_established(key));
    assert!(!hosts[0].send_tcp(key, b"data".to_vec()));
    assert!(hosts[0].drop_tcp(key));
    assert!(!hosts[0].drop_tcp(key));
}

#[test]
fn new_host_starts_with_defaults() {
    let mut medium = SharedMedium::new();
    let host = Host::new("gamma", Ipv4Addr::new(192, 168, 1, 5), MacAddr::new([2, 0, 0, 0, 0, 7]), &mut medium);
    assert_eq!(host.name(), "gamma");
    assert_eq!(host.ip(), Ipv4Addr::new(192, 168, 1, 5));
    assert_eq!(host.mac(), MacAddr::new([2, 0, 0, 0, 0, 7]));
    assert!(!host.is_trace_enabled());
    assert!(!host.has_outgoing());
}
