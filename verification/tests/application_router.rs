use tcpip_userland::application::router::{
    dhcp_pool_for_interface, forward_pending, lookup_route, masked, parse_cidr, prefix_len_to_mask, resolve_egress,
    CidrError, InterfaceConfig, InterfaceId, InterfaceLinkMode, Route,
};
use tcpip_userland::internet::addr::{Ipv4Addr, SocketAddrV4};
use tcpip_userland::internet::ip::Ipv4Packet;
use tcpip_userland::link::ethernet::MacAddr;
use tcpip_userland::link::SharedMedium;
use tcpip_userland::Host;

struct Topology {
    hosts: [Host; 6],
    lan1: SharedMedium,
    transit: SharedMedium,
    lan2: SharedMedium,
}

fn build_routed_topology() -> Topology {
    let mut lan1 = SharedMedium::new();
    let mut transit = SharedMedium::new();
    let mut lan2 = SharedMedium::new();

    let mut left_host = Host::new(
        "left-host",
        Ipv4Addr::new(10, 0, 1, 10),
        MacAddr::new([0x02, 0x00, 0x00, 0x00, 0x01, 0x0a]),
        &mut lan1,
    );
    left_host.set_default_gateway(Some(Ipv4Addr::new(10, 0, 1, 1)));

    let mut router1_left = Host::new(
        "router1-left",
        Ipv4Addr::new(10, 0, 1, 1),
        MacAddr::new([0x02, 0x00, 0x00, 0x01, 0x01, 0x01]),
        &mut lan1,
    );
    router1_left.enable_ip_forwarding();

    let mut router1_right = Host::new(
        "router1-right",
        Ipv4Addr::new(10, 0, 12, 1),
        MacAddr::new([0x02, 0x00, 0x00, 0x01, 0x0c, 0x01]),
        &mut transit,
    );
    router1_right.enable_ip_forwarding();

    let mut router2_left = Host::new(
        "router2-left",
        Ipv4Addr::new(10, 0, 12, 2),
        MacAddr::new([0x02, 0x00, 0x00, 0x02, 0x0c, 0x02]),
        &mut transit,
    );
    router2_left.enable_ip_forwarding();

    let mut router2_right = Host::new(
        "router2-right",
        Ipv4Addr::new(10, 0, 2, 1),
        MacAddr::new([0x02, 0x00, 0x00, 0x02, 0x02, 0x01]),
        &mut lan2,
    );
    router2_right.enable_ip_forwarding();

    let mut right_host = Host::new(
        "right-host",
        Ipv4Addr::new(10, 0, 2, 10),
        MacAddr::new([0x02, 0x00, 0x00, 0x00, 0x02, 0x0a]),
        &mut lan2,
    );
    right_host.set_default_gateway(Some(Ipv4Addr::new(10, 0, 2, 1)));

    Topology {
        hosts: [left_host, router1_left, router1_right, router2_left, router2_right, right_host],
        lan1,
        transit,
        lan2,
    }
}

fn run_routed_until_idle(t: &mut Topology) {
    loop {
        let mut progressed = false;
        for (i, host) in t.hosts.iter_mut().enumerate() {
            let medium = match i {
                0 | 1 => &mut t.lan1,
                2 | 3 => &mut t.transit,
                _ => &mut t.lan2,
            };
            if host.has_outgoing() {
                progressed = true;
            }
            if host.tick(medium) > 0 {
                progressed = true;
            }
        }

        progressed |= route_packet_from_left_router(&mut t.hosts);
        progressed |= route_packet_from_right_router(&mut t.hosts);

        if !progressed {
            break;
        }
    }
}

fn route_packet_from_left_router(hosts: &mut [Host; 6]) -> bool {
    let mut progressed = false;
    while let Some(packet) = hosts[1].recv_forwarded_ipv4() {
        progressed = true;
        route_router1_ingress_left(packet, &mut hosts[2]);
    }
    while let Some(packet) = hosts[2].recv_forwarded_ipv4() {
        progressed = true;
        route_router1_ingress_right(packet, &mut hosts[1]);
    }
    progressed
}

fn route_packet_from_right_router(hosts: &mut [Host; 6]) -> bool {
    let mut progressed = false;
    while let Some(packet) = hosts[3].recv_forwarded_ipv4() {
        progressed = true;
        route_router2_ingress_left(packet, &mut hosts[4]);
    }
    while let Some(packet) = hosts[4].recv_forwarded_ipv4() {
        progressed = true;
        route_router2_ingress_right(packet, &mut hosts[3]);
    }
    progressed
}

fn route_router1_ingress_left(packet: Ipv4Packet, router1_right: &mut Host) {
    if packet.dst.octets()[0..3] == [10, 0, 12] {
        let _ = router1_right.send_ipv4_via(packet, None);
    } else if packet.dst.octets()[0..3] == [10, 0, 2] {
        let _ = router1_right.send_ipv4_via(packet, Some(Ipv4Addr::new(10, 0, 12, 2)));
    }
}

fn route_router1_ingress_right(packet: Ipv4Packet, router1_left: &mut Host) {
    if packet.dst.octets()[0..3] == [10, 0, 1] {
        let _ = router1_left.send_ipv4_via(packet, None);
    }
}

fn route_router2_ingress_left(packet: Ipv4Packet, router2_right: &mut Host) {
    if packet.dst.octets()[0..3] == [10, 0, 2] {
        let _ = router2_right.send_ipv4_via(packet, None);
    }
}

fn route_router2_ingress_right(packet: Ipv4Packet, router2_left: &mut Host) {
    if packet.dst.octets()[0..3] == [10, 0, 1] {
        let _ = router2_left.send_ipv4_via(packet, Some(Ipv4Addr::new(10, 0, 12, 1)));
    }
}

#[test]
fn udp_crosses_two_routers() {
    let mut t = build_routed_topology();
    t.hosts[5].open_udp(7000);

    let dst = t.hosts[5].ip();
    t.hosts[0].send_udp(6000, dst, 7000, b"hello-through-l3".to_vec());
    run_routed_until_idle(&mut t);

    let datagram = t.hosts[5].recv_udp(7000).expect("udp datagram");
    assert_eq!(*datagram.peer.ip(), t.hosts[0].ip());
    assert_eq!(datagram.payload, b"hello-through-l3".to_vec());
}

#[test]
fn icmp_crosses_two_routers() {
    let mut t = build_routed_topology();

    let dst = t.hosts[5].ip();
    let _ = t.hosts[0].ping(dst, b"ping-over-routers".to_vec());
    run_routed_until_idle(&mut t);

    let reply = t.hosts[0].recv_ping_reply().expect("icmp echo reply");
    assert_eq!(reply.source, t.hosts[5].ip());
    assert_eq!(reply.payload, b"ping-over-routers".to_vec());
}

fn route(net: [u8; 4], prefix_len: u8, next_hop: Option<Ipv4Addr>) -> Route {
    Route { network: Ipv4Addr::new(net[0], net[1], net[2], net[3]), prefix_len, next_hop }
}

#[test]
fn masks_follow_prefix_lengths() {
    assert_eq!(prefix_len_to_mask(0), Ipv4Addr::new(0, 0, 0, 0));
    assert_eq!(prefix_len_to_mask(8), Ipv4Addr::new(255, 0, 0, 0));
    assert_eq!(prefix_len_to_mask(24), Ipv4Addr::new(255, 255, 255, 0));
    assert_eq!(prefix_len_to_mask(30), Ipv4Addr::new(255, 255, 255, 252));
    assert_eq!(prefix_len_to_mask(32), Ipv4Addr::new(255, 255, 255, 255));
    assert_eq!(masked(Ipv4Addr::new(10, 1, 2, 3), 16), 0x0a01_0000);
}

#[test]
fn lookup_prefers_longest_prefix_then_first() {
    let routes = vec![
        route([0, 0, 0, 0], 0, Some(Ipv4Addr::new(10, 0, 0, 1))),
        route([10, 0, 0, 0], 8, Some(Ipv4Addr::new(10, 0, 0, 2))),
        route([10, 0, 2, 0], 24, None),
        route([10, 0, 2, 0], 24, Some(Ipv4Addr::new(10, 0, 0, 3))),
    ];
    assert_eq!(lookup_route(&routes, Ipv4Addr::new(10, 0, 2, 9)), Some(routes[2]));
    assert_eq!(lookup_route(&routes, Ipv4Addr::new(10, 9, 9, 9)), Some(routes[1]));
    assert_eq!(lookup_route(&routes, Ipv4Addr::new(8, 8, 8, 8)), Some(routes[0]));
    assert_eq!(lookup_route(&routes[1..], Ipv4Addr::new(8, 8, 8, 8)), None);
}

#[test]
fn cidr_texts_are_read_and_masked() {
    assert_eq!(parse_cidr("10.0.2.77/24"), Ok((Ipv4Addr::new(10, 0, 2, 0), 24)));
    assert_eq!(parse_cidr("0.0.0.0/0"), Ok((Ipv4Addr::new(0, 0, 0, 0), 0)));
    assert_eq!(parse_cidr("10.0.2.0"), Err(CidrError::MissingSlash));
    assert_eq!(parse_cidr("10.0.2.0/x"), Err(CidrError::BadPrefix));
    assert_eq!(parse_cidr("10.0.2.0/33"), Err(CidrError::PrefixTooLong));
    assert_eq!(parse_cidr("10.0.2/24"), Err(CidrError::BadNetwork));
}

fn interface(label: &'static str, ip: [u8; 4], mode: InterfaceLinkMode) -> InterfaceConfig {
    InterfaceConfig {
        label,
        mode,
        ip: Ipv4Addr::new(ip[0], ip[1], ip[2], ip[3]),
        prefix_len: 24,
        mac: MacAddr::new([2, 0, 0, 0, 0, ip[3]]),
    }
}

#[test]
fn egress_follows_the_next_hop_subnet() {
    let left = interface("if0", [10, 0, 1, 1], InterfaceLinkMode::Listen);
    let right = interface("if1", [10, 0, 12, 1], InterfaceLinkMode::Listen);
    let direct = route([10, 0, 1, 0], 24, None);
    let via = route([10, 0, 2, 0], 24, Some(Ipv4Addr::new(10, 0, 12, 2)));
    assert_eq!(resolve_egress(direct, Ipv4Addr::new(10, 0, 1, 7), left, right), Some((InterfaceId::Left, None)));
    assert_eq!(
        resolve_egress(via, Ipv4Addr::new(10, 0, 2, 7), left, right),
        Some((InterfaceId::Right, Some(Ipv4Addr::new(10, 0, 12, 2))))
    );
    assert_eq!(resolve_egress(direct, Ipv4Addr::new(10, 0, 9, 7), left, right), None);
    assert_eq!(left.network(), Ipv4Addr::new(10, 0, 1, 0));
    assert!(left.contains(Ipv4Addr::new(10, 0, 1, 200)));
    assert!(!left.contains(Ipv4Addr::new(10, 0, 2, 1)));
}

#[test]
fn dhcp_pool_is_served_on_listening_interfaces() {
    let listen = interface("if0", [10, 0, 1, 1], InterfaceLinkMode::Listen);
    let uplink = interface(
        "if1",
        [10, 0, 12, 1],
        InterfaceLinkMode::Uplink(SocketAddrV4::new(Ipv4Addr::new(127, 0, 0, 1), 5000)),
    );
    assert_eq!(
        dhcp_pool_for_interface(listen),
        Some((Ipv4Addr::new(10, 0, 1, 10), Ipv4Addr::new(10, 0, 1, 99)))
    );
    assert_eq!(dhcp_pool_for_interface(uplink), None);
}

#[test]
fn forward_pending_moves_packets_between_interfaces() {
    let mut lan1 = SharedMedium::new();
    let mut lan2 = SharedMedium::new();
    let left_if = interface("if0", [10, 0, 1, 1], InterfaceLinkMode::Listen);
    let right_if = interface("if1", [10, 0, 2, 1], InterfaceLinkMode::Listen);
    let routes = vec![route([10, 0, 1, 0], 24, None), route([10, 0, 2, 0], 24, None)];

    let mut sender = Host::new("sender", Ipv4Addr::new(10, 0, 1, 10), MacAddr::new([2, 0, 0, 0, 1, 10]), &mut lan1);
    sender.set_default_gateway(Some(Ipv4Addr::new(10, 0, 1, 1)));
    let mut left = Host::new("router-left", left_if.ip, left_if.mac, &mut lan1);
    left.enable_ip_forwarding();
    let mut right = Host::new("router-right", right_if.ip, right_if.mac, &mut lan2);
    right.enable_ip_forwarding();
    let mut receiver = Host::new("receiver", Ipv4Addr::new(10, 0, 2, 10), MacAddr::new([2, 0, 0, 0, 2, 10]), &mut lan2);
    receiver.set_default_gateway(Some(Ipv4Addr::new(10, 0, 2, 1)));
    receiver.open_udp(53);

    sender.send_udp(5353, Ipv4Addr::new(10, 0, 2, 10), 53, b"query".to_vec());
    for _ in 0..20 {
        sender.tick(&mut lan1);
        left.tick(&mut lan1);
        right.tick(&mut lan2);
        receiver.tick(&mut lan2);
        forward_pending(InterfaceId::Left, &routes, left_if, right_if, &mut left, &mut right);
        forward_pending(InterfaceId::Right, &routes, left_if, right_if, &mut right, &mut left);
    }
    let d = receiver.recv_udp(53).expect("datagram through the router");
    assert_eq!(d.payload, b"query".to_vec());
    assert_eq!(*d.peer.ip(), Ipv4Addr::new(10, 0, 1, 10));
    assert!(!forward_pending(InterfaceId::Left, &routes, left_if, right_if, &mut left, &mut right));
}
