use tcpip_userland::internet::addr::{Ipv4Addr, SocketAddrV4};
use tcpip_userland::link::ethernet::{EtherType, EthernetFrame, MacAddr};
use tcpip_userland::link::switch::LearningSwitch;
use tcpip_userland::link::wire::{frame_datagram, is_from_link_peer, parse_link_datagram, register_datagram, LinkDatagram};

fn socket(port: u16) -> SocketAddrV4 {
    SocketAddrV4::new(Ipv4Addr::new(127, 0, 0, 1), port)
}

fn frame(dst: MacAddr, src: MacAddr) -> EthernetFrame {
    EthernetFrame { dst, src, ethertype: EtherType::Ipv4, payload: b"frame".to_vec() }
}

#[test]
fn floods_unknown_unicast_to_all_other_ports() {
    let mut switch = LearningSwitch::default();
    switch.register_port(MacAddr::new([0x02, 0, 0, 0, 0, 1]), socket(5001));
    switch.register_port(MacAddr::new([0x02, 0, 0, 0, 0, 2]), socket(5002));
    switch.register_port(MacAddr::new([0x02, 0, 0, 0, 0, 3]), socket(5003));

    let outputs = switch.forward(socket(5001), &frame(MacAddr::new([0x02, 0, 0, 0, 0, 9]), MacAddr::new([0x02, 0, 0, 0, 0, 1])));

    assert!(outputs.contains(&socket(5002)));
    assert!(outputs.contains(&socket(5003)));
    assert!(!outputs.contains(&socket(5001)));
}

#[test]
fn forwards_known_unicast_only_to_learned_port() {
    let mut switch = LearningSwitch::default();
    switch.register_port(MacAddr::new([0x02, 0, 0, 0, 0, 1]), socket(5001));
    switch.register_port(MacAddr::new([0x02, 0, 0, 0, 0, 2]), socket(5002));

    let outputs = switch.forward(socket(5001), &frame(MacAddr::new([0x02, 0, 0, 0, 0, 2]), MacAddr::new([0x02, 0, 0, 0, 0, 1])));

    assert_eq!(outputs, vec![socket(5002)]);
}

#[test]
fn registration_reports_news_only() {
    let mut switch = LearningSwitch::new();
    let mac = MacAddr::new([2, 0, 0, 0, 0, 1]);
    assert!(switch.register_port(mac, socket(5001)));
    assert!(!switch.register_port(mac, socket(5001)));
    assert!(switch.register_port(mac, socket(5002)));
    assert_eq!(switch.mac_table(), vec![(mac, socket(5002))]);
    assert_eq!(switch.ports(), vec![socket(5001), socket(5002)]);
}

#[test]
fn broadcast_and_hairpin() {
    let mut switch = LearningSwitch::new();
    let a = MacAddr::new([2, 0, 0, 0, 0, 1]);
    let b = MacAddr::new([2, 0, 0, 0, 0, 2]);
    switch.register_port(a, socket(5001));
    switch.register_port(b, socket(5002));
    assert_eq!(switch.forward(socket(5001), &frame(MacAddr::broadcast(), a)), vec![socket(5002)]);
    assert_eq!(switch.forward(socket(5001), &frame(a, a)), Vec::<SocketAddrV4>::new());
    assert_eq!(switch.forward(socket(5003), &frame(b, a)), vec![socket(5002)]);
    assert_eq!(switch.mac_table(), vec![(a, socket(5003)), (b, socket(5002))]);
}

#[test]
fn tables_are_sorted() {
    let mut switch = LearningSwitch::new();
    switch.register_port(MacAddr::new([2, 0, 0, 0, 0, 9]), socket(600));
    switch.register_port(MacAddr::new([2, 0, 0, 0, 0, 1]), socket(5001));
    switch.register_port(MacAddr::new([1, 0, 0, 0, 0, 5]), SocketAddrV4::new(Ipv4Addr::new(10, 0, 0, 1), 7));
    let table = switch.mac_table();
    assert_eq!(
        table.iter().map(|(m, _)| m.octets()).collect::<Vec<_>>(),
        vec![[1, 0, 0, 0, 0, 5], [2, 0, 0, 0, 0, 1], [2, 0, 0, 0, 0, 9]]
    );
    let ports: Vec<String> = switch.ports().iter().map(|p| p.to_text()).collect();
    assert_eq!(ports, vec!["10.0.0.1:7", "127.0.0.1:5001", "127.0.0.1:600"]);
}

#[test]
fn link_datagrams_are_handled() {
    let mut switch = LearningSwitch::new();
    let a = MacAddr::new([2, 0, 0, 0, 0, 1]);
    let b = MacAddr::new([2, 0, 0, 0, 0, 2]);
    let out = switch.handle_datagram(socket(5001), &register_datagram(a));
    assert_eq!((out.learned, out.egress.len()), (Some(a), 0));
    let out = switch.handle_datagram(socket(5001), &register_datagram(a));
    assert_eq!(out.learned, None);
    switch.handle_datagram(socket(5002), &register_datagram(b));
    let out = switch.handle_datagram(socket(5001), &frame_datagram(&frame(b, a)));
    assert_eq!((out.learned, out.egress), (None, vec![socket(5002)]));
    let out = switch.handle_datagram(socket(5001), &[7, 1, 2]);
    assert_eq!((out.learned, out.egress.len()), (None, 0));
}

#[test]
fn link_datagrams_read_back() {
    let a = MacAddr::new([2, 0, 0, 0, 0, 1]);
    let f = frame(MacAddr::broadcast(), a);
    assert_eq!(register_datagram(a), vec![1, 2, 0, 0, 0, 0, 1]);
    match parse_link_datagram(&register_datagram(a)) {
        LinkDatagram::Register(m) => assert_eq!(m, a),
        _ => panic!("registration expected"),
    }
    match parse_link_datagram(&frame_datagram(&f)) {
        LinkDatagram::Frame(g) => assert_eq!(g, f),
        _ => panic!("frame expected"),
    }
    assert!(matches!(parse_link_datagram(&[0]), LinkDatagram::Other));
    assert!(matches!(parse_link_datagram(&[1, 2, 3]), LinkDatagram::Other));
    assert!(matches!(parse_link_datagram(&[0, 1, 2, 3]), LinkDatagram::Other));
}

#[test]
fn peers_are_learned_from_tagged_datagrams() {
    assert!(is_from_link_peer(&register_datagram(MacAddr::new([2, 0, 0, 0, 0, 1]))));
    assert!(is_from_link_peer(&[0, 1, 2, 3]));
    assert!(matches!(parse_link_datagram(&[0, 1, 2, 3]), LinkDatagram::Other));
    assert!(!is_from_link_peer(&[0]));
    assert!(!is_from_link_peer(&[1, 2, 3]));
    assert!(!is_from_link_peer(&[7, 0, 0, 0, 0, 0, 0, 0]));
}
