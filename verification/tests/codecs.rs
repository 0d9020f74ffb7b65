use tcpip_userland::internet::addr::Ipv4Addr;
use tcpip_userland::internet::icmp::{IcmpKind, IcmpPacket};
use tcpip_userland::internet::ip::{IpProtocol, Ipv4Packet};
use tcpip_userland::link::arp::{ArpOperation, ArpPacket};
use tcpip_userland::link::ethernet::{EtherType, EthernetFrame, MacAddr};
use tcpip_userland::transport::tcp::TcpPacket;
use tcpip_userland::transport::udp::UdpPacket;

#[test]
fn ethernet_frames_round_trip() {
    let f = EthernetFrame {
        dst: MacAddr::broadcast(),
        src: MacAddr::new([2, 0, 0, 0, 0, 1]),
        ethertype: EtherType::Arp,
        payload: vec![1, 2, 3],
    };
    let bytes = f.encode();
    assert_eq!(bytes, vec![255, 255, 255, 255, 255, 255, 2, 0, 0, 0, 0, 1, 0x08, 0x06, 1, 2, 3]);
    assert_eq!(EthernetFrame::decode(&bytes), Some(f));
    assert_eq!(EthernetFrame::decode(&bytes[..13]), None);
    let mut unknown = bytes.clone();
    unknown[12] = 0x86;
    unknown[13] = 0xdd;
    assert_eq!(EthernetFrame::decode(&unknown), None);
}

#[test]
fn code_tables() {
    assert_eq!(EtherType::from_u16(0x0800), Some(EtherType::Ipv4));
    assert_eq!(EtherType::from_u16(0x0806), Some(EtherType::Arp));
    assert_eq!(EtherType::from_u16(0x86dd), None);
    assert_eq!(IpProtocol::from_u8(1), Some(IpProtocol::Icmp));
    assert_eq!(IpProtocol::from_u8(6), Some(IpProtocol::Tcp));
    assert_eq!(IpProtocol::from_u8(17), Some(IpProtocol::Udp));
    assert_eq!(IpProtocol::from_u8(2), None);
    assert_eq!(IcmpKind::from_u8(8), Some(IcmpKind::EchoRequest));
    assert_eq!(IcmpKind::from_u8(0), Some(IcmpKind::EchoReply));
    assert_eq!(IcmpKind::from_u8(3), None);
    assert_eq!(ArpOperation::from_u16(1), Some(ArpOperation::Request));
    assert_eq!(ArpOperation::from_u16(2), Some(ArpOperation::Reply));
    assert_eq!(ArpOperation::from_u16(3), None);
}

#[test]
fn arp_packets_round_trip() {
    let p = ArpPacket {
        operation: ArpOperation::Request,
        sender_mac: MacAddr::new([2, 0, 0, 0, 0, 1]),
        sender_ip: Ipv4Addr::new(10, 0, 0, 1),
        target_mac: MacAddr::new([0, 0, 0, 0, 0, 0]),
        target_ip: Ipv4Addr::new(10, 0, 0, 2),
    };
    let bytes = p.encode();
    assert_eq!(bytes.len(), 28);
    assert_eq!(&bytes[..8], &[0, 1, 8, 0, 6, 4, 0, 1]);
    assert_eq!(ArpPacket::decode(&bytes), Some(p));
    assert_eq!(ArpPacket::decode(&bytes[..27]), None);
}

#[test]
fn ipv4_packets_round_trip() {
    let p = Ipv4Packet {
        src: Ipv4Addr::new(10, 0, 0, 1),
        dst: Ipv4Addr::new(10, 0, 0, 2),
        protocol: IpProtocol::Udp,
        ttl: 64,
        payload: vec![9, 9],
    };
    let bytes = p.encode();
    assert_eq!(bytes, vec![0x45, 0, 0, 22, 0, 0, 0, 0, 64, 17, 0, 0, 10, 0, 0, 1, 10, 0, 0, 2, 9, 9]);
    assert_eq!(Ipv4Packet::decode(&bytes), Some(p.clone()));
    let mut padded = bytes.clone();
    padded.push(0);
    assert_eq!(Ipv4Packet::decode(&padded), Some(p));
    assert_eq!(Ipv4Packet::decode(&bytes[..21]), None);
}

#[test]
fn icmp_packets_round_trip() {
    let p = IcmpPacket { kind: IcmpKind::EchoRequest, identifier: 0x0102, sequence: 7, payload: b"hi".to_vec() };
    let bytes = p.encode();
    assert_eq!(bytes, vec![8, 0, 0, 0, 1, 2, 0, 7, b'h', b'i']);
    assert_eq!(IcmpPacket::decode(&bytes), Some(p));
    assert_eq!(IcmpPacket::decode(&bytes[..7]), None);
}

#[test]
fn udp_packets_round_trip() {
    let p = UdpPacket { src_port: 68, dst_port: 67, payload: b"x".to_vec() };
    let bytes = p.encode();
    assert_eq!(bytes, vec![0, 68, 0, 67, 0, 9, 0, 0, b'x']);
    assert_eq!(UdpPacket::decode(&bytes), Some(p));
    assert_eq!(UdpPacket::decode(&[0, 1, 0, 2, 0, 7, 0, 0]), None);
}

#[test]
fn tcp_packets_round_trip() {
    let p = TcpPacket { src_port: 40000, dst_port: 80, seq: 1000, ack: 2000, flags: 0x12, window: 4096, payload: b"GET".to_vec() };
    let bytes = p.encode();
    assert_eq!(bytes.len(), 23);
    assert_eq!(bytes[12], 0x50);
    assert_eq!(bytes[13], 0x12);
    assert_eq!(TcpPacket::decode(&bytes), Some(p));
    assert_eq!(TcpPacket::decode(&bytes[..19]), None);
}

#[test]
fn addresses_as_text() {
    let mac: MacAddr = "02:00:0A:ff:00:01".parse().unwrap();
    assert_eq!(mac.octets(), [2, 0, 10, 255, 0, 1]);
    assert_eq!(mac.to_text(), "02:00:0a:ff:00:01");
    assert!("02:00:0a:ff:00".parse::<MacAddr>().is_err());
    assert!("02:00:0a:ff:00:01:02".parse::<MacAddr>().is_err());
    assert!("02:00:0a:ff:00:1g".parse::<MacAddr>().is_err());
    assert_eq!(Ipv4Addr::parse("192.168.0.1"), Some(Ipv4Addr::new(192, 168, 0, 1)));
    assert_eq!(Ipv4Addr::parse("192.168.0.01"), None);
    assert_eq!(Ipv4Addr::parse("256.0.0.1"), None);
    assert_eq!(Ipv4Addr::new(10, 0, 0, 254).to_text(), "10.0.0.254");
    assert_eq!(Ipv4Addr::from_u32(0x0a00_0001), Ipv4Addr::new(10, 0, 0, 1));
    assert_eq!(Ipv4Addr::new(10, 0, 0, 1).to_u32(), 0x0a00_0001);
}
