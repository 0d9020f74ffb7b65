use tcpip_userland::application::dhcp_server::LeaseEntry;
use tcpip_userland::application::router::{InterfaceConfig, InterfaceLinkMode, Route};
use tcpip_userland::command::listing::{decimal_string, interface_line, lease_line, mac_table_line, port_line, route_line};
use tcpip_userland::internet::addr::{Ipv4Addr, SocketAddrV4};
use tcpip_userland::link::ethernet::MacAddr;

#[test]
fn table_lines() {
    let port = SocketAddrV4 { ip: Ipv4Addr(127, 0, 0, 1), port: 40000 };
    let mac = MacAddr::new([0x02, 0, 0, 0, 0, 0xab]);
    assert_eq!(mac_table_line(mac, port), "  02:00:00:00:00:ab -> 127.0.0.1:40000");
    assert_eq!(port_line(port), "  127.0.0.1:40000");
    assert_eq!(decimal_string(0), "0");
    assert_eq!(decimal_string(18446744073709551615), "18446744073709551615");
}

#[test]
fn lease_lines_count_whole_seconds() {
    let entry = LeaseEntry { mac: MacAddr::new([2, 0, 0, 0, 0, 1]), ip: Ipv4Addr(10, 0, 0, 10), remaining_ms: 59_999 };
    assert_eq!(lease_line(entry), "  02:00:00:00:00:01 -> 10.0.0.10 (59s left)");
    let ended = LeaseEntry { remaining_ms: 999, ..entry };
    assert_eq!(lease_line(ended), "  02:00:00:00:00:01 -> 10.0.0.10 (0s left)");
}

#[test]
fn route_and_interface_lines() {
    let direct = Route { network: Ipv4Addr(10, 0, 1, 0), prefix_len: 24, next_hop: None };
    assert_eq!(route_line(direct), "  10.0.1.0/24 via direct");
    let via = Route { network: Ipv4Addr(0, 0, 0, 0), prefix_len: 0, next_hop: Some(Ipv4Addr(10, 0, 1, 2)) };
    assert_eq!(route_line(via), "  0.0.0.0/0 via 10.0.1.2");

    let bind = SocketAddrV4 { ip: Ipv4Addr(127, 0, 0, 1), port: 6000 };
    let listen = InterfaceConfig {
        label: "if0",
        mode: InterfaceLinkMode::Listen,
        ip: Ipv4Addr(10, 0, 0, 1),
        prefix_len: 24,
        mac: MacAddr::new([2, 0, 0, 0, 1, 0]),
    };
    assert_eq!(interface_line(listen, bind), "if0: bind=127.0.0.1:6000 listen ip=10.0.0.1/24 mac=02:00:00:00:01:00");
    let uplink = InterfaceConfig {
        label: "if1",
        mode: InterfaceLinkMode::Uplink(SocketAddrV4 { ip: Ipv4Addr(127, 0, 0, 1), port: 7000 }),
        ..listen
    };
    assert_eq!(
        interface_line(uplink, bind),
        "if1: bind=127.0.0.1:6000 uplink=127.0.0.1:7000 ip=10.0.0.1/24 mac=02:00:00:00:01:00"
    );
}
