use tcpip_userland::command::args::{router_arguments, router_start, RouterStart};
use tcpip_userland::command::common::{
    chat_command, parse_link_mode, parse_ping_command, parse_send_command, router_uplink_state_path, switch_state_path,
    ChatCommand, CommandError,
};
use tcpip_userland::command::wan_config::{
    interface_mode_text, parse_key_value, parse_mode, parse_wan_config, strip_quotes, InterfaceLabel, InterfaceMode,
    WanConfigError,
};
use tcpip_userland::application::router::InterfaceLinkMode;
use tcpip_userland::internet::addr::{parse_u16, Ipv4Addr, SocketAddrV4};
use tcpip_userland::link::ethernet::MacAddr;

#[test]
fn send_commands_are_read() {
    assert_eq!(
        parse_send_command("  send 10.0.0.2 7000   hello  there "),
        Ok((Ipv4Addr::new(10, 0, 0, 2), 7000, b"hello  there".to_vec()))
    );
    assert_eq!(parse_send_command("send 10.0.0.2 7000"), Err(CommandError::SendUsage));
    assert_eq!(parse_send_command("say 10.0.0.2 7000 hi"), Err(CommandError::SendUsage));
    assert_eq!(parse_send_command(""), Err(CommandError::SendUsage));
    assert_eq!(parse_send_command("send 10.0.0 7000 hi"), Err(CommandError::InvalidDestinationIp));
    assert_eq!(parse_send_command("send 10.0.0.2 70000 hi"), Err(CommandError::InvalidDestinationPort));
    assert_eq!(CommandError::SendUsage.message(), "use: send <dst-ip> <dst-port> <message>");
}

#[test]
fn ping_commands_are_read() {
    assert_eq!(parse_ping_command("/ping 10.0.0.2"), Ok(Ipv4Addr::new(10, 0, 0, 2)));
    assert_eq!(parse_ping_command("/ping"), Err(CommandError::PingUsage));
    assert_eq!(parse_ping_command("/pingx 10.0.0.2"), Err(CommandError::PingUsage));
    assert_eq!(parse_ping_command("/ping nowhere"), Err(CommandError::InvalidDestinationIp));
    assert_eq!(CommandError::InvalidDestinationIp.message(), "invalid destination ip");
}

#[test]
fn chat_lines_are_classified() {
    assert_eq!(chat_command("/quit"), ChatCommand::Quit);
    assert_eq!(chat_command("/ping 10.0.0.9"), ChatCommand::Ping(Ipv4Addr::new(10, 0, 0, 9)));
    assert_eq!(chat_command("/pingx 10.0.0.9"), ChatCommand::Invalid(CommandError::PingUsage));
    assert_eq!(
        chat_command("send 10.0.0.9 5 hi"),
        ChatCommand::Send { dst_ip: Ipv4Addr::new(10, 0, 0, 9), dst_port: 5, payload: b"hi".to_vec() }
    );
    assert_eq!(chat_command("hello"), ChatCommand::Invalid(CommandError::SendUsage));
    assert_eq!(chat_command(""), ChatCommand::Empty);
}

#[test]
fn state_file_names() {
    assert_eq!(switch_state_path(), ".tcpip_switch_addr");
    assert_eq!(router_uplink_state_path(Ipv4Addr::new(10, 0, 1, 1)), ".tcpip_router_uplink_10_0_1_1");
}

#[test]
fn link_modes_are_read_and_described() {
    assert_eq!(parse_link_mode("listen"), Some(InterfaceLinkMode::Listen));
    let addr = SocketAddrV4::new(Ipv4Addr::new(127, 0, 0, 1), 9000);
    assert_eq!(parse_link_mode("127.0.0.1:9000"), Some(InterfaceLinkMode::Uplink(addr)));
    assert_eq!(parse_link_mode("127.0.0.1"), None);
    assert_eq!(InterfaceLinkMode::Listen.describe(), "listen");
    assert_eq!(InterfaceLinkMode::Uplink(addr).describe(), "uplink=127.0.0.1:9000");
    assert_eq!(SocketAddrV4::parse("127.0.0.1:0080"), Some(SocketAddrV4::new(Ipv4Addr::new(127, 0, 0, 1), 80)));
    assert_eq!(SocketAddrV4::parse("127.0.0.1:+80"), None);
    assert_eq!(SocketAddrV4::parse("127.0.0.1:65536"), None);
    assert_eq!(parse_u16("+80"), Some(80));
    assert_eq!(parse_u16("65536"), None);
}

const WAN: &str = "# two routers\n\
[[router]]\n\
id = \"02:00:00:00:00:aa\"\n\
if0_bind = \"127.0.0.1:7000\"\n\
if0_mac = \"02:00:00:00:00:01\"\n\
if0_ip = \"10.0.1.1\"\n\
if0_mode = \"listen\"\n\
if1_bind = \"127.0.0.1:7001\"   # the transit side\n\
if1_mac = \"02:00:00:00:00:02\"\n\
if1_ip = \"10.0.12.1\"\n\
if1_mode = \"uplink\"\n\
if1_uplink = \"127.0.0.1:7100\"\n\
\n\
[[router.route]]\n\
cidr = \"10.0.2.0/24\"\n\
next_hop = \"10.0.12.2\"\r\n";

#[test]
fn wan_config_is_read() {
    let config = parse_wan_config(WAN).unwrap();
    assert_eq!(config.routers.len(), 1);
    let r = &config.routers[0];
    assert_eq!(r.id, MacAddr::new([2, 0, 0, 0, 0, 0xaa]));
    assert_eq!(r.if0.bind, SocketAddrV4::new(Ipv4Addr::new(127, 0, 0, 1), 7000));
    assert_eq!(r.if0.mode, InterfaceMode::Listen);
    assert_eq!(r.if1.mode, InterfaceMode::Uplink);
    assert_eq!(r.if1.uplink, Some(SocketAddrV4::new(Ipv4Addr::new(127, 0, 0, 1), 7100)));
    assert_eq!(r.routes.len(), 1);
    assert_eq!(r.routes[0].cidr, b"10.0.2.0/24".to_vec());
    assert_eq!(r.routes[0].next_hop, b"10.0.12.2".to_vec());
    assert_eq!(interface_mode_text(r.if0), "listen");
    assert_eq!(interface_mode_text(r.if1), "127.0.0.1:7100");

    assert!(config.find_router(MacAddr::new([2, 0, 0, 0, 0, 0xaa])).is_some());
    assert!(config.find_router(MacAddr::new([2, 0, 0, 0, 0, 0xbb])).is_none());
    assert_eq!(config.find_uplink(MacAddr::new([2, 0, 0, 0, 0, 0xaa])), Some(r.if0));
    assert_eq!(config.find_uplink(MacAddr::new([2, 0, 0, 0, 0, 2])), Some(r.if1));
    assert_eq!(config.find_uplink(MacAddr::new([2, 0, 0, 0, 0, 3])), None);
}

#[test]
fn wan_config_errors() {
    assert_eq!(parse_wan_config("id = \"x\"").err(), Some(WanConfigError::KeyOutsideSection));
    assert_eq!(parse_wan_config("[[router.route]]").err(), Some(WanConfigError::RouteBeforeRouter));
    assert_eq!(parse_wan_config("[[router]]\nnonsense").err(), Some(WanConfigError::InvalidLine(b"nonsense".to_vec())));
    assert_eq!(parse_wan_config("[[router]]\nid = 5").err(), Some(WanConfigError::ExpectedQuoted(b"5".to_vec())));
    assert_eq!(parse_wan_config("[[router]]\ncolor = \"red\"").err(), Some(WanConfigError::UnknownRouterKey(b"color".to_vec())));
    assert_eq!(parse_wan_config("[[router]]\nif0_mode = \"both\"").err(), Some(WanConfigError::InvalidMode(b"both".to_vec())));
    assert_eq!(parse_wan_config("[[router]]\nif0_ip = \"1.2.3\"").err(), Some(WanConfigError::InvalidIpv4));
    assert_eq!(parse_wan_config("[[router]]").err(), Some(WanConfigError::MissingMode(InterfaceLabel::If0)));
    assert_eq!(
        parse_wan_config("[[router]]\nif0_mode = \"uplink\"").err(),
        Some(WanConfigError::MissingUplink(InterfaceLabel::If0))
    );
    assert_eq!(
        parse_wan_config("[[router]]\n[[router.route]]\nvia = \"x\"").err(),
        Some(WanConfigError::UnknownRouteKey(b"via".to_vec()))
    );
    assert!(parse_wan_config("").unwrap().routers.is_empty());
}

#[test]
fn wan_config_pieces() {
    assert_eq!(strip_quotes(b"\"abc\""), Ok(&b"abc"[..]));
    assert_eq!(strip_quotes(b"\""), Err(WanConfigError::ExpectedQuoted(b"\"".to_vec())));
    assert_eq!(parse_key_value(b" key = \"v = w\" "), Ok((&b"key"[..], &b"v = w"[..])));
    assert_eq!(parse_mode(b"listen"), Ok(InterfaceMode::Listen));
    assert_eq!(parse_mode(b"uplink"), Ok(InterfaceMode::Uplink));
}

#[test]
fn router_arguments_read_back() {
    let config = parse_wan_config(WAN).unwrap();
    let r = &config.routers[0];
    let args: Vec<String> = router_arguments(r).iter().map(|b| String::from_utf8(b.clone()).unwrap()).collect();
    assert_eq!(args.len(), 10);
    assert_eq!(args[1], "listen");
    assert_eq!(args[5], "127.0.0.1:7100");
    assert_eq!(args[8], "10.0.2.0/24");
    let refs: Vec<&str> = args.iter().map(String::as_str).collect();
    let plan = match router_start(&refs) {
        Ok(RouterStart::Direct(plan)) => plan,
        _ => panic!("arguments refused"),
    };
    assert_eq!(plan.left_bind, r.if0.bind);
    assert_eq!(plan.left.ip, r.if0.ip);
    assert_eq!(plan.right.mac, r.if1.mac);
    assert_eq!(plan.routes.len(), 3);
}
