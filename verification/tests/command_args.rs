use tcpip_userland::application::router::{CidrError, InterfaceLinkMode, Route};
use tcpip_userland::command::args::{
    chat_plan, console_command, dhcp_client_plan, dhcp_server_plan, gateway_plan, get_plan, router_start, server_plan,
    subcommand, switch_bind, ArgsError, ChatPlan, ConsoleCommand, DhcpClientPlan, DhcpServerPlan, GatewayPlan,
    LocalAddress, RouterStart, ServerPlan, Subcommand, Uplink, port_error, PortError,
};
use tcpip_userland::command::common::{state_file_addr, state_file_holds};
use tcpip_userland::command::wan_config::{parse_wan_config, InterfaceLabel, WanConfigError};
use tcpip_userland::internet::addr::{Ipv4Addr, SocketAddrV4};
use tcpip_userland::link::ethernet::MacAddr;

fn sock(a: u8, b: u8, c: u8, d: u8, port: u16) -> SocketAddrV4 {
    SocketAddrV4 { ip: Ipv4Addr(a, b, c, d), port }
}

fn mac(last: u8) -> MacAddr {
    MacAddr::new([0x02, 0, 0, 0, 0, last])
}

#[test]
fn chat_arguments_with_bind_and_switch() {
    let plan = chat_plan(&["127.0.0.1:4000", "127.0.0.1:5000", "10.0.0.5", "02:00:00:00:00:05", "7000", "7001", "10.0.0.254"]);
    assert_eq!(
        plan,
        Ok(ChatPlan {
            bind: Some(sock(127, 0, 0, 1, 4000)),
            uplink: Uplink::Given(sock(127, 0, 0, 1, 5000)),
            local: LocalAddress::Fixed(Ipv4Addr(10, 0, 0, 5)),
            mac: mac(5),
            listen_port: 7000,
            src_port: 7001,
            gateway: Some(Ipv4Addr(10, 0, 0, 254)),
        })
    );
    let plan = chat_plan(&["127.0.0.1:4000", "127.0.0.1:5000", "auto", "02:00:00:00:00:05", "7000", "7001"]).unwrap();
    assert_eq!(plan.local, LocalAddress::Auto);
    assert_eq!(plan.gateway, None);
}

#[test]
fn chat_arguments_short_forms() {
    assert_eq!(
        chat_plan(&["02:00:00:00:00:05", "7000"]),
        Ok(ChatPlan {
            bind: None,
            uplink: Uplink::SwitchFile,
            local: LocalAddress::Auto,
            mac: mac(5),
            listen_port: 7000,
            src_port: 7000,
            gateway: None,
        })
    );
    let via_uplink = chat_plan(&["02:00:00:00:00:05", "7000", "02:00:00:00:00:fe"]).unwrap();
    assert_eq!(via_uplink.uplink, Uplink::WanUplink(mac(0xfe)));
    let via_gateway = chat_plan(&["02:00:00:00:00:05", "7000", "10.0.1.1"]).unwrap();
    assert_eq!(via_gateway.uplink, Uplink::GatewayFile(Ipv4Addr(10, 0, 1, 1)));
    assert_eq!(via_gateway.gateway, Some(Ipv4Addr(10, 0, 1, 1)));
    assert_eq!(via_gateway.src_port, 7000);
    let with_src = chat_plan(&["02:00:00:00:00:05", "7000", "7100"]).unwrap();
    assert_eq!(with_src.uplink, Uplink::SwitchFile);
    assert_eq!(with_src.src_port, 7100);
    assert_eq!(with_src.gateway, None);

    let four_mac = chat_plan(&["02:00:00:00:00:05", "7000", "7100", "10.0.1.1"]).unwrap();
    assert_eq!(four_mac.uplink, Uplink::GatewayFile(Ipv4Addr(10, 0, 1, 1)));
    assert_eq!(four_mac.local, LocalAddress::Auto);
    let four_ip = chat_plan(&["10.0.0.7", "02:00:00:00:00:05", "7000", "7100"]).unwrap();
    assert_eq!(four_ip.uplink, Uplink::SwitchFile);
    assert_eq!(four_ip.local, LocalAddress::Fixed(Ipv4Addr(10, 0, 0, 7)));

    let five = chat_plan(&["auto", "02:00:00:00:00:05", "7000", "7100", "10.0.1.1"]).unwrap();
    assert_eq!(five.uplink, Uplink::GatewayFile(Ipv4Addr(10, 0, 1, 1)));
    assert_eq!(five.gateway, Some(Ipv4Addr(10, 0, 1, 1)));
}

#[test]
fn chat_arguments_errors() {
    assert_eq!(chat_plan(&["02:00:00:00:00:05"]), Err(ArgsError::Usage));
    assert_eq!(chat_plan(&[]), Err(ArgsError::Usage));
    assert_eq!(chat_plan(&["not-a-mac", "7000"]), Err(ArgsError::InvalidMac));
    assert_eq!(chat_plan(&["02:00:00:00:00:05", "70000"]), Err(ArgsError::InvalidPort(PortError::TooLarge)));
    assert_eq!(
        chat_plan(&["127.0.0.1", "127.0.0.1:5000", "auto", "02:00:00:00:00:05", "7000", "7001"]),
        Err(ArgsError::InvalidSocketAddr)
    );
    assert_eq!(
        chat_plan(&["127.0.0.1:4000", "127.0.0.1:5000", "10.0.0", "02:00:00:00:00:05", "7000", "7001"]),
        Err(ArgsError::InvalidIp)
    );
    assert_eq!(ArgsError::InvalidMac.message(), "invalid MAC address");
}

#[test]
fn http_server_arguments() {
    assert_eq!(
        server_plan(&["127.0.0.1:4000", "127.0.0.1:5000", "auto", "02:00:00:00:00:05", "8080"]),
        Ok(ServerPlan {
            bind: Some(sock(127, 0, 0, 1, 4000)),
            uplink: Uplink::Given(sock(127, 0, 0, 1, 5000)),
            local: LocalAddress::Auto,
            mac: mac(5),
            listen_port: 8080,
        })
    );
    assert_eq!(server_plan(&["02:00:00:00:00:05", "8080", "02:00:00:00:00:fe"]).unwrap().uplink, Uplink::WanUplink(mac(0xfe)));
    assert_eq!(
        server_plan(&["10.0.0.9", "02:00:00:00:00:05", "8080"]).unwrap().local,
        LocalAddress::Fixed(Ipv4Addr(10, 0, 0, 9))
    );
    assert_eq!(server_plan(&["02:00:00:00:00:05", "8080"]).unwrap().uplink, Uplink::SwitchFile);
    assert_eq!(server_plan(&["02:00:00:00:00:05", "8080", "x", "y"]), Err(ArgsError::Usage));
    assert_eq!(server_plan(&["02:00:00:00:00:05", "http"]), Err(ArgsError::InvalidPort(PortError::InvalidDigit)));
}

#[test]
fn http_get_arguments() {
    let plan = get_plan(&["10.0.0.9", "02:00:00:00:00:05", "8080", "/hello"]).unwrap();
    assert_eq!(plan.peer_ip, Ipv4Addr(10, 0, 0, 9));
    assert_eq!(plan.server_port, 8080);
    assert_eq!(plan.path, "/hello");
    assert_eq!(plan.uplink, Uplink::SwitchFile);
    assert_eq!(plan.local, LocalAddress::Auto);

    let plan = get_plan(&["10.0.0.9", "02:00:00:00:00:05", "8080", "/", "02:00:00:00:00:fe"]).unwrap();
    assert_eq!(plan.uplink, Uplink::WanUplink(mac(0xfe)));
    assert_eq!(plan.path, "/");

    let plan = get_plan(&["10.0.0.3", "10.0.0.9", "02:00:00:00:00:05", "8080", "/x"]).unwrap();
    assert_eq!(plan.local, LocalAddress::Fixed(Ipv4Addr(10, 0, 0, 3)));
    assert_eq!(plan.peer_ip, Ipv4Addr(10, 0, 0, 9));

    let plan = get_plan(&["127.0.0.1:1", "127.0.0.1:2", "auto", "10.0.0.9", "02:00:00:00:00:05", "80", "/a"]).unwrap();
    assert_eq!(plan.bind, Some(sock(127, 0, 0, 1, 1)));
    assert_eq!(plan.uplink, Uplink::Given(sock(127, 0, 0, 1, 2)));
    assert_eq!(plan.path, "/a");

    assert!(matches!(get_plan(&["10.0.0.9", "02:00:00:00:00:05", "8080"]), Err(ArgsError::Usage)));
    assert!(matches!(get_plan(&["10.0.0", "02:00:00:00:00:05", "8080", "/"]), Err(ArgsError::InvalidIp)));
}

#[test]
fn gateway_and_dhcp_arguments() {
    assert_eq!(
        gateway_plan(&[]),
        Ok(GatewayPlan {
            bind: None,
            gateway_ip: Ipv4Addr(10, 0, 0, 254),
            gateway_mac: mac(0xfe),
            pool_start: Ipv4Addr(10, 0, 0, 10),
            pool_end: Ipv4Addr(10, 0, 0, 99),
        })
    );
    assert_eq!(gateway_plan(&["127.0.0.1:9000"]).unwrap().bind, Some(sock(127, 0, 0, 1, 9000)));
    assert_eq!(
        gateway_plan(&["10.1.0.1", "02:00:00:00:00:01", "10.1.0.10", "10.1.0.20"]),
        Ok(GatewayPlan {
            bind: None,
            gateway_ip: Ipv4Addr(10, 1, 0, 1),
            gateway_mac: mac(1),
            pool_start: Ipv4Addr(10, 1, 0, 10),
            pool_end: Ipv4Addr(10, 1, 0, 20),
        })
    );
    assert_eq!(gateway_plan(&["a", "b"]), Err(ArgsError::Usage));
    assert_eq!(gateway_plan(&["10.1.0.1", "nope", "10.1.0.10", "10.1.0.20"]), Err(ArgsError::InvalidMac));

    assert_eq!(
        dhcp_server_plan(&["10.1.0.1", "02:00:00:00:00:01", "10.1.0.10", "10.1.0.20"]),
        Ok(DhcpServerPlan {
            bind: None,
            uplink: Uplink::SwitchFile,
            server_ip: Ipv4Addr(10, 1, 0, 1),
            mac: mac(1),
            pool_start: Ipv4Addr(10, 1, 0, 10),
            pool_end: Ipv4Addr(10, 1, 0, 20),
        })
    );
    assert_eq!(
        dhcp_server_plan(&["127.0.0.1:1", "127.0.0.1:2", "10.1.0.1", "02:00:00:00:00:01", "10.1.0.10", "10.1.0.20"])
            .unwrap()
            .uplink,
        Uplink::Given(sock(127, 0, 0, 1, 2))
    );
    assert_eq!(
        dhcp_client_plan(&["02:00:00:00:00:01"]),
        Ok(DhcpClientPlan { bind: None, uplink: Uplink::SwitchFile, mac: mac(1) })
    );
    assert_eq!(dhcp_client_plan(&["1", "2"]), Err(ArgsError::Usage));
    assert_eq!(switch_bind(&[]), Ok(None));
    assert_eq!(switch_bind(&["127.0.0.1:7000"]), Ok(Some(sock(127, 0, 0, 1, 7000))));
    assert_eq!(switch_bind(&["127.0.0.1"]), Err(ArgsError::InvalidSocketAddr));
    assert_eq!(switch_bind(&["a", "b"]), Err(ArgsError::Usage));
}

#[test]
fn router_arguments() {
    let args = [
        "127.0.0.1:6000", "listen", "10.0.0.1", "02:00:00:00:01:00",
        "127.0.0.1:6001", "127.0.0.1:7000", "10.0.1.1", "02:00:00:00:01:01",
        "10.0.2.0/24", "10.0.1.2",
        "192.168.5.77/16", "direct",
    ];
    let plan = match router_start(&args) {
        Ok(RouterStart::Direct(plan)) => plan,
        _ => panic!("router arguments refused"),
    };
    assert_eq!(plan.left.label, "if0");
    assert_eq!(plan.right.label, "if1");
    assert_eq!(plan.left.mode, InterfaceLinkMode::Listen);
    assert_eq!(plan.right.mode, InterfaceLinkMode::Uplink(sock(127, 0, 0, 1, 7000)));
    assert_eq!(plan.left.prefix_len, 24);
    assert_eq!(plan.right_bind, sock(127, 0, 0, 1, 6001));
    assert_eq!(
        plan.routes,
        vec![
            Route { network: Ipv4Addr(10, 0, 0, 0), prefix_len: 24, next_hop: None },
            Route { network: Ipv4Addr(10, 0, 1, 0), prefix_len: 24, next_hop: None },
            Route { network: Ipv4Addr(10, 0, 2, 0), prefix_len: 24, next_hop: Some(Ipv4Addr(10, 0, 1, 2)) },
            Route { network: Ipv4Addr(192, 168, 0, 0), prefix_len: 16, next_hop: None },
        ]
    );

    assert!(matches!(router_start(&["02:00:00:00:01:00"]), Ok(RouterStart::FromConfig(m)) if m == MacAddr::new([2, 0, 0, 0, 1, 0])));
    assert!(matches!(router_start(&args[..9]), Err(ArgsError::Usage)));
    assert!(matches!(router_start(&args[..4]), Err(ArgsError::Usage)));
    let mut bad_route = args;
    bad_route[8] = "10.0.2.0/40";
    assert!(matches!(router_start(&bad_route), Err(ArgsError::InvalidRoute(CidrError::PrefixTooLong))));
    let mut bad_hop = args;
    bad_hop[9] = "somewhere";
    assert!(matches!(router_start(&bad_hop), Err(ArgsError::InvalidIp)));
    let mut bad_mode = args;
    bad_mode[1] = "listening";
    assert!(matches!(router_start(&bad_mode), Err(ArgsError::InvalidSocketAddr)));
    assert_eq!(
        ArgsError::InvalidRoute(CidrError::MissingSlash).message(),
        "route must be written as a.b.c.d/prefix"
    );
}

#[test]
fn console_lines_and_subcommands() {
    assert_eq!(console_command("/quit"), ConsoleCommand::Quit);
    assert_eq!(console_command("show mac"), ConsoleCommand::ShowMac);
    assert_eq!(console_command("show ports"), ConsoleCommand::ShowPorts);
    assert_eq!(console_command("show leases"), ConsoleCommand::ShowLeases);
    assert_eq!(console_command("show routes"), ConsoleCommand::ShowRoutes);
    assert_eq!(console_command("show ifaces"), ConsoleCommand::ShowIfaces);
    assert_eq!(console_command(""), ConsoleCommand::Empty);
    assert_eq!(console_command("show mac "), ConsoleCommand::Unknown);

    assert_eq!(subcommand(None), Subcommand::Demo);
    assert_eq!(subcommand(Some("demo")), Subcommand::Demo);
    assert_eq!(subcommand(Some("switch")), Subcommand::Switch);
    assert_eq!(subcommand(Some("wan")), Subcommand::Wan);
    assert_eq!(subcommand(Some("gateway")), Subcommand::Gateway);
    assert_eq!(subcommand(Some("dhcp-server")), Subcommand::DhcpServer);
    assert_eq!(subcommand(Some("dhcp-client")), Subcommand::DhcpClient);
    assert_eq!(subcommand(Some("chat")), Subcommand::Chat);
    assert_eq!(subcommand(Some("router")), Subcommand::Router);
    assert_eq!(subcommand(Some("http-server")), Subcommand::HttpServer);
    assert_eq!(subcommand(Some("http-get")), Subcommand::HttpGet);
    assert_eq!(subcommand(Some("telnet")), Subcommand::Unknown);
}

#[test]
fn state_files_are_read_and_matched() {
    assert_eq!(state_file_addr("127.0.0.1:40000\n"), Some(sock(127, 0, 0, 1, 40000)));
    assert_eq!(state_file_addr("  127.0.0.1:40000  "), Some(sock(127, 0, 0, 1, 40000)));
    assert_eq!(state_file_addr("garbage"), None);
    assert!(state_file_holds("127.0.0.1:40000\n", sock(127, 0, 0, 1, 40000)));
    assert!(!state_file_holds("127.0.0.1:40001\n", sock(127, 0, 0, 1, 40000)));
}

#[test]
fn wan_config_errors_have_messages() {
    let error = parse_wan_config("[[router]]\nbogus = \"1\"\n").err().unwrap();
    assert_eq!(error.message(), b"unknown router key: bogus".to_vec());
    assert_eq!(WanConfigError::MissingBind(InterfaceLabel::If1).message(), b"if1_bind is required".to_vec());
    assert_eq!(
        WanConfigError::MissingUplink(InterfaceLabel::If0).message(),
        b"if0_uplink is required when mode is uplink".to_vec()
    );
    assert_eq!(WanConfigError::ExpectedQuoted(b"x".to_vec()).message(), b"expected quoted string, got x".to_vec());
    assert_eq!(WanConfigError::MissingId.message(), b"router.id is required".to_vec());
}

#[test]
fn state_file_written_reads_back() {
    for addr in [sock(127, 0, 0, 1, 0), sock(10, 20, 30, 40, 65535), sock(0, 0, 0, 0, 9)] {
        let written = format!("{}\n", addr.to_text());
        assert_eq!(state_file_addr(&written), Some(addr));
        assert!(state_file_holds(&written, addr));
        assert_eq!(SocketAddrV4::parse(&addr.to_text()), Some(addr));
    }
}

#[test]
fn port_errors_say_why() {
    assert_eq!(port_error(""), PortError::Empty);
    assert_eq!(port_error("+"), PortError::InvalidDigit);
    assert_eq!(port_error("-5"), PortError::InvalidDigit);
    assert_eq!(port_error("12a"), PortError::InvalidDigit);
    assert_eq!(port_error("65536"), PortError::TooLarge);
    assert_eq!(port_error("99999x"), PortError::TooLarge);
    assert_eq!(port_error("+70000"), PortError::TooLarge);
    assert_eq!(ArgsError::InvalidPort(PortError::Empty).message(), "cannot parse integer from empty string");
    assert_eq!(ArgsError::InvalidPort(PortError::InvalidDigit).message(), "invalid digit found in string");
    assert_eq!(ArgsError::InvalidPort(PortError::TooLarge).message(), "number too large to fit in target type");
    for text in ["", "+", "-5", "12a", "65536", "99999x", "+70000", " 1"] {
        let expected = text.parse::<u16>().unwrap_err().to_string();
        assert_eq!(ArgsError::InvalidPort(port_error(text)).message(), expected, "for {text:?}");
    }
}
