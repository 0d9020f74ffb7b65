//! The command-line forms of the programs: which arguments a program was given, read into
//! plain values and into a plan that says where each setting comes from. Reading files,
//! opening sockets and asking DHCP for an address are left to the caller; a plan only says
//! which of them to do.
use vstd::prelude::*;
use vstd::string::StringSliceAdditionalSpecFns;

use crate::application::router::{
    masked_bits, parse_cidr, cidr_of, CidrError, InterfaceConfig, InterfaceLinkMode, Route, DEFAULT_PREFIX_LEN,
};
use crate::command::common::{kw_listen, link_mode_of, parse_link_mode};
use crate::command::wan_config::{InterfaceDefinition, InterfaceMode, RouteView, RouterDefinition, RouterView};
use crate::internet::addr::{ipv4_of, socket_of, socket_text, u16_of, parse_u16, Ipv4Addr, SocketAddrV4};
use crate::link::ethernet::MacAddr;
use crate::text::{digits_value, ipv4_text, is_digit, mac_text, parse_mac_text, push_ipv4_text, push_mac_text, range_is, strip_plus};

verus! {

/// Why the arguments of a program were refused.
#[derive(Clone, Copy, Debug, PartialEq, Eq, Structural)]
pub enum ArgsError {
    /// The number of arguments fits no form of the program.
    Usage,
    InvalidSocketAddr,
    InvalidIp,
    InvalidMac,
    /// A port that does not read as a `u16`, and why.
    InvalidPort(PortError),
    /// A route that is not `a.b.c.d/len`.
    InvalidRoute(CidrError),
}

impl ArgsError {
    /// The text of the error.
    pub fn message(&self) -> (r: &'static str)
        ensures
            *self == ArgsError::Usage ==> r@ == "wrong number of arguments"@,
            *self == ArgsError::InvalidSocketAddr ==> r@ == "invalid socket address syntax"@,
            *self == ArgsError::InvalidIp ==> r@ == "invalid IPv4 address syntax"@,
            *self == ArgsError::InvalidMac ==> r@ == "invalid MAC address"@,
            *self == ArgsError::InvalidPort(PortError::Empty) ==> r@ == "cannot parse integer from empty string"@,
            *self == ArgsError::InvalidPort(PortError::InvalidDigit) ==> r@ == "invalid digit found in string"@,
            *self == ArgsError::InvalidPort(PortError::TooLarge) ==> r@ == "number too large to fit in target type"@,
            *self == ArgsError::InvalidRoute(CidrError::MissingSlash) ==> r@ == "route must be written as a.b.c.d/prefix"@,
            *self == ArgsError::InvalidRoute(CidrError::BadPrefix) ==> r@ == "route prefix must be an integer"@,
            *self == ArgsError::InvalidRoute(CidrError::PrefixTooLong) ==> r@ == "route prefix must be between 0 and 32"@,
            *self == ArgsError::InvalidRoute(CidrError::BadNetwork) ==> r@ == "invalid IPv4 address syntax"@,
    {
        match self {
            ArgsError::Usage => "wrong number of arguments",
            ArgsError::InvalidSocketAddr => "invalid socket address syntax",
            ArgsError::InvalidIp => "invalid IPv4 address syntax",
            ArgsError::InvalidMac => "invalid MAC address",
            ArgsError::InvalidPort(PortError::Empty) => "cannot parse integer from empty string",
            ArgsError::InvalidPort(PortError::InvalidDigit) => "invalid digit found in string",
            ArgsError::InvalidPort(PortError::TooLarge) => "number too large to fit in target type",
            ArgsError::InvalidRoute(CidrError::MissingSlash) => "route must be written as a.b.c.d/prefix",
            ArgsError::InvalidRoute(CidrError::BadPrefix) => "route prefix must be an integer",
            ArgsError::InvalidRoute(CidrError::PrefixTooLong) => "route prefix must be between 0 and 32",
            ArgsError::InvalidRoute(CidrError::BadNetwork) => "invalid IPv4 address syntax",
        }
    }
}

/// Why a text is not a `u16`, as Rust's integer parser tells it.
#[derive(Clone, Copy, Debug, PartialEq, Eq, Structural)]
pub enum PortError {
    Empty,
    InvalidDigit,
    TooLarge,
}

/// The first fault in the digits `d` from position `k`: a byte that is no digit, or the
/// digit at which the number grows past 65535.
pub open spec fn digit_fault(d: Seq<u8>, k: nat) -> PortError
    decreases d.len() - k,
{
    if k >= d.len() {
        PortError::InvalidDigit
    } else if !is_digit(d[k as int]) {
        PortError::InvalidDigit
    } else if digits_value(d.take(k + 1 as int)) > 65535 {
        PortError::TooLarge
    } else {
        digit_fault(d, k + 1)
    }
}

/// Why `t` is not a `u16`: it is empty; or, after one optional `+`, nothing is left or its
/// first fault, read from the left, decides.
#[verifier::opaque]
pub open spec fn port_error_of(t: Seq<u8>) -> PortError {
    if t.len() == 0 {
        PortError::Empty
    } else if strip_plus(t).len() == 0 {
        PortError::InvalidDigit
    } else {
        digit_fault(strip_plus(t), 0)
    }
}

/// Tells why a port argument that does not read as a `u16` is refused.
pub fn port_error(s: &str) -> (r: PortError)
    ensures
        r == port_error_of(s.spec_bytes()),
{
    reveal(port_error_of);
    let b = s.as_bytes();
    let n = b.len();
    if n == 0 {
        return PortError::Empty;
    }
    let start: usize = if b[0] == 43 { 1 } else { 0 };
    if start == n {
        return PortError::InvalidDigit;
    }
    let ghost d = strip_plus(b@);
    assert(d =~= b@.skip(start as int));
    let mut k: usize = start;
    let mut value: u64 = 0;
    assert(d.take(0) =~= Seq::<u8>::empty());
    assert(port_error_of(s.spec_bytes()) == digit_fault(d, 0));
    while k < n
        invariant
            port_error_of(s.spec_bytes()) == digit_fault(d, 0),
            d.len() == n - start,
            start <= k <= n,
            n == b@.len(),
            d == b@.skip(start as int),
            value == digits_value(d.take(k - start)),
            value <= 65535,
            digit_fault(d, 0) == digit_fault(d, (k - start) as nat),
        decreases n - k,
    {
        let c = b[k];
        let ghost j: nat = (k - start) as nat;
        assert(d[j as int] == c);
        if !(48 <= c && c <= 57) {
            assert(digit_fault(d, j) == PortError::InvalidDigit);
            return PortError::InvalidDigit;
        }
        assert(d.take(j + 1 as int) =~= d.take(j as int).push(c));
        proof {
            crate::text::lemma_digits_value_push(d.take(j as int), c);
        }
        value = value * 10 + (c - 48) as u64;
        if value > 65535 {
            assert(digit_fault(d, j) == PortError::TooLarge);
            return PortError::TooLarge;
        }
        assert(digit_fault(d, j) == digit_fault(d, j + 1));
        k = k + 1;
    }
    PortError::InvalidDigit
}

/// Where a program's link finds the switch it joins.
#[derive(Clone, Copy, Debug, PartialEq, Eq, Structural)]
pub enum Uplink {
    /// The address given on the command line.
    Given(SocketAddrV4),
    /// The address the running switch left in its state file.
    SwitchFile,
    /// The address a router left for this gateway, or else the switch's state file.
    GatewayFile(Ipv4Addr),
    /// The interface the WAN description names for this hardware address; the interface's
    /// own address is then the default gateway.
    WanUplink(MacAddr),
}

/// How a program gets its own address.
#[derive(Clone, Copy, Debug, PartialEq, Eq, Structural)]
pub enum LocalAddress {
    /// From a DHCP server, through the uplink.
    Auto,
    Fixed(Ipv4Addr),
}

/// The arguments of the chat program. A `bind` of `None` is the default local address.
#[derive(Clone, Copy, Debug, PartialEq, Eq, Structural)]
pub struct ChatPlan {
    pub bind: Option<SocketAddrV4>,
    pub uplink: Uplink,
    pub local: LocalAddress,
    pub mac: MacAddr,
    pub listen_port: u16,
    pub src_port: u16,
    pub gateway: Option<Ipv4Addr>,
}

/// The `i`-th argument, as bytes.
pub open spec fn arg(args: Seq<&str>, i: int) -> Seq<u8> {
    args[i].spec_bytes()
}

/// `auto`
pub open spec fn kw_auto() -> Seq<u8> {
    seq![97u8, 117, 116, 111]
}

/// A hardware address written as six colon-separated hexadecimal bytes.
pub open spec fn mac_of(t: Seq<u8>) -> Option<MacAddr> {
    match parse_mac_text(t) {
        Some(o) => Some(MacAddr::from_seq(o, 0)),
        None => None,
    }
}

/// A local address argument: `auto`, or a dotted-decimal address.
pub open spec fn local_of(t: Seq<u8>) -> Option<LocalAddress> {
    if t == kw_auto() {
        Some(LocalAddress::Auto)
    } else {
        match ipv4_of(t) {
            Some(ip) => Some(LocalAddress::Fixed(ip)),
            None => None,
        }
    }
}

fn mac_arg(s: &str) -> (r: Option<MacAddr>)
    ensures
        r == mac_of(s.spec_bytes()),
{
    MacAddr::parse(s)
}

fn local_arg(s: &str) -> (r: Option<LocalAddress>)
    ensures
        r == local_of(s.spec_bytes()),
{
    let b = s.as_bytes();
    assert(b@.subrange(0, b@.len() as int) =~= b@);
    let auto = [97u8, 117, 116, 111];
    assert(auto@ =~= kw_auto());
    if range_is(b, (0, b.len()), &auto) {
        return Some(LocalAddress::Auto);
    }
    match Ipv4Addr::parse(s) {
        Some(ip) => Some(LocalAddress::Fixed(ip)),
        None => None,
    }
}

/// Chat with bind and switch given: `<bind> <switch> <local-ip|auto> <mac> <listen-port>
/// <src-port> [<gateway-ip>]`.
pub open spec fn chat_given_of(args: Seq<&str>) -> Result<ChatPlan, ArgsError> {
    if socket_of(arg(args, 0)) is None {
        Err(ArgsError::InvalidSocketAddr)
    } else if socket_of(arg(args, 1)) is None {
        Err(ArgsError::InvalidSocketAddr)
    } else if mac_of(arg(args, 3)) is None {
        Err(ArgsError::InvalidMac)
    } else if local_of(arg(args, 2)) is None {
        Err(ArgsError::InvalidIp)
    } else if u16_of(arg(args, 4)) is None {
        Err(ArgsError::InvalidPort(port_error_of(arg(args, 4))))
    } else if u16_of(arg(args, 5)) is None {
        Err(ArgsError::InvalidPort(port_error_of(arg(args, 5))))
    } else if args.len() == 7 && ipv4_of(arg(args, 6)) is None {
        Err(ArgsError::InvalidIp)
    } else {
        Ok(ChatPlan {
            bind: Some(socket_of(arg(args, 0))->0),
            uplink: Uplink::Given(socket_of(arg(args, 1))->0),
            local: local_of(arg(args, 2))->0,
            mac: mac_of(arg(args, 3))->0,
            listen_port: u16_of(arg(args, 4))->0,
            src_port: u16_of(arg(args, 5))->0,
            gateway: if args.len() == 7 { Some(ipv4_of(arg(args, 6))->0) } else { None },
        })
    }
}

/// Chat through a gateway: `<local-ip|auto> <mac> <listen-port> <src-port> <gateway-ip>`.
pub open spec fn chat_gateway_of(args: Seq<&str>) -> Result<ChatPlan, ArgsError> {
    if ipv4_of(arg(args, 4)) is None {
        Err(ArgsError::InvalidIp)
    } else if mac_of(arg(args, 1)) is None {
        Err(ArgsError::InvalidMac)
    } else if local_of(arg(args, 0)) is None {
        Err(ArgsError::InvalidIp)
    } else if u16_of(arg(args, 2)) is None {
        Err(ArgsError::InvalidPort(port_error_of(arg(args, 2))))
    } else if u16_of(arg(args, 3)) is None {
        Err(ArgsError::InvalidPort(port_error_of(arg(args, 3))))
    } else {
        Ok(ChatPlan {
            bind: None,
            uplink: Uplink::GatewayFile(ipv4_of(arg(args, 4))->0),
            local: local_of(arg(args, 0))->0,
            mac: mac_of(arg(args, 1))->0,
            listen_port: u16_of(arg(args, 2))->0,
            src_port: u16_of(arg(args, 3))->0,
            gateway: Some(ipv4_of(arg(args, 4))->0),
        })
    }
}

/// Four chat arguments. `<mac> <listen-port> <src-port> <gateway-ip>` when the first is a
/// hardware address; `<local-ip|auto> <mac> <listen-port> <src-port>` otherwise.
pub open spec fn chat_four_of(args: Seq<&str>) -> Result<ChatPlan, ArgsError> {
    if mac_of(arg(args, 0)) is Some {
        if ipv4_of(arg(args, 3)) is None {
            Err(ArgsError::InvalidIp)
        } else if u16_of(arg(args, 1)) is None {
            Err(ArgsError::InvalidPort(port_error_of(arg(args, 1))))
        } else if u16_of(arg(args, 2)) is None {
            Err(ArgsError::InvalidPort(port_error_of(arg(args, 2))))
        } else {
            Ok(ChatPlan {
                bind: None,
                uplink: Uplink::GatewayFile(ipv4_of(arg(args, 3))->0),
                local: LocalAddress::Auto,
                mac: mac_of(arg(args, 0))->0,
                listen_port: u16_of(arg(args, 1))->0,
                src_port: u16_of(arg(args, 2))->0,
                gateway: Some(ipv4_of(arg(args, 3))->0),
            })
        }
    } else if mac_of(arg(args, 1)) is None {
        Err(ArgsError::InvalidMac)
    } else if local_of(arg(args, 0)) is None {
        Err(ArgsError::InvalidIp)
    } else if u16_of(arg(args, 2)) is None {
        Err(ArgsError::InvalidPort(port_error_of(arg(args, 2))))
    } else if u16_of(arg(args, 3)) is None {
        Err(ArgsError::InvalidPort(port_error_of(arg(args, 3))))
    } else {
        Ok(ChatPlan {
            bind: None,
            uplink: Uplink::SwitchFile,
            local: local_of(arg(args, 0))->0,
            mac: mac_of(arg(args, 1))->0,
            listen_port: u16_of(arg(args, 2))->0,
            src_port: u16_of(arg(args, 3))->0,
            gateway: None,
        })
    }
}

/// Three chat arguments: `<mac> <listen-port>` and then an uplink's hardware address, a
/// gateway address, or a source port.
pub open spec fn chat_three_of(args: Seq<&str>) -> Result<ChatPlan, ArgsError> {
    if mac_of(arg(args, 0)) is None {
        Err(ArgsError::InvalidMac)
    } else if u16_of(arg(args, 1)) is None {
        Err(ArgsError::InvalidPort(port_error_of(arg(args, 1))))
    } else {
        let mac = mac_of(arg(args, 0))->0;
        let listen = u16_of(arg(args, 1))->0;
        if mac_of(arg(args, 2)) is Some {
            Ok(ChatPlan {
                bind: None,
                uplink: Uplink::WanUplink(mac_of(arg(args, 2))->0),
                local: LocalAddress::Auto,
                mac,
                listen_port: listen,
                src_port: listen,
                gateway: None,
            })
        } else {
            let gateway = ipv4_of(arg(args, 2));
            let uplink = match gateway {
                Some(g) => Uplink::GatewayFile(g),
                None => Uplink::SwitchFile,
            };
            match u16_of(arg(args, 2)) {
                Some(src) => Ok(ChatPlan {
                    bind: None,
                    uplink,
                    local: LocalAddress::Auto,
                    mac,
                    listen_port: listen,
                    src_port: src,
                    gateway: None,
                }),
                None => Ok(ChatPlan {
                    bind: None,
                    uplink,
                    local: LocalAddress::Auto,
                    mac,
                    listen_port: listen,
                    src_port: listen,
                    gateway,
                }),
            }
        }
    }
}

/// Two chat arguments: `<mac> <listen-port>`.
pub open spec fn chat_two_of(args: Seq<&str>) -> Result<ChatPlan, ArgsError> {
    if mac_of(arg(args, 0)) is None {
        Err(ArgsError::InvalidMac)
    } else if u16_of(arg(args, 1)) is None {
        Err(ArgsError::InvalidPort(port_error_of(arg(args, 1))))
    } else {
        Ok(ChatPlan {
            bind: None,
            uplink: Uplink::SwitchFile,
            local: LocalAddress::Auto,
            mac: mac_of(arg(args, 0))->0,
            listen_port: u16_of(arg(args, 1))->0,
            src_port: u16_of(arg(args, 1))->0,
            gateway: None,
        })
    }
}

/// The chat program's arguments: two to seven of them, in the forms above.
pub open spec fn chat_plan_of(args: Seq<&str>) -> Result<ChatPlan, ArgsError> {
    let n = args.len();
    if n == 6 || n == 7 {
        chat_given_of(args)
    } else if n == 5 {
        chat_gateway_of(args)
    } else if n == 4 {
        chat_four_of(args)
    } else if n == 3 {
        chat_three_of(args)
    } else if n == 2 {
        chat_two_of(args)
    } else {
        Err(ArgsError::Usage)
    }
}

/// Reads the chat program's arguments.
pub fn chat_plan(args: &[&str]) -> (r: Result<ChatPlan, ArgsError>)
    ensures
        r == chat_plan_of(args@),
{
    let n = args.len();
    if n == 6 || n == 7 {
        let bind = match SocketAddrV4::parse(args[0]) {
            Some(a) => a,
            None => return Err(ArgsError::InvalidSocketAddr),
        };
        let switch = match SocketAddrV4::parse(args[1]) {
            Some(a) => a,
            None => return Err(ArgsError::InvalidSocketAddr),
        };
        let mac = match mac_arg(args[3]) {
            Some(m) => m,
            None => return Err(ArgsError::InvalidMac),
        };
        let local = match local_arg(args[2]) {
            Some(l) => l,
            None => return Err(ArgsError::InvalidIp),
        };
        let listen_port = match parse_u16(args[4]) {
            Some(p) => p,
            None => return Err(ArgsError::InvalidPort(port_error(args[4]))),
        };
        let src_port = match parse_u16(args[5]) {
            Some(p) => p,
            None => return Err(ArgsError::InvalidPort(port_error(args[5]))),
        };
        let gateway = if n == 7 {
            match Ipv4Addr::parse(args[6]) {
                Some(g) => Some(g),
                None => return Err(ArgsError::InvalidIp),
            }
        } else {
            None
        };
        return Ok(ChatPlan { bind: Some(bind), uplink: Uplink::Given(switch), local, mac, listen_port, src_port, gateway });
    }
    if n == 5 {
        let gateway = match Ipv4Addr::parse(args[4]) {
            Some(g) => g,
            None => return Err(ArgsError::InvalidIp),
        };
        let mac = match mac_arg(args[1]) {
            Some(m) => m,
            None => return Err(ArgsError::InvalidMac),
        };
        let local = match local_arg(args[0]) {
            Some(l) => l,
            None => return Err(ArgsError::InvalidIp),
        };
        let listen_port = match parse_u16(args[2]) {
            Some(p) => p,
            None => return Err(ArgsError::InvalidPort(port_error(args[2]))),
        };
        let src_port = match parse_u16(args[3]) {
            Some(p) => p,
            None => return Err(ArgsError::InvalidPort(port_error(args[3]))),
        };
        return Ok(ChatPlan {
            bind: None,
            uplink: Uplink::GatewayFile(gateway),
            local,
            mac,
            listen_port,
            src_port,
            gateway: Some(gateway),
        });
    }
    if n == 4 {
        match mac_arg(args[0]) {
            Some(mac) => {
                let gateway = match Ipv4Addr::parse(args[3]) {
                    Some(g) => g,
                    None => return Err(ArgsError::InvalidIp),
                };
                let listen_port = match parse_u16(args[1]) {
                    Some(p) => p,
                    None => return Err(ArgsError::InvalidPort(port_error(args[1]))),
                };
                let src_port = match parse_u16(args[2]) {
                    Some(p) => p,
                    None => return Err(ArgsError::InvalidPort(port_error(args[2]))),
                };
                return Ok(ChatPlan {
                    bind: None,
                    uplink: Uplink::GatewayFile(gateway),
                    local: LocalAddress::Auto,
                    mac,
                    listen_port,
                    src_port,
                    gateway: Some(gateway),
                });
            },
            None => {
                let mac = match mac_arg(args[1]) {
                    Some(m) => m,
                    None => return Err(ArgsError::InvalidMac),
                };
                let local = match local_arg(args[0]) {
                    Some(l) => l,
                    None => return Err(ArgsError::InvalidIp),
                };
                let listen_port = match parse_u16(args[2]) {
                    Some(p) => p,
                    None => return Err(ArgsError::InvalidPort(port_error(args[2]))),
                };
                let src_port = match parse_u16(args[3]) {
                    Some(p) => p,
                    None => return Err(ArgsError::InvalidPort(port_error(args[3]))),
                };
                return Ok(ChatPlan { bind: None, uplink: Uplink::SwitchFile, local, mac, listen_port, src_port, gateway: None });
            },
        }
    }
    if n == 3 {
        let mac = match mac_arg(args[0]) {
            Some(m) => m,
            None => return Err(ArgsError::InvalidMac),
        };
        let listen_port = match parse_u16(args[1]) {
            Some(p) => p,
            None => return Err(ArgsError::InvalidPort(port_error(args[1]))),
        };
        if let Some(uplink_mac) = mac_arg(args[2]) {
            return Ok(ChatPlan {
                bind: None,
                uplink: Uplink::WanUplink(uplink_mac),
                local: LocalAddress::Auto,
                mac,
                listen_port,
                src_port: listen_port,
                gateway: None,
            });
        }
        let gateway = Ipv4Addr::parse(args[2]);
        let uplink = match gateway {
            Some(g) => Uplink::GatewayFile(g),
            None => Uplink::SwitchFile,
        };
        return match parse_u16(args[2]) {
            Some(src_port) => Ok(ChatPlan { bind: None, uplink, local: LocalAddress::Auto, mac, listen_port, src_port, gateway: None }),
            None => Ok(ChatPlan { bind: None, uplink, local: LocalAddress::Auto, mac, listen_port, src_port: listen_port, gateway }),
        };
    }
    if n == 2 {
        let mac = match mac_arg(args[0]) {
            Some(m) => m,
            None => return Err(ArgsError::InvalidMac),
        };
        let listen_port = match parse_u16(args[1]) {
            Some(p) => p,
            None => return Err(ArgsError::InvalidPort(port_error(args[1]))),
        };
        return Ok(ChatPlan {
            bind: None,
            uplink: Uplink::SwitchFile,
            local: LocalAddress::Auto,
            mac,
            listen_port,
            src_port: listen_port,
            gateway: None,
        });
    }
    Err(ArgsError::Usage)
}


/// The arguments of the HTTP server.
#[derive(Clone, Copy, Debug, PartialEq, Eq, Structural)]
pub struct ServerPlan {
    pub bind: Option<SocketAddrV4>,
    pub uplink: Uplink,
    pub local: LocalAddress,
    pub mac: MacAddr,
    pub listen_port: u16,
}

/// The HTTP server's arguments: `<bind> <switch> <local-ip|auto> <mac> <listen-port>`;
/// `<mac> <listen-port> <uplink-mac>` when the third is a hardware address, else
/// `<local-ip|auto> <mac> <listen-port>`; or `<mac> <listen-port>`.
pub open spec fn server_plan_of(args: Seq<&str>) -> Result<ServerPlan, ArgsError> {
    let n = args.len();
    if n == 5 {
        if socket_of(arg(args, 0)) is None || socket_of(arg(args, 1)) is None {
            Err(ArgsError::InvalidSocketAddr)
        } else if mac_of(arg(args, 3)) is None {
            Err(ArgsError::InvalidMac)
        } else if local_of(arg(args, 2)) is None {
            Err(ArgsError::InvalidIp)
        } else if u16_of(arg(args, 4)) is None {
            Err(ArgsError::InvalidPort(port_error_of(arg(args, 4))))
        } else {
            Ok(ServerPlan {
                bind: Some(socket_of(arg(args, 0))->0),
                uplink: Uplink::Given(socket_of(arg(args, 1))->0),
                local: local_of(arg(args, 2))->0,
                mac: mac_of(arg(args, 3))->0,
                listen_port: u16_of(arg(args, 4))->0,
            })
        }
    } else if n == 3 {
        if mac_of(arg(args, 2)) is Some {
            if mac_of(arg(args, 0)) is None {
                Err(ArgsError::InvalidMac)
            } else if u16_of(arg(args, 1)) is None {
                Err(ArgsError::InvalidPort(port_error_of(arg(args, 1))))
            } else {
                Ok(ServerPlan {
                    bind: None,
                    uplink: Uplink::WanUplink(mac_of(arg(args, 2))->0),
                    local: LocalAddress::Auto,
                    mac: mac_of(arg(args, 0))->0,
                    listen_port: u16_of(arg(args, 1))->0,
                })
            }
        } else if mac_of(arg(args, 1)) is None {
            Err(ArgsError::InvalidMac)
        } else if local_of(arg(args, 0)) is None {
            Err(ArgsError::InvalidIp)
        } else if u16_of(arg(args, 2)) is None {
            Err(ArgsError::InvalidPort(port_error_of(arg(args, 2))))
        } else {
            Ok(ServerPlan {
                bind: None,
                uplink: Uplink::SwitchFile,
                local: local_of(arg(args, 0))->0,
                mac: mac_of(arg(args, 1))->0,
                listen_port: u16_of(arg(args, 2))->0,
            })
        }
    } else if n == 2 {
        if mac_of(arg(args, 0)) is None {
            Err(ArgsError::InvalidMac)
        } else if u16_of(arg(args, 1)) is None {
            Err(ArgsError::InvalidPort(port_error_of(arg(args, 1))))
        } else {
            Ok(ServerPlan {
                bind: None,
                uplink: Uplink::SwitchFile,
                local: LocalAddress::Auto,
                mac: mac_of(arg(args, 0))->0,
                listen_port: u16_of(arg(args, 1))->0,
            })
        }
    } else {
        Err(ArgsError::Usage)
    }
}

/// Reads the HTTP server's arguments.
pub fn server_plan(args: &[&str]) -> (r: Result<ServerPlan, ArgsError>)
    ensures
        r == server_plan_of(args@),
{
    let n = args.len();
    if n == 5 {
        let bind = match SocketAddrV4::parse(args[0]) {
            Some(a) => a,
            None => return Err(ArgsError::InvalidSocketAddr),
        };
        let switch = match SocketAddrV4::parse(args[1]) {
            Some(a) => a,
            None => return Err(ArgsError::InvalidSocketAddr),
        };
        let mac = match mac_arg(args[3]) {
            Some(m) => m,
            None => return Err(ArgsError::InvalidMac),
        };
        let local = match local_arg(args[2]) {
            Some(l) => l,
            None => return Err(ArgsError::InvalidIp),
        };
        let listen_port = match parse_u16(args[4]) {
            Some(p) => p,
            None => return Err(ArgsError::InvalidPort(port_error(args[4]))),
        };
        return Ok(ServerPlan { bind: Some(bind), uplink: Uplink::Given(switch), local, mac, listen_port });
    }
    if n == 3 {
        if let Some(uplink_mac) = mac_arg(args[2]) {
            let mac = match mac_arg(args[0]) {
                Some(m) => m,
                None => return Err(ArgsError::InvalidMac),
            };
            let listen_port = match parse_u16(args[1]) {
                Some(p) => p,
                None => return Err(ArgsError::InvalidPort(port_error(args[1]))),
            };
            return Ok(ServerPlan { bind: None, uplink: Uplink::WanUplink(uplink_mac), local: LocalAddress::Auto, mac, listen_port });
        }
        let mac = match mac_arg(args[1]) {
            Some(m) => m,
            None => return Err(ArgsError::InvalidMac),
        };
        let local = match local_arg(args[0]) {
            Some(l) => l,
            None => return Err(ArgsError::InvalidIp),
        };
        let listen_port = match parse_u16(args[2]) {
            Some(p) => p,
            None => return Err(ArgsError::InvalidPort(port_error(args[2]))),
        };
        return Ok(ServerPlan { bind: None, uplink: Uplink::SwitchFile, local, mac, listen_port });
    }
    if n == 2 {
        let mac = match mac_arg(args[0]) {
            Some(m) => m,
            None => return Err(ArgsError::InvalidMac),
        };
        let listen_port = match parse_u16(args[1]) {
            Some(p) => p,
            None => return Err(ArgsError::InvalidPort(port_error(args[1]))),
        };
        return Ok(ServerPlan { bind: None, uplink: Uplink::SwitchFile, local: LocalAddress::Auto, mac, listen_port });
    }
    Err(ArgsError::Usage)
}

/// The arguments of the HTTP client.
#[derive(Clone, Debug)]
pub struct GetPlan {
    pub bind: Option<SocketAddrV4>,
    pub uplink: Uplink,
    pub local: LocalAddress,
    pub peer_ip: Ipv4Addr,
    pub mac: MacAddr,
    pub server_port: u16,
    pub path: String,
}

/// The HTTP client's arguments, without the path: the path is the argument at `path_at`.
pub struct GetView {
    pub bind: Option<SocketAddrV4>,
    pub uplink: Uplink,
    pub local: LocalAddress,
    pub peer_ip: Ipv4Addr,
    pub mac: MacAddr,
    pub server_port: u16,
    pub path_at: int,
}

impl GetPlan {
    /// The plan, with the position of its path among the arguments.
    pub open spec fn matches(self, v: GetView, args: Seq<&str>) -> bool {
        &&& self.bind == v.bind
        &&& self.uplink == v.uplink
        &&& self.local == v.local
        &&& self.peer_ip == v.peer_ip
        &&& self.mac == v.mac
        &&& self.server_port == v.server_port
        &&& 0 <= v.path_at < args.len()
        &&& self.path@ == args[v.path_at]@
    }
}

/// The HTTP client's arguments: `<bind> <switch> <local-ip|auto> <peer-ip> <mac>
/// <server-port> <path>`; `<peer-ip> <mac> <server-port> <path> <uplink-mac>` when the fifth
/// is a hardware address, else `<local-ip|auto> <peer-ip> <mac> <server-port> <path>`; or
/// `<peer-ip> <mac> <server-port> <path>`.
pub open spec fn get_plan_of(args: Seq<&str>) -> Result<GetView, ArgsError> {
    let n = args.len();
    if n == 7 {
        if socket_of(arg(args, 0)) is None || socket_of(arg(args, 1)) is None {
            Err(ArgsError::InvalidSocketAddr)
        } else if mac_of(arg(args, 4)) is None {
            Err(ArgsError::InvalidMac)
        } else if local_of(arg(args, 2)) is None || ipv4_of(arg(args, 3)) is None {
            Err(ArgsError::InvalidIp)
        } else if u16_of(arg(args, 5)) is None {
            Err(ArgsError::InvalidPort(port_error_of(arg(args, 5))))
        } else {
            Ok(GetView {
                bind: Some(socket_of(arg(args, 0))->0),
                uplink: Uplink::Given(socket_of(arg(args, 1))->0),
                local: local_of(arg(args, 2))->0,
                peer_ip: ipv4_of(arg(args, 3))->0,
                mac: mac_of(arg(args, 4))->0,
                server_port: u16_of(arg(args, 5))->0,
                path_at: 6,
            })
        }
    } else if n == 5 {
        if mac_of(arg(args, 4)) is Some {
            if mac_of(arg(args, 1)) is None {
                Err(ArgsError::InvalidMac)
            } else if ipv4_of(arg(args, 0)) is None {
                Err(ArgsError::InvalidIp)
            } else if u16_of(arg(args, 2)) is None {
                Err(ArgsError::InvalidPort(port_error_of(arg(args, 2))))
            } else {
                Ok(GetView {
                    bind: None,
                    uplink: Uplink::WanUplink(mac_of(arg(args, 4))->0),
                    local: LocalAddress::Auto,
                    peer_ip: ipv4_of(arg(args, 0))->0,
                    mac: mac_of(arg(args, 1))->0,
                    server_port: u16_of(arg(args, 2))->0,
                    path_at: 3,
                })
            }
        } else if mac_of(arg(args, 2)) is None {
            Err(ArgsError::InvalidMac)
        } else if local_of(arg(args, 0)) is None || ipv4_of(arg(args, 1)) is None {
            Err(ArgsError::InvalidIp)
        } else if u16_of(arg(args, 3)) is None {
            Err(ArgsError::InvalidPort(port_error_of(arg(args, 3))))
        } else {
            Ok(GetView {
                bind: None,
                uplink: Uplink::SwitchFile,
                local: local_of(arg(args, 0))->0,
                peer_ip: ipv4_of(arg(args, 1))->0,
                mac: mac_of(arg(args, 2))->0,
                server_port: u16_of(arg(args, 3))->0,
                path_at: 4,
            })
        }
    } else if n == 4 {
        if mac_of(arg(args, 1)) is None {
            Err(ArgsError::InvalidMac)
        } else if ipv4_of(arg(args, 0)) is None {
            Err(ArgsError::InvalidIp)
        } else if u16_of(arg(args, 2)) is None {
            Err(ArgsError::InvalidPort(port_error_of(arg(args, 2))))
        } else {
            Ok(GetView {
                bind: None,
                uplink: Uplink::SwitchFile,
                local: LocalAddress::Auto,
                peer_ip: ipv4_of(arg(args, 0))->0,
                mac: mac_of(arg(args, 1))->0,
                server_port: u16_of(arg(args, 2))->0,
                path_at: 3,
            })
        }
    } else {
        Err(ArgsError::Usage)
    }
}

/// Reads the HTTP client's arguments.
pub fn get_plan(args: &[&str]) -> (r: Result<GetPlan, ArgsError>)
    ensures
        match (r, get_plan_of(args@)) {
            (Ok(p), Ok(v)) => p.matches(v, args@),
            (Err(e), Err(f)) => e == f,
            _ => false,
        },
{
    let n = args.len();
    if n == 7 {
        let bind = match SocketAddrV4::parse(args[0]) {
            Some(a) => a,
            None => return Err(ArgsError::InvalidSocketAddr),
        };
        let switch = match SocketAddrV4::parse(args[1]) {
            Some(a) => a,
            None => return Err(ArgsError::InvalidSocketAddr),
        };
        let mac = match mac_arg(args[4]) {
            Some(m) => m,
            None => return Err(ArgsError::InvalidMac),
        };
        let local = match local_arg(args[2]) {
            Some(l) => l,
            None => return Err(ArgsError::InvalidIp),
        };
        let peer_ip = match Ipv4Addr::parse(args[3]) {
            Some(ip) => ip,
            None => return Err(ArgsError::InvalidIp),
        };
        let server_port = match parse_u16(args[5]) {
            Some(p) => p,
            None => return Err(ArgsError::InvalidPort(port_error(args[5]))),
        };
        let path = args[6].to_owned();
        return Ok(GetPlan { bind: Some(bind), uplink: Uplink::Given(switch), local, peer_ip, mac, server_port, path });
    }
    if n == 5 {
        if let Some(uplink_mac) = mac_arg(args[4]) {
            let mac = match mac_arg(args[1]) {
                Some(m) => m,
                None => return Err(ArgsError::InvalidMac),
            };
            let peer_ip = match Ipv4Addr::parse(args[0]) {
                Some(ip) => ip,
                None => return Err(ArgsError::InvalidIp),
            };
            let server_port = match parse_u16(args[2]) {
                Some(p) => p,
                None => return Err(ArgsError::InvalidPort(port_error(args[2]))),
            };
            let path = args[3].to_owned();
            return Ok(GetPlan {
                bind: None,
                uplink: Uplink::WanUplink(uplink_mac),
                local: LocalAddress::Auto,
                peer_ip,
                mac,
                server_port,
                path,
            });
        }
        let mac = match mac_arg(args[2]) {
            Some(m) => m,
            None => return Err(ArgsError::InvalidMac),
        };
        let local = match local_arg(args[0]) {
            Some(l) => l,
            None => return Err(ArgsError::InvalidIp),
        };
        let peer_ip = match Ipv4Addr::parse(args[1]) {
            Some(ip) => ip,
            None => return Err(ArgsError::InvalidIp),
        };
        let server_port = match parse_u16(args[3]) {
            Some(p) => p,
            None => return Err(ArgsError::InvalidPort(port_error(args[3]))),
        };
        let path = args[4].to_owned();
        return Ok(GetPlan { bind: None, uplink: Uplink::SwitchFile, local, peer_ip, mac, server_port, path });
    }
    if n == 4 {
        let mac = match mac_arg(args[1]) {
            Some(m) => m,
            None => return Err(ArgsError::InvalidMac),
        };
        let peer_ip = match Ipv4Addr::parse(args[0]) {
            Some(ip) => ip,
            None => return Err(ArgsError::InvalidIp),
        };
        let server_port = match parse_u16(args[2]) {
            Some(p) => p,
            None => return Err(ArgsError::InvalidPort(port_error(args[2]))),
        };
        let path = args[3].to_owned();
        return Ok(GetPlan {
            bind: None,
            uplink: Uplink::SwitchFile,
            local: LocalAddress::Auto,
            peer_ip,
            mac,
            server_port,
            path,
        });
    }
    Err(ArgsError::Usage)
}


/// The arguments of the gateway: a switch with a DHCP server on it.
#[derive(Clone, Copy, Debug, PartialEq, Eq, Structural)]
pub struct GatewayPlan {
    pub bind: Option<SocketAddrV4>,
    pub gateway_ip: Ipv4Addr,
    pub gateway_mac: MacAddr,
    pub pool_start: Ipv4Addr,
    pub pool_end: Ipv4Addr,
}

/// The gateway's own address when none is given: 10.0.0.254.
pub open spec fn default_gateway_ip() -> Ipv4Addr {
    Ipv4Addr(10, 0, 0, 254)
}

/// The gateway's hardware address when none is given: 02:00:00:00:00:fe.
pub open spec fn default_gateway_mac() -> MacAddr {
    MacAddr(2, 0, 0, 0, 0, 0xfe)
}

/// The gateway's arguments: none or `<bind>`, with the default gateway address, hardware
/// address and pool 10.0.0.10 to 10.0.0.99; or `[<bind>] <gateway-ip> <mac> <pool-start>
/// <pool-end>`.
pub open spec fn gateway_plan_of(args: Seq<&str>) -> Result<GatewayPlan, ArgsError> {
    let n = args.len();
    if n == 0 || n == 1 {
        if n == 1 && socket_of(arg(args, 0)) is None {
            Err(ArgsError::InvalidSocketAddr)
        } else {
            Ok(GatewayPlan {
                bind: if n == 1 { Some(socket_of(arg(args, 0))->0) } else { None },
                gateway_ip: default_gateway_ip(),
                gateway_mac: default_gateway_mac(),
                pool_start: Ipv4Addr(10, 0, 0, 10),
                pool_end: Ipv4Addr(10, 0, 0, 99),
            })
        }
    } else if n == 4 || n == 5 {
        let k: int = n - 4;
        if n == 5 && socket_of(arg(args, 0)) is None {
            Err(ArgsError::InvalidSocketAddr)
        } else if ipv4_of(arg(args, k)) is None {
            Err(ArgsError::InvalidIp)
        } else if mac_of(arg(args, k + 1)) is None {
            Err(ArgsError::InvalidMac)
        } else if ipv4_of(arg(args, k + 2)) is None || ipv4_of(arg(args, k + 3)) is None {
            Err(ArgsError::InvalidIp)
        } else {
            Ok(GatewayPlan {
                bind: if n == 5 { Some(socket_of(arg(args, 0))->0) } else { None },
                gateway_ip: ipv4_of(arg(args, k))->0,
                gateway_mac: mac_of(arg(args, k + 1))->0,
                pool_start: ipv4_of(arg(args, k + 2))->0,
                pool_end: ipv4_of(arg(args, k + 3))->0,
            })
        }
    } else {
        Err(ArgsError::Usage)
    }
}

/// Reads the gateway's arguments.
pub fn gateway_plan(args: &[&str]) -> (r: Result<GatewayPlan, ArgsError>)
    ensures
        r == gateway_plan_of(args@),
{
    let n = args.len();
    if n == 0 || n == 1 {
        let bind = if n == 1 {
            match SocketAddrV4::parse(args[0]) {
                Some(a) => Some(a),
                None => return Err(ArgsError::InvalidSocketAddr),
            }
        } else {
            None
        };
        return Ok(GatewayPlan {
            bind,
            gateway_ip: Ipv4Addr(10, 0, 0, 254),
            gateway_mac: MacAddr(2, 0, 0, 0, 0, 0xfe),
            pool_start: Ipv4Addr(10, 0, 0, 10),
            pool_end: Ipv4Addr(10, 0, 0, 99),
        });
    }
    if n == 4 || n == 5 {
        let k: usize = n - 4;
        let bind = if n == 5 {
            match SocketAddrV4::parse(args[0]) {
                Some(a) => Some(a),
                None => return Err(ArgsError::InvalidSocketAddr),
            }
        } else {
            None
        };
        let gateway_ip = match Ipv4Addr::parse(args[k]) {
            Some(ip) => ip,
            None => return Err(ArgsError::InvalidIp),
        };
        let gateway_mac = match mac_arg(args[k + 1]) {
            Some(m) => m,
            None => return Err(ArgsError::InvalidMac),
        };
        let pool_start = match Ipv4Addr::parse(args[k + 2]) {
            Some(ip) => ip,
            None => return Err(ArgsError::InvalidIp),
        };
        let pool_end = match Ipv4Addr::parse(args[k + 3]) {
            Some(ip) => ip,
            None => return Err(ArgsError::InvalidIp),
        };
        return Ok(GatewayPlan { bind, gateway_ip, gateway_mac, pool_start, pool_end });
    }
    Err(ArgsError::Usage)
}

/// The arguments of the DHCP server.
#[derive(Clone, Copy, Debug, PartialEq, Eq, Structural)]
pub struct DhcpServerPlan {
    pub bind: Option<SocketAddrV4>,
    pub uplink: Uplink,
    pub server_ip: Ipv4Addr,
    pub mac: MacAddr,
    pub pool_start: Ipv4Addr,
    pub pool_end: Ipv4Addr,
}

/// The DHCP server's arguments: `[<bind> <switch>] <server-ip> <mac> <pool-start>
/// <pool-end>`; without bind and switch it joins the switch of the state file.
pub open spec fn dhcp_server_plan_of(args: Seq<&str>) -> Result<DhcpServerPlan, ArgsError> {
    let n = args.len();
    if n == 4 || n == 6 {
        let k: int = n - 4;
        if n == 6 && (socket_of(arg(args, 0)) is None || socket_of(arg(args, 1)) is None) {
            Err(ArgsError::InvalidSocketAddr)
        } else if ipv4_of(arg(args, k)) is None {
            Err(ArgsError::InvalidIp)
        } else if mac_of(arg(args, k + 1)) is None {
            Err(ArgsError::InvalidMac)
        } else if ipv4_of(arg(args, k + 2)) is None || ipv4_of(arg(args, k + 3)) is None {
            Err(ArgsError::InvalidIp)
        } else {
            Ok(DhcpServerPlan {
                bind: if n == 6 { Some(socket_of(arg(args, 0))->0) } else { None },
                uplink: if n == 6 { Uplink::Given(socket_of(arg(args, 1))->0) } else { Uplink::SwitchFile },
                server_ip: ipv4_of(arg(args, k))->0,
                mac: mac_of(arg(args, k + 1))->0,
                pool_start: ipv4_of(arg(args, k + 2))->0,
                pool_end: ipv4_of(arg(args, k + 3))->0,
            })
        }
    } else {
        Err(ArgsError::Usage)
    }
}

/// Reads the DHCP server's arguments.
pub fn dhcp_server_plan(args: &[&str]) -> (r: Result<DhcpServerPlan, ArgsError>)
    ensures
        r == dhcp_server_plan_of(args@),
{
    let n = args.len();
    if n != 4 && n != 6 {
        return Err(ArgsError::Usage);
    }
    let k: usize = n - 4;
    let (bind, uplink) = if n == 6 {
        let bind = match SocketAddrV4::parse(args[0]) {
            Some(a) => a,
            None => return Err(ArgsError::InvalidSocketAddr),
        };
        let switch = match SocketAddrV4::parse(args[1]) {
            Some(a) => a,
            None => return Err(ArgsError::InvalidSocketAddr),
        };
        (Some(bind), Uplink::Given(switch))
    } else {
        (None, Uplink::SwitchFile)
    };
    let server_ip = match Ipv4Addr::parse(args[k]) {
        Some(ip) => ip,
        None => return Err(ArgsError::InvalidIp),
    };
    let mac = match mac_arg(args[k + 1]) {
        Some(m) => m,
        None => return Err(ArgsError::InvalidMac),
    };
    let pool_start = match Ipv4Addr::parse(args[k + 2]) {
        Some(ip) => ip,
        None => return Err(ArgsError::InvalidIp),
    };
    let pool_end = match Ipv4Addr::parse(args[k + 3]) {
        Some(ip) => ip,
        None => return Err(ArgsError::InvalidIp),
    };
    Ok(DhcpServerPlan { bind, uplink, server_ip, mac, pool_start, pool_end })
}

/// The arguments of the DHCP client.
#[derive(Clone, Copy, Debug, PartialEq, Eq, Structural)]
pub struct DhcpClientPlan {
    pub bind: Option<SocketAddrV4>,
    pub uplink: Uplink,
    pub mac: MacAddr,
}

/// The DHCP client's arguments: `[<bind> <switch>] <mac>`; without bind and switch it joins
/// the switch of the state file.
pub open spec fn dhcp_client_plan_of(args: Seq<&str>) -> Result<DhcpClientPlan, ArgsError> {
    let n = args.len();
    if n == 3 {
        if socket_of(arg(args, 0)) is None || socket_of(arg(args, 1)) is None {
            Err(ArgsError::InvalidSocketAddr)
        } else if mac_of(arg(args, 2)) is None {
            Err(ArgsError::InvalidMac)
        } else {
            Ok(DhcpClientPlan {
                bind: Some(socket_of(arg(args, 0))->0),
                uplink: Uplink::Given(socket_of(arg(args, 1))->0),
                mac: mac_of(arg(args, 2))->0,
            })
        }
    } else if n == 1 {
        if mac_of(arg(args, 0)) is None {
            Err(ArgsError::InvalidMac)
        } else {
            Ok(DhcpClientPlan { bind: None, uplink: Uplink::SwitchFile, mac: mac_of(arg(args, 0))->0 })
        }
    } else {
        Err(ArgsError::Usage)
    }
}

/// Reads the DHCP client's arguments.
pub fn dhcp_client_plan(args: &[&str]) -> (r: Result<DhcpClientPlan, ArgsError>)
    ensures
        r == dhcp_client_plan_of(args@),
{
    let n = args.len();
    if n == 3 {
        let bind = match SocketAddrV4::parse(args[0]) {
            Some(a) => a,
            None => return Err(ArgsError::InvalidSocketAddr),
        };
        let switch = match SocketAddrV4::parse(args[1]) {
            Some(a) => a,
            None => return Err(ArgsError::InvalidSocketAddr),
        };
        let mac = match mac_arg(args[2]) {
            Some(m) => m,
            None => return Err(ArgsError::InvalidMac),
        };
        return Ok(DhcpClientPlan { bind: Some(bind), uplink: Uplink::Given(switch), mac });
    }
    if n == 1 {
        let mac = match mac_arg(args[0]) {
            Some(m) => m,
            None => return Err(ArgsError::InvalidMac),
        };
        return Ok(DhcpClientPlan { bind: None, uplink: Uplink::SwitchFile, mac });
    }
    Err(ArgsError::Usage)
}

/// The switch's arguments: none, or the address to bind.
pub open spec fn switch_bind_of(args: Seq<&str>) -> Result<Option<SocketAddrV4>, ArgsError> {
    if args.len() == 0 {
        Ok(None)
    } else if args.len() == 1 {
        match socket_of(arg(args, 0)) {
            Some(a) => Ok(Some(a)),
            None => Err(ArgsError::InvalidSocketAddr),
        }
    } else {
        Err(ArgsError::Usage)
    }
}

/// Reads the switch's arguments.
pub fn switch_bind(args: &[&str]) -> (r: Result<Option<SocketAddrV4>, ArgsError>)
    ensures
        r == switch_bind_of(args@),
{
    if args.len() == 0 {
        return Ok(None);
    }
    if args.len() == 1 {
        return match SocketAddrV4::parse(args[0]) {
            Some(a) => Ok(Some(a)),
            None => Err(ArgsError::InvalidSocketAddr),
        };
    }
    Err(ArgsError::Usage)
}

/// A line typed at the console of the switch, the gateway or the router.
#[derive(Clone, Copy, Debug, PartialEq, Eq, Structural)]
pub enum ConsoleCommand {
    Quit,
    ShowMac,
    ShowPorts,
    ShowLeases,
    ShowRoutes,
    ShowIfaces,
    Empty,
    Unknown,
}

/// The command a console line is, compared whole.
pub open spec fn console_command_of(line: Seq<u8>) -> ConsoleCommand {
    if line == seq![47u8, 113, 117, 105, 116] {
        ConsoleCommand::Quit
    } else if line == seq![115u8, 104, 111, 119, 32, 109, 97, 99] {
        ConsoleCommand::ShowMac
    } else if line == seq![115u8, 104, 111, 119, 32, 112, 111, 114, 116, 115] {
        ConsoleCommand::ShowPorts
    } else if line == seq![115u8, 104, 111, 119, 32, 108, 101, 97, 115, 101, 115] {
        ConsoleCommand::ShowLeases
    } else if line == seq![115u8, 104, 111, 119, 32, 114, 111, 117, 116, 101, 115] {
        ConsoleCommand::ShowRoutes
    } else if line == seq![115u8, 104, 111, 119, 32, 105, 102, 97, 99, 101, 115] {
        ConsoleCommand::ShowIfaces
    } else if line.len() == 0 {
        ConsoleCommand::Empty
    } else {
        ConsoleCommand::Unknown
    }
}

/// Reads a console line: `/quit`, `show mac`, `show ports`, `show leases`, `show routes`,
/// `show ifaces`, an empty line, or something else.
pub fn console_command(line: &str) -> (r: ConsoleCommand)
    ensures
        r == console_command_of(line.spec_bytes()),
{
    let b = line.as_bytes();
    let n = b.len();
    assert(b@.subrange(0, n as int) =~= b@);
    let quit = [47u8, 113, 117, 105, 116];
    let mac = [115u8, 104, 111, 119, 32, 109, 97, 99];
    let ports = [115u8, 104, 111, 119, 32, 112, 111, 114, 116, 115];
    let leases = [115u8, 104, 111, 119, 32, 108, 101, 97, 115, 101, 115];
    let routes = [115u8, 104, 111, 119, 32, 114, 111, 117, 116, 101, 115];
    let ifaces = [115u8, 104, 111, 119, 32, 105, 102, 97, 99, 101, 115];
    assert(quit@ =~= seq![47u8, 113, 117, 105, 116]);
    assert(mac@ =~= seq![115u8, 104, 111, 119, 32, 109, 97, 99]);
    assert(ports@ =~= seq![115u8, 104, 111, 119, 32, 112, 111, 114, 116, 115]);
    assert(leases@ =~= seq![115u8, 104, 111, 119, 32, 108, 101, 97, 115, 101, 115]);
    assert(routes@ =~= seq![115u8, 104, 111, 119, 32, 114, 111, 117, 116, 101, 115]);
    assert(ifaces@ =~= seq![115u8, 104, 111, 119, 32, 105, 102, 97, 99, 101, 115]);
    if range_is(b, (0, n), &quit) {
        ConsoleCommand::Quit
    } else if range_is(b, (0, n), &mac) {
        ConsoleCommand::ShowMac
    } else if range_is(b, (0, n), &ports) {
        ConsoleCommand::ShowPorts
    } else if range_is(b, (0, n), &leases) {
        ConsoleCommand::ShowLeases
    } else if range_is(b, (0, n), &routes) {
        ConsoleCommand::ShowRoutes
    } else if range_is(b, (0, n), &ifaces) {
        ConsoleCommand::ShowIfaces
    } else if n == 0 {
        ConsoleCommand::Empty
    } else {
        ConsoleCommand::Unknown
    }
}


/// The arguments of the router: the address each interface binds, the two interfaces, and
/// the routes, the two subnets of the interfaces first.
#[derive(Clone, Debug)]
pub struct RouterPlan {
    pub left_bind: SocketAddrV4,
    pub left: InterfaceConfig,
    pub right_bind: SocketAddrV4,
    pub right: InterfaceConfig,
    pub routes: Vec<Route>,
}

/// How the router starts: from the router of the WAN description with this id, or from
/// the interfaces and routes given.
#[derive(Clone, Debug)]
pub enum RouterStart {
    FromConfig(MacAddr),
    Direct(RouterPlan),
}

/// The values of a router plan.
pub struct RouterPlanView {
    pub left_bind: SocketAddrV4,
    pub left_mode: InterfaceLinkMode,
    pub left_ip: Ipv4Addr,
    pub left_mac: MacAddr,
    pub right_bind: SocketAddrV4,
    pub right_mode: InterfaceLinkMode,
    pub right_ip: Ipv4Addr,
    pub right_mac: MacAddr,
    pub routes: Seq<Route>,
}

pub enum RouterStartView {
    FromConfig(MacAddr),
    Direct(RouterPlanView),
}

/// `direct`
pub open spec fn kw_direct() -> Seq<u8> {
    seq![100u8, 105, 114, 101, 99, 116]
}

/// A next hop argument: `direct` (none), or a dotted-decimal address.
pub open spec fn next_hop_of(t: Seq<u8>) -> Option<Option<Ipv4Addr>> {
    if t == kw_direct() {
        Some(None)
    } else {
        match ipv4_of(t) {
            Some(ip) => Some(Some(ip)),
            None => None,
        }
    }
}

/// What is wrong with the four arguments of an interface from position `k`: its bind
/// address, link mode, address and hardware address.
#[verifier::opaque]
pub open spec fn interface_args_error(args: Seq<&str>, k: int) -> Option<ArgsError> {
    if socket_of(arg(args, k)) is None || link_mode_of(arg(args, k + 1)) is None {
        Some(ArgsError::InvalidSocketAddr)
    } else if ipv4_of(arg(args, k + 2)) is None {
        Some(ArgsError::InvalidIp)
    } else if mac_of(arg(args, k + 3)) is None {
        Some(ArgsError::InvalidMac)
    } else {
        None
    }
}

/// The route of the subnet of an interface with address `ip`.
pub open spec fn subnet_route(ip: Ipv4Addr) -> Route {
    Route { network: Ipv4Addr::from_bits(masked_bits(ip, DEFAULT_PREFIX_LEN)), prefix_len: DEFAULT_PREFIX_LEN, next_hop: None }
}

/// The route given by the pair `<cidr> <next-hop|direct>` at position `i`.
#[verifier::opaque]
pub open spec fn route_pair_of(args: Seq<&str>, i: int) -> Result<Route, ArgsError> {
    match cidr_of(arg(args, i)) {
        Err(e) => Err(ArgsError::InvalidRoute(e)),
        Ok((network, prefix_len)) => match next_hop_of(arg(args, i + 1)) {
            None => Err(ArgsError::InvalidIp),
            Some(hop) => Ok(Route { network, prefix_len, next_hop: hop }),
        },
    }
}

/// The routes given in pairs `<cidr> <next-hop|direct>` from position `i`; the first pair
/// that is wrong decides the error.
pub open spec fn route_args_of(args: Seq<&str>, i: int) -> Result<Seq<Route>, ArgsError>
    decreases args.len() - i,
{
    if i < 0 || i + 2 > args.len() {
        Ok(Seq::empty())
    } else {
        match route_pair_of(args, i) {
            Err(e) => Err(e),
            Ok(route) => match route_args_of(args, i + 2) {
                Ok(rest) => Ok(seq![route] + rest),
                Err(e) => Err(e),
            },
        }
    }
}

/// Reads the pair `<cidr> <next-hop|direct>` at position `i`.
fn route_pair(args: &[&str], i: usize) -> (r: Result<Route, ArgsError>)
    requires
        i + 2 <= args@.len(),
    ensures
        r == route_pair_of(args@, i as int),
{
    reveal(route_pair_of);
    let (network, prefix_len) = match parse_cidr(args[i]) {
        Ok(x) => x,
        Err(e) => return Err(ArgsError::InvalidRoute(e)),
    };
    let hop = match next_hop_arg(args[i + 1]) {
        Some(h) => h,
        None => return Err(ArgsError::InvalidIp),
    };
    Ok(Route { network, prefix_len, next_hop: hop })
}

/// The router's arguments: `<router-mac>`, or `<if0-bind> <if0-uplink|listen> <if0-ip>
/// <if0-mac> <if1-bind> <if1-uplink|listen> <if1-ip> <if1-mac>` followed by pairs `<cidr>
/// <next-hop|direct>`. Each interface has a /24 subnet.
pub open spec fn router_start_of(args: Seq<&str>) -> Result<RouterStartView, ArgsError> {
    let n = args.len();
    if n == 1 {
        match mac_of(arg(args, 0)) {
            Some(m) => Ok(RouterStartView::FromConfig(m)),
            None => Err(ArgsError::InvalidMac),
        }
    } else if n < 8 || (n - 8) % 2 != 0 {
        Err(ArgsError::Usage)
    } else if interface_args_error(args, 0) is Some {
        Err(interface_args_error(args, 0)->0)
    } else if interface_args_error(args, 4) is Some {
        Err(interface_args_error(args, 4)->0)
    } else {
        match route_args_of(args, 8) {
            Err(e) => Err(e),
            Ok(extra) => Ok(RouterStartView::Direct(RouterPlanView {
                left_bind: socket_of(arg(args, 0))->0,
                left_mode: link_mode_of(arg(args, 1))->0,
                left_ip: ipv4_of(arg(args, 2))->0,
                left_mac: mac_of(arg(args, 3))->0,
                right_bind: socket_of(arg(args, 4))->0,
                right_mode: link_mode_of(arg(args, 5))->0,
                right_ip: ipv4_of(arg(args, 6))->0,
                right_mac: mac_of(arg(args, 7))->0,
                routes: seq![subnet_route(ipv4_of(arg(args, 2))->0), subnet_route(ipv4_of(arg(args, 6))->0)] + extra,
            })),
        }
    }
}

/// The plan gives the values of the view, and its interfaces are `if0` and `if1` with /24
/// subnets.
pub open spec fn router_plan_matches(p: RouterPlan, v: RouterPlanView) -> bool {
    &&& p.left_bind == v.left_bind
    &&& p.left.label@ == "if0"@
    &&& p.left.mode == v.left_mode
    &&& p.left.ip == v.left_ip
    &&& p.left.prefix_len == DEFAULT_PREFIX_LEN
    &&& p.left.mac == v.left_mac
    &&& p.right_bind == v.right_bind
    &&& p.right.label@ == "if1"@
    &&& p.right.mode == v.right_mode
    &&& p.right.ip == v.right_ip
    &&& p.right.prefix_len == DEFAULT_PREFIX_LEN
    &&& p.right.mac == v.right_mac
    &&& p.routes@ == v.routes
}

fn next_hop_arg(s: &str) -> (r: Option<Option<Ipv4Addr>>)
    ensures
        r == next_hop_of(s.spec_bytes()),
{
    let b = s.as_bytes();
    assert(b@.subrange(0, b@.len() as int) =~= b@);
    let direct = [100u8, 105, 114, 101, 99, 116];
    assert(direct@ =~= kw_direct());
    if range_is(b, (0, b.len()), &direct) {
        return Some(None);
    }
    match Ipv4Addr::parse(s) {
        Some(ip) => Some(Some(ip)),
        None => None,
    }
}

/// Reads the four arguments of an interface from position `k`.
fn interface_args(args: &[&str], k: usize, label: &'static str) -> (r: Result<(SocketAddrV4, InterfaceConfig), ArgsError>)
    requires
        k + 4 <= args@.len(),
    ensures
        match (r, interface_args_error(args@, k as int)) {
            (Ok((bind, i)), None) => bind == socket_of(arg(args@, k as int))->0 && i.label == label
                && i.mode == link_mode_of(arg(args@, k + 1))->0 && i.ip == ipv4_of(arg(args@, k + 2))->0
                && i.prefix_len == DEFAULT_PREFIX_LEN && i.mac == mac_of(arg(args@, k + 3))->0,
            (Err(e), Some(f)) => e == f,
            _ => false,
        },
{
    reveal(interface_args_error);
    let bind = match SocketAddrV4::parse(args[k]) {
        Some(a) => a,
        None => return Err(ArgsError::InvalidSocketAddr),
    };
    let mode = match parse_link_mode(args[k + 1]) {
        Some(m) => m,
        None => return Err(ArgsError::InvalidSocketAddr),
    };
    let ip = match Ipv4Addr::parse(args[k + 2]) {
        Some(ip) => ip,
        None => return Err(ArgsError::InvalidIp),
    };
    let mac = match mac_arg(args[k + 3]) {
        Some(m) => m,
        None => return Err(ArgsError::InvalidMac),
    };
    Ok((bind, InterfaceConfig { label, mode, ip, prefix_len: DEFAULT_PREFIX_LEN, mac }))
}

/// `acc` put in front of the routes of `r`.
pub open spec fn after_routes(acc: Seq<Route>, r: Result<Seq<Route>, ArgsError>) -> Result<Seq<Route>, ArgsError> {
    match r {
        Ok(s) => Ok(acc + s),
        Err(e) => Err(e),
    }
}

/// Reads the route pairs that follow the two interfaces.
fn extra_routes(args: &[&str]) -> (r: Result<Vec<Route>, ArgsError>)
    requires
        8 <= args@.len(),
    ensures
        match (r, route_args_of(args@, 8)) {
            (Ok(v), Ok(s)) => v@ == s,
            (Err(e), Err(f)) => e == f,
            _ => false,
        },
{
    let n = args.len();
    let mut routes: Vec<Route> = Vec::new();
    let mut i: usize = 8;
    while n - i >= 2
        invariant
            n == args@.len(),
            8 <= i <= n,
            route_args_of(args@, 8) == after_routes(routes@, route_args_of(args@, i as int)),
        decreases n - i,
    {
        let route = match route_pair(args, i) {
            Ok(x) => x,
            Err(e) => return Err(e),
        };
        proof {
            match route_args_of(args@, i + 2) {
                Ok(rest) => {
                    assert(routes@ + (seq![route] + rest) =~= routes@.push(route) + rest);
                },
                Err(e) => {},
            }
        }
        routes.push(route);
        i = i + 2;
    }
    assert(routes@ + Seq::<Route>::empty() =~= routes@);
    Ok(routes)
}

/// Reads the router's arguments.
pub fn router_start(args: &[&str]) -> (r: Result<RouterStart, ArgsError>)
    ensures
        match (r, router_start_of(args@)) {
            (Ok(RouterStart::FromConfig(m)), Ok(RouterStartView::FromConfig(v))) => m == v,
            (Ok(RouterStart::Direct(p)), Ok(RouterStartView::Direct(v))) => router_plan_matches(p, v),
            (Err(e), Err(f)) => e == f,
            _ => false,
        },
{
    let n = args.len();
    if n == 1 {
        return match mac_arg(args[0]) {
            Some(m) => Ok(RouterStart::FromConfig(m)),
            None => Err(ArgsError::InvalidMac),
        };
    }
    if n < 8 || (n - 8) % 2 != 0 {
        return Err(ArgsError::Usage);
    }
    let (left_bind, left) = match interface_args(args, 0, "if0") {
        Ok(x) => x,
        Err(e) => return Err(e),
    };
    let (right_bind, right) = match interface_args(args, 4, "if1") {
        Ok(x) => x,
        Err(e) => return Err(e),
    };
    let mut extra = match extra_routes(args) {
        Ok(v) => v,
        Err(e) => return Err(e),
    };
    let ghost extra_view = extra@;
    let mut routes: Vec<Route> = Vec::new();
    routes.push(Route { network: left.network(), prefix_len: left.prefix_len, next_hop: None });
    routes.push(Route { network: right.network(), prefix_len: right.prefix_len, next_hop: None });
    routes.append(&mut extra);
    assert(routes@ =~= seq![subnet_route(left.ip), subnet_route(right.ip)] + extra_view);
    Ok(RouterStart::Direct(RouterPlan { left_bind, left, right_bind, right, routes }))
}

/// The program a command line names.
#[derive(Clone, Copy, Debug, PartialEq, Eq, Structural)]
pub enum Subcommand {
    Demo,
    Switch,
    Wan,
    Gateway,
    DhcpServer,
    DhcpClient,
    Chat,
    Router,
    HttpServer,
    HttpGet,
    Unknown,
}

/// The program named by `name`; no name is the demo.
pub open spec fn subcommand_of(name: Option<Seq<u8>>) -> Subcommand {
    match name {
        None => Subcommand::Demo,
        Some(t) => if t == seq![100u8, 101, 109, 111] {
            Subcommand::Demo
        } else if t == seq![115u8, 119, 105, 116, 99, 104] {
            Subcommand::Switch
        } else if t == seq![119u8, 97, 110] {
            Subcommand::Wan
        } else if t == seq![103u8, 97, 116, 101, 119, 97, 121] {
            Subcommand::Gateway
        } else if t == seq![100u8, 104, 99, 112, 45, 115, 101, 114, 118, 101, 114] {
            Subcommand::DhcpServer
        } else if t == seq![100u8, 104, 99, 112, 45, 99, 108, 105, 101, 110, 116] {
            Subcommand::DhcpClient
        } else if t == seq![99u8, 104, 97, 116] {
            Subcommand::Chat
        } else if t == seq![114u8, 111, 117, 116, 101, 114] {
            Subcommand::Router
        } else if t == seq![104u8, 116, 116, 112, 45, 115, 101, 114, 118, 101, 114] {
            Subcommand::HttpServer
        } else if t == seq![104u8, 116, 116, 112, 45, 103, 101, 116] {
            Subcommand::HttpGet
        } else {
            Subcommand::Unknown
        },
    }
}

/// Reads the name of the program to run.
pub fn subcommand(name: Option<&str>) -> (r: Subcommand)
    ensures
        r == subcommand_of(match name {
            Some(s) => Some(s.spec_bytes()),
            None => None,
        }),
{
    let s = match name {
        Some(s) => s,
        None => return Subcommand::Demo,
    };
    let b = s.as_bytes();
    let n = b.len();
    assert(b@.subrange(0, n as int) =~= b@);
    let lit = [100u8, 101, 109, 111];
    assert(lit@ =~= seq![100u8, 101, 109, 111]);
    if range_is(b, (0, n), &lit) {
        return Subcommand::Demo;
    }
    let lit = [115u8, 119, 105, 116, 99, 104];
    assert(lit@ =~= seq![115u8, 119, 105, 116, 99, 104]);
    if range_is(b, (0, n), &lit) {
        return Subcommand::Switch;
    }
    let lit = [119u8, 97, 110];
    assert(lit@ =~= seq![119u8, 97, 110]);
    if range_is(b, (0, n), &lit) {
        return Subcommand::Wan;
    }
    let lit = [103u8, 97, 116, 101, 119, 97, 121];
    assert(lit@ =~= seq![103u8, 97, 116, 101, 119, 97, 121]);
    if range_is(b, (0, n), &lit) {
        return Subcommand::Gateway;
    }
    let lit = [100u8, 104, 99, 112, 45, 115, 101, 114, 118, 101, 114];
    assert(lit@ =~= seq![100u8, 104, 99, 112, 45, 115, 101, 114, 118, 101, 114]);
    if range_is(b, (0, n), &lit) {
        return Subcommand::DhcpServer;
    }
    let lit = [100u8, 104, 99, 112, 45, 99, 108, 105, 101, 110, 116];
    assert(lit@ =~= seq![100u8, 104, 99, 112, 45, 99, 108, 105, 101, 110, 116]);
    if range_is(b, (0, n), &lit) {
        return Subcommand::DhcpClient;
    }
    let lit = [99u8, 104, 97, 116];
    assert(lit@ =~= seq![99u8, 104, 97, 116]);
    if range_is(b, (0, n), &lit) {
        return Subcommand::Chat;
    }
    let lit = [114u8, 111, 117, 116, 101, 114];
    assert(lit@ =~= seq![114u8, 111, 117, 116, 101, 114]);
    if range_is(b, (0, n), &lit) {
        return Subcommand::Router;
    }
    let lit = [104u8, 116, 116, 112, 45, 115, 101, 114, 118, 101, 114];
    assert(lit@ =~= seq![104u8, 116, 116, 112, 45, 115, 101, 114, 118, 101, 114]);
    if range_is(b, (0, n), &lit) {
        return Subcommand::HttpServer;
    }
    let lit = [104u8, 116, 116, 112, 45, 103, 101, 116];
    assert(lit@ =~= seq![104u8, 116, 116, 112, 45, 103, 101, 116]);
    if range_is(b, (0, n), &lit) {
        return Subcommand::HttpGet;
    }
    Subcommand::Unknown
}

/// An interface in uplink mode names its uplink.
pub open spec fn interface_complete(i: InterfaceDefinition) -> bool {
    i.mode == InterfaceMode::Uplink ==> i.uplink is Some
}

/// How an interface of a WAN description reaches its link.
pub open spec fn definition_link_mode(i: InterfaceDefinition) -> InterfaceLinkMode {
    match i.mode {
        InterfaceMode::Listen => InterfaceLinkMode::Listen,
        InterfaceMode::Uplink => InterfaceLinkMode::Uplink(i.uplink->0),
    }
}

/// The link-mode argument of an interface: `listen`, or its uplink's address.
pub open spec fn mode_argument(i: InterfaceDefinition) -> Seq<u8> {
    match i.mode {
        InterfaceMode::Listen => kw_listen(),
        InterfaceMode::Uplink => socket_text(i.uplink->0),
    }
}

/// The four arguments of an interface: bind address, link mode, address, hardware address.
pub open spec fn interface_arguments(i: InterfaceDefinition) -> Seq<Seq<u8>> {
    seq![socket_text(i.bind), mode_argument(i), ipv4_text(i.ip.0, i.ip.1, i.ip.2, i.ip.3), mac_text(i.mac.bytes())]
}

/// The pairs `<cidr> <next-hop>` of the routes, as written in the description.
pub open spec fn route_arguments(routes: Seq<RouteView>) -> Seq<Seq<u8>>
    decreases routes.len(),
{
    if routes.len() == 0 {
        Seq::empty()
    } else {
        route_arguments(routes.drop_last()) + seq![routes.last().0, routes.last().1]
    }
}

/// The command line that starts the router a WAN description defines: its two
/// interfaces, then its routes.
pub open spec fn router_arguments_of(d: RouterView) -> Seq<Seq<u8>> {
    interface_arguments(d.if0) + interface_arguments(d.if1) + route_arguments(d.routes)
}

fn push_interface_arguments(out: &mut Vec<Vec<u8>>, i: InterfaceDefinition)
    requires
        interface_complete(i),
    ensures
        final(out)@.map_values(|v: Vec<u8>| v@) == old(out)@.map_values(|v: Vec<u8>| v@) + interface_arguments(i),
{
    let ghost before = out@.map_values(|v: Vec<u8>| v@);
    out.push(i.bind.text_bytes());
    let mode = match i.mode {
        InterfaceMode::Listen => {
            let lit = [108u8, 105, 115, 116, 101, 110];
            assert(lit@ =~= kw_listen());
            crate::text::bytes_of(&lit)
        },
        InterfaceMode::Uplink => match i.uplink {
            Some(a) => a.text_bytes(),
            None => Vec::new(),
        },
    };
    out.push(mode);
    let mut ip: Vec<u8> = Vec::new();
    push_ipv4_text(&mut ip, i.ip.0, i.ip.1, i.ip.2, i.ip.3);
    assert(ip@ =~= ipv4_text(i.ip.0, i.ip.1, i.ip.2, i.ip.3));
    out.push(ip);
    let mut mac: Vec<u8> = Vec::new();
    let o = i.mac.octets();
    push_mac_text(&mut mac, o);
    assert(o@ =~= i.mac.bytes());
    assert(mac@ =~= mac_text(i.mac.bytes()));
    out.push(mac);
    assert(out@.map_values(|v: Vec<u8>| v@) =~= before + interface_arguments(i));
}

/// The command line, as bytes, that starts the router a WAN description defines.
pub fn router_arguments(router: &RouterDefinition) -> (r: Vec<Vec<u8>>)
    requires
        interface_complete(router.if0),
        interface_complete(router.if1),
    ensures
        r@.map_values(|v: Vec<u8>| v@) == router_arguments_of(router@),
{
    let mut out: Vec<Vec<u8>> = Vec::new();
    assert(out@.map_values(|v: Vec<u8>| v@) =~= Seq::<Seq<u8>>::empty());
    push_interface_arguments(&mut out, router.if0);
    push_interface_arguments(&mut out, router.if1);
    let ghost head = interface_arguments(router.if0) + interface_arguments(router.if1);
    let ghost rs = router@.routes;
    let mut k: usize = 0;
    assert(rs.take(0) =~= Seq::<RouteView>::empty());
    while k < router.routes.len()
        invariant
            k <= router.routes@.len(),
            rs == router@.routes,
            rs.len() == router.routes@.len(),
            out@.map_values(|v: Vec<u8>| v@) == head + route_arguments(rs.take(k as int)),
        decreases router.routes@.len() - k,
    {
        let route = &router.routes[k];
        let ghost before = out@.map_values(|v: Vec<u8>| v@);
        out.push(crate::bytes::copy_range(route.cidr.as_slice(), 0, route.cidr.len()));
        out.push(crate::bytes::copy_range(route.next_hop.as_slice(), 0, route.next_hop.len()));
        assert(route.cidr@.subrange(0, route.cidr@.len() as int) =~= route.cidr@);
        assert(route.next_hop@.subrange(0, route.next_hop@.len() as int) =~= route.next_hop@);
        assert(rs.take(k + 1).drop_last() =~= rs.take(k as int));
        assert(rs[k as int] == route@);
        assert(out@.map_values(|v: Vec<u8>| v@) =~= before + seq![route.cidr@, route.next_hop@]);
        k = k + 1;
    }
    assert(rs.take(k as int) =~= rs);
    out
}

/// A route list gives two arguments per route.
proof fn lemma_route_arguments_len(routes: Seq<RouteView>)
    ensures
        route_arguments(routes).len() == 2 * routes.len(),
    decreases routes.len(),
{
    if routes.len() > 0 {
        lemma_route_arguments_len(routes.drop_last());
    }
}

/// Each argument of an interface reads back as what it was written from.
proof fn lemma_interface_arguments_read(i: InterfaceDefinition)
    requires
        interface_complete(i),
    ensures
        socket_of(interface_arguments(i)[0]) == Some(i.bind),
        link_mode_of(interface_arguments(i)[1]) == Some(definition_link_mode(i)),
        ipv4_of(interface_arguments(i)[2]) == Some(i.ip),
        mac_of(interface_arguments(i)[3]) == Some(i.mac),
{
    crate::internet::addr::lemma_socket_text_roundtrip(i.bind);
    match i.mode {
        InterfaceMode::Listen => {},
        InterfaceMode::Uplink => {
            let u = i.uplink->0;
            crate::internet::addr::lemma_socket_text_roundtrip(u);
            crate::internet::addr::lemma_ipv4_text_bytes(u.ip);
            assert(socket_text(u)[0] == ipv4_text(u.ip.0, u.ip.1, u.ip.2, u.ip.3)[0]);
            assert(socket_text(u) != kw_listen()) by {
                assert(kw_listen()[0] == 108);
            }
        },
    }
    crate::text::lemma_parse_ipv4_text(i.ip.0, i.ip.1, i.ip.2, i.ip.3);
    crate::text::lemma_parse_mac_text(i.mac.bytes());
    assert(i.mac.bytes().subrange(0, 6) =~= i.mac.bytes());
    crate::link::ethernet::lemma_mac_from_bytes(i.mac, i.mac.bytes(), 0);
}

/// The command line built from a router of a WAN description reads back as that router:
/// its two interfaces with their bind addresses, link modes, addresses and hardware
/// addresses, the subnets of the two interfaces as its first routes, then the routes the
/// description lists, read as any such pair is read.
pub proof fn lemma_router_arguments_read_back(d: RouterView, args: Seq<&str>)
    requires
        interface_complete(d.if0),
        interface_complete(d.if1),
        args.len() == router_arguments_of(d).len(),
        forall|i: int| 0 <= i < args.len() ==> #[trigger] arg(args, i) == router_arguments_of(d)[i],
    ensures
        router_start_of(args) == match route_args_of(args, 8) {
            Ok(extra) => Ok(RouterStartView::Direct(RouterPlanView {
                left_bind: d.if0.bind,
                left_mode: definition_link_mode(d.if0),
                left_ip: d.if0.ip,
                left_mac: d.if0.mac,
                right_bind: d.if1.bind,
                right_mode: definition_link_mode(d.if1),
                right_ip: d.if1.ip,
                right_mac: d.if1.mac,
                routes: seq![subnet_route(d.if0.ip), subnet_route(d.if1.ip)] + extra,
            })),
            Err(e) => Err(e),
        },
{
    reveal(interface_args_error);
    let all = router_arguments_of(d);
    let i0 = interface_arguments(d.if0);
    let i1 = interface_arguments(d.if1);
    lemma_route_arguments_len(d.routes);
    assert(all.len() == 8 + 2 * d.routes.len());
    assert((args.len() - 8) % 2 == 0);
    lemma_interface_arguments_read(d.if0);
    lemma_interface_arguments_read(d.if1);
    assert forall|k: int| 0 <= k < 4 implies arg(args, k) == i0[k] && arg(args, k + 4) == i1[k] by {
        assert(arg(args, k) == all[k]);
        assert(arg(args, k + 4) == all[k + 4]);
        assert(all[k] == i0[k]);
        assert(all[k + 4] == i1[k]);
    }
    assert(arg(args, 0) == i0[0]);
    assert(arg(args, 1) == i0[1]);
    assert(arg(args, 2) == i0[2]);
    assert(arg(args, 3) == i0[3]);
    assert(arg(args, 4) == i1[0]);
    assert(arg(args, 5) == i1[1]);
    assert(arg(args, 6) == i1[2]);
    assert(arg(args, 7) == i1[3]);
}

} // verus!
