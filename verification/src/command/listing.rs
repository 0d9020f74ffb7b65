//! The lines the consoles print: the switch's table and ports, the DHCP leases, the
//! router's routes and interfaces.
use vstd::prelude::*;
use vstd::string::StringExecFns;

use crate::application::dhcp_server::LeaseEntry;
use crate::application::router::{InterfaceConfig, Route};
use crate::command::common::link_mode_text;
use crate::internet::addr::{socket_text, SocketAddrV4};
use crate::link::ethernet::MacAddr;
use crate::text::{ascii_to_string, decimal_text, ipv4_text, lemma_graphic_ascii, lemma_graphic_decimal, mac_text, push_decimal};

verus! {

/// The characters of ASCII text `b`.
pub open spec fn chars(b: Seq<u8>) -> Seq<char> {
    vstd::utf8::decode_utf8(b)
}

/// The decimal text of `n`.
pub fn decimal_string(n: u64) -> (r: String)
    ensures
        r@ == chars(decimal_text(n as nat)),
{
    let mut out: Vec<u8> = Vec::new();
    push_decimal(&mut out, n);
    assert(out@ =~= decimal_text(n as nat));
    proof {
        lemma_graphic_decimal(n as nat);
        lemma_graphic_ascii(out@);
    }
    ascii_to_string(out)
}

/// A line of the forwarding table: `  <mac> -> <port>`.
pub fn mac_table_line(mac: MacAddr, port: SocketAddrV4) -> (r: String)
    ensures
        r@ == "  "@ + chars(mac_text(mac.bytes())) + " -> "@ + chars(socket_text(port)),
{
    let mut out = "  ".to_owned();
    out.append(mac.to_text().as_str());
    out.append(" -> ");
    out.append(port.to_text().as_str());
    out
}

/// A line of the port list: `  <port>`.
pub fn port_line(port: SocketAddrV4) -> (r: String)
    ensures
        r@ == "  "@ + chars(socket_text(port)),
{
    let mut out = "  ".to_owned();
    out.append(port.to_text().as_str());
    out
}

/// A line of the lease list: `  <mac> -> <ip> (<seconds>s left)`, the seconds whole.
pub fn lease_line(entry: LeaseEntry) -> (r: String)
    ensures
        r@ == "  "@ + chars(mac_text(entry.mac.bytes())) + " -> "@ + chars(ipv4_text(entry.ip.0, entry.ip.1, entry.ip.2, entry.ip.3))
            + " ("@ + chars(decimal_text((entry.remaining_ms / 1000) as nat)) + "s left)"@,
{
    let mut out = "  ".to_owned();
    out.append(entry.mac.to_text().as_str());
    out.append(" -> ");
    out.append(entry.ip.to_text().as_str());
    out.append(" (");
    out.append(decimal_string(entry.remaining_ms / 1000).as_str());
    out.append("s left)");
    out
}

/// A line of the route list: `  <network>/<prefix> via <next hop>`, the next hop `direct`
/// when there is none.
pub fn route_line(route: Route) -> (r: String)
    ensures
        r@ == "  "@ + chars(ipv4_text(route.network.0, route.network.1, route.network.2, route.network.3)) + "/"@
            + chars(decimal_text(route.prefix_len as nat)) + " via "@ + match route.next_hop {
            Some(ip) => chars(ipv4_text(ip.0, ip.1, ip.2, ip.3)),
            None => "direct"@,
        },
{
    let mut out = "  ".to_owned();
    out.append(route.network.to_text().as_str());
    out.append("/");
    out.append(decimal_string(route.prefix_len as u64).as_str());
    out.append(" via ");
    match route.next_hop {
        Some(ip) => out.append(ip.to_text().as_str()),
        None => out.append("direct"),
    }
    out
}

/// The line that describes an interface bound at `bind`:
/// `<label>: bind=<bind> <mode> ip=<ip>/<prefix> mac=<mac>`.
pub fn interface_line(interface: InterfaceConfig, bind: SocketAddrV4) -> (r: String)
    ensures
        r@ == interface.label@ + ": bind="@ + chars(socket_text(bind)) + " "@ + chars(link_mode_text(interface.mode)) + " ip="@
            + chars(ipv4_text(interface.ip.0, interface.ip.1, interface.ip.2, interface.ip.3)) + "/"@
            + chars(decimal_text(interface.prefix_len as nat)) + " mac="@ + chars(mac_text(interface.mac.bytes())),
{
    let mut out = interface.label.to_owned();
    out.append(": bind=");
    out.append(bind.to_text().as_str());
    out.append(" ");
    out.append(interface.mode.describe().as_str());
    out.append(" ip=");
    out.append(interface.ip.to_text().as_str());
    out.append("/");
    out.append(decimal_string(interface.prefix_len as u64).as_str());
    out.append(" mac=");
    out.append(interface.mac.to_text().as_str());
    out
}

} // verus!
