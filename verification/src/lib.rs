//! A user-space TCP/IP stack: Ethernet and ARP over an in-memory medium or UDP, IPv4 and
//! ICMP, UDP and a small TCP, hosts with sockets and connection tables, a learning switch,
//! a two-interface router, DHCP, and a little HTTP.
pub mod application;
pub mod bytes;
pub mod clock;
pub mod command;
pub mod internet;
pub mod link;
pub mod order;
pub mod text;
pub mod transport;
pub mod vec_map;

pub use application::{run_until_idle, Host, IcmpEchoReply, TcpConnectionKey, UdpDatagram};
