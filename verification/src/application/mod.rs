pub mod delivery;
pub mod dhcp;
pub mod dhcp_client;
pub mod dhcp_server;
pub mod http;
pub mod router;
pub mod stack;

pub use stack::{run_until_idle, Host, IcmpEchoReply, TcpConnectionKey, UdpDatagram};
