pub mod tcp;
pub mod udp;
