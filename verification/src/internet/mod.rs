pub mod addr;
pub mod icmp;
pub mod ip;
