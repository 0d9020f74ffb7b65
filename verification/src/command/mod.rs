pub mod args;
pub mod common;
pub mod http;
pub mod listing;
pub mod wan_config;
