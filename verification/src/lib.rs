pub mod addr;
pub mod extract;
pub mod http;
pub mod race;
pub mod config;
