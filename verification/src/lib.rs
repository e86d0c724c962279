//! Browsing the web over packet radio: the parts that decide.

pub mod bytes;
pub mod client;
pub mod clock;
pub mod exchange;
pub mod handshake;
pub mod ip;
pub mod number;
pub mod server;
pub mod shared;
pub mod text;
