//! The station end: modem protocols, the session over the air and the local
//! web proxy.

pub mod api;
pub mod browse;
pub mod cache;
pub mod config;
pub mod hosts;
pub mod rewrite;
pub mod startup;
pub mod state;
pub mod transport;
pub mod ui;
