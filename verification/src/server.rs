//! The node end: who may browse, what may be fetched, and what is sent back.

pub mod admission;
pub mod blocklist;
pub mod browser;
pub mod config;
pub mod filter;
pub mod lines;
pub mod logger;
pub mod login;
pub mod origin_cc;
pub mod proxy;
pub mod requests;
pub mod session;
