//! A filtering DNS resolver core: blocklist matching over normalized domain
//! names, denial-response synthesis, per-datagram handling decisions, and
//! monotonic statistics, with the matcher's laws proved alongside.

pub mod config;
pub mod domain;
pub mod handler;
pub mod laws;
pub mod loader;
pub mod matcher;
pub mod message;
pub mod wire;
