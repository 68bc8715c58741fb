//! tord — a SOCKS5 proxy whose egress is Tor circuits.
//!
//! This crate holds the proxy's decision logic, each function with the
//! contract it meets:
//! the SOCKS5 handshake (RFC 1928 / RFC 1929), the live-connection
//! registry, the process counters, the `tor:` configuration model and
//! the terminal rendering of control-socket replies.

pub mod addr;
pub mod config;
pub mod format;
pub mod control;
pub mod json;
pub mod metrics;
pub mod runtime;
pub mod socks;
pub mod streams;
pub mod text;
