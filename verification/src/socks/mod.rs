//! SOCKS5 server (RFC 1928) — the client-facing front door: the
//! handshake as a state machine, and the decisions taken around the
//! Tor connect.

pub mod metered;
pub mod server;
