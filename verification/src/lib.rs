//! Tunnels for TCP connections.
//!
//! One end of a tunnel is a SOCKS5 server for its clients, the other connects to their
//! targets. Between them runs either HTTP ([`h3_client`] and [`tunnel`]) or a WebSocket
//! that carries many streams ([`mux_bridge`] and [`mux_server`]).
//!
//! This crate holds what the ends decide and compute; sockets, timers and TLS are left to
//! the programs around it.
pub mod config;
pub mod doh;
pub mod ech;
pub mod endpoint;
pub mod h3_client;
pub mod header;
pub mod identity;
pub mod idle_read;
pub mod inbox;
pub mod mux;
pub mod mux_bridge;
pub mod mux_config;
pub mod mux_server;
pub mod noop_verifier;
pub mod sessions;
pub mod socks5;
pub mod text;
pub mod tunnel;

pub use config::resolve_password;
pub use endpoint::target_host;
pub use idle_read::read_until_idle;
pub use noop_verifier::NoopVerifier;
