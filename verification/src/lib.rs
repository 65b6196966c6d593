//! Core of a local HTTP/HTTPS forwarding proxy that defeats SNI-based
//! deep-packet inspection by re-framing the first TLS record of a tunnelled
//! connection into many short TLS records.
//!
//! The library holds the verified logic: the request parser, the blacklist
//! decision engine, the TLS record fragmenter, per-connection accounting and
//! global statistics, the connection registry, and the outbound candidate
//! selection. Network and file I/O live outside, and hand the library plain
//! byte buffers and integers.

pub mod bytes;
pub mod blacklist;
pub mod connector;
pub mod errors;
pub mod fragment;
pub mod handler;
pub mod log;
pub mod parser;
pub mod registry;
pub mod stats;
