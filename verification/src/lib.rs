//! Core of a minimal HTTP/1.1 keep-alive server: per-worker reactor state,
//! fixed-capacity resource pools, a token-indexed connection slab, a hashed
//! timer wheel for idle timeouts, request-terminator detection, and the
//! formatting of the fixed response and of the stats datagrams.
//!
//! All I/O (sockets, polling, clocks, threads) lives outside this crate; the
//! functions here take plain values (byte chunks, millisecond timestamps,
//! event outcomes) and return decisions, so that every rule the server
//! follows is stated in a contract and proved.
pub mod args;
pub mod config;
pub mod conn;
pub mod counter;
pub mod fmt;
pub mod http;
pub mod pool;
pub mod reactor;
pub mod slab;
pub mod timer;
