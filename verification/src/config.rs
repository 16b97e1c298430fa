//! Compile-time constants of the server core.
use vstd::prelude::*;

verus! {

/// Token value reserved for the listener socket; never handed out to a
/// connection.
pub const SERVER_TOKEN: usize = 0;

/// Port used when none is given on the command line, or when the given one
/// does not parse.
pub const DEFAULT_PORT: u16 = 8080;

/// Idle cap per connection, in milliseconds: a connection with no events for
/// longer than this is closed.
pub const CONN_TIMEOUT_MS: u64 = 30000;

/// Upper bound on how long one poll call may block, in milliseconds.
pub const POLL_TIMEOUT_MS: u64 = 5000;

/// A request longer than this closes the connection.
pub const MAX_REQUEST_SIZE: usize = 65536;

/// Upper bound on live connections per worker; also the slab size and the
/// token space (tokens run from 1 to MAX_CONNS - 1).
pub const MAX_CONNS: usize = 65536;

/// Size in bytes of every pooled read buffer.
pub const BUF_SIZE: usize = 65536;

/// How many released buffers the buffer pool keeps for reuse.
pub const MAX_RECYCLED_BUFS: usize = 256;

/// Period of the stats pusher, in milliseconds.
pub const STATS_INTERVAL_MS: u64 = 1000;

/// Backlog passed to listen.
pub const LISTEN_BACKLOG: i32 = 4096;

/// Capacity of the readiness-events buffer.
pub const EVENTS_CAPACITY: usize = 1024;

} // verus!
