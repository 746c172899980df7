//! A room-scoped broadcast hub with per-connection session control.
//!
//! The hub owns the authoritative mapping of live connections to rooms and
//! mediates all broadcast traffic; the session module decides, event by
//! event, how one connection's loop reacts to transport frames, delivered
//! broadcasts, and heartbeat ticks.

use vstd::prelude::*;

pub mod errors;
pub mod hub;
pub mod message_data;
pub mod models;
pub mod object_id;
pub mod session;

verus! {

/// Interval between heartbeat ticks, in milliseconds.
pub const HEARTBEAT_INTERVAL_MS: u64 = 5000;

/// A connection with no inbound liveness signal for longer than this
/// window, in milliseconds, is evicted.
pub const CLIENT_TIMEOUT_MS: u64 = 10000;

/// Largest accepted single transport frame, in bytes.
pub const MAX_FRAME_SIZE: usize = 128 * 1024;

/// Largest accepted reassembled message, in bytes.
pub const MAX_CONTINUATION_SIZE: usize = 2 * 1024 * 1024;

} // verus!
