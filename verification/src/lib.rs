//! Verified core of a live network traffic analyzer.
//!
//! The library contains the capture pipeline's decision logic, the protocol
//! dissector, the bounded packet cache and the classic capture-file encoder.
//! Reading frames from a device, the event loop and the UI surface live in
//! the surrounding application; they hand this library plain values.

pub mod addr;
pub mod cache;
pub mod dissector;
pub mod export;
pub mod model;
pub mod pipeline;
pub mod session;
pub mod text;
pub mod wire;

use vstd::prelude::*;

verus! {

/// Entries a batch may hold before it must be emitted.
pub const BATCH_SIZE: usize = 50;

/// Milliseconds between forced emissions of a non-empty batch.
pub const BATCH_TIMEOUT_MS: u64 = 250;

/// Upper bound on the number of packets the cache retains.
pub const MAX_CACHE_ENTRIES: usize = 100000;

/// Largest number of bytes a frame source delivers per frame.
pub const SNAPLEN: u32 = 65535;

/// Milliseconds between the consumer's drains of the frame queue.
pub const TICK_MS: u64 = 10;

/// Milliseconds a frame source may block in one read.
pub const SOURCE_TIMEOUT_MS: u32 = 1000;

} // verus!
