//! What the bounded queue between the sensor readers and the aggregation tells about itself.

use vstd::prelude::*;

verus! {

/// A look at the queue at one moment.
#[derive(Clone, Copy, Debug, PartialEq, Eq, Structural)]
pub struct BufferStats {
    /// How many readings the queue can hold.
    pub capacity: usize,
    /// How many readings it holds.
    pub len: usize,
    /// The most readings it ever held.
    pub high_watermark: usize,
    /// How many readings were ever put in.
    pub total_pushed: u64,
    /// How many readings were ever taken out.
    pub total_popped: u64,
    /// How often a producer had to wait.
    pub push_wait_count: u64,
    /// How often a consumer had to wait.
    pub pop_wait_count: u64,
    /// How long producers have waited in all, in nanoseconds.
    pub push_wait_ns_total: u128,
    /// How long consumers have waited in all, in nanoseconds.
    pub pop_wait_ns_total: u128,
    /// Whether the queue was shut down.
    pub is_shutdown: bool,
}

} // verus!
