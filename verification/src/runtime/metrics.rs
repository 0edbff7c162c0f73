//! Runtime metrics: monotonic operational counters.
//!
//! Counters wrap around at their type's limit; they never influence what a
//! world computes.

use vstd::prelude::*;

verus! {

/// A counter after one more count.
pub open spec fn counted(n: u64) -> u64 {
    counted_by(n, 1)
}

/// A counter after `k` more counts: modulo the counter's range.
pub open spec fn counted_by(n: u64, k: u64) -> u64 {
    ((n + k) % 0x1_0000_0000_0000_0000) as u64
}

/// Adds one to a counter.
pub fn count(n: u64) -> (next: u64)
    ensures
        next == counted(n),
{
    n.wrapping_add(1)
}

/// Adds `k` to a counter.
pub fn count_by(n: u64, k: u64) -> (next: u64)
    ensures
        next == counted_by(n, k),
{
    n.wrapping_add(k)
}

/// A point-in-time snapshot of the runtime's counters.
#[derive(Clone, Copy, Debug, PartialEq, Eq, Structural)]
pub struct RuntimeMetrics {
    /// Configured worker count.
    pub workers: usize,
    /// Worlds currently registered (any lifecycle).
    pub worlds: usize,
    /// Worlds currently running.
    pub running_worlds: usize,
    /// Partitions currently registered.
    pub partitions: usize,
    /// Total tick attempts.
    pub ticks_total: u64,
    /// Successful ticks: committed, and appended to the log of a world that has
    /// one.
    pub ticks_succeeded: u64,
    /// Failed ticks.
    pub ticks_failed: u64,
    /// Cumulative tick wall time in nanoseconds.
    pub tick_ns_total: u64,
    /// Row changes committed by ticks.
    pub changes_committed: u64,
    /// Inputs accepted into queues.
    pub inputs_accepted: u64,
    /// Inputs rejected (full queue, late, wrong state).
    pub inputs_rejected: u64,
    /// Client reducer calls accepted into queues.
    pub reducer_calls_accepted: u64,
    /// Client reducer calls rejected (full queue, wrong state, invalid).
    pub reducer_calls_rejected: u64,
    /// Cross-partition messages accepted into inbound queues.
    pub messages_sent: u64,
    /// Cross-partition messages drained into a tick's delivered batch.
    pub messages_delivered: u64,
    /// Cross-partition messages dropped (overflow, unknown destination).
    pub messages_dropped: u64,
    /// Successful log appends.
    pub wal_appends: u64,
    /// Failed log appends.
    pub wal_failures: u64,
    /// Snapshots written.
    pub snapshots: u64,
    /// Subscriptions currently registered across all worlds.
    pub subscriptions: usize,
    /// Worlds created.
    pub world_creations: u64,
    /// Worlds recovered from persisted state.
    pub recoveries: u64,
    /// Worlds that failed.
    pub world_failures: u64,
    /// Runtime uptime in nanoseconds.
    pub uptime_ns: u64,
}

impl RuntimeMetrics {
    /// Every counter at zero.
    pub open spec fn zero() -> RuntimeMetrics {
        RuntimeMetrics {
            workers: 0,
            worlds: 0,
            running_worlds: 0,
            partitions: 0,
            ticks_total: 0,
            ticks_succeeded: 0,
            ticks_failed: 0,
            tick_ns_total: 0,
            changes_committed: 0,
            inputs_accepted: 0,
            inputs_rejected: 0,
            reducer_calls_accepted: 0,
            reducer_calls_rejected: 0,
            messages_sent: 0,
            messages_delivered: 0,
            messages_dropped: 0,
            wal_appends: 0,
            wal_failures: 0,
            snapshots: 0,
            subscriptions: 0,
            world_creations: 0,
            recoveries: 0,
            world_failures: 0,
            uptime_ns: 0,
        }
    }

    /// A zeroed metrics snapshot (before any operation).
    pub fn empty() -> (metrics: RuntimeMetrics)
        ensures
            metrics == RuntimeMetrics::zero(),
    {
        RuntimeMetrics {
            workers: 0,
            worlds: 0,
            running_worlds: 0,
            partitions: 0,
            ticks_total: 0,
            ticks_succeeded: 0,
            ticks_failed: 0,
            tick_ns_total: 0,
            changes_committed: 0,
            inputs_accepted: 0,
            inputs_rejected: 0,
            reducer_calls_accepted: 0,
            reducer_calls_rejected: 0,
            messages_sent: 0,
            messages_delivered: 0,
            messages_dropped: 0,
            wal_appends: 0,
            wal_failures: 0,
            snapshots: 0,
            subscriptions: 0,
            world_creations: 0,
            recoveries: 0,
            world_failures: 0,
            uptime_ns: 0,
        }
    }

    /// Average tick duration in nanoseconds, or 0 when no ticks have run.
    pub fn avg_tick_ns(&self) -> (average: u64)
        ensures
            self.ticks_total == 0 ==> average == 0,
            self.ticks_total > 0 ==> average == self.tick_ns_total / self.ticks_total,
    {
        if self.ticks_total == 0 {
            0
        } else {
            self.tick_ns_total / self.ticks_total
        }
    }
}

} // verus!
