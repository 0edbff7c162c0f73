//! Runtime configuration.
//!
//! Configuration affects operational behavior only (worker counts, queue
//! bounds, persistence, scheduling policy), never what a world computes.

use vstd::prelude::*;

use crate::base::error::{Error, ErrorView};
use crate::base::ids::WorkerId;
use crate::base::value::opt_view;

verus! {

/// How far a committed record is pushed before a commit counts as durable.
#[derive(Clone, Copy, Debug, PartialEq, Eq, Structural)]
pub enum DurabilityPolicy {
    /// To the operating system: survives a process crash.
    Flush,
    /// To the disk: survives power loss.
    Sync,
}

/// The persistence policy applied to every world's log.
#[derive(Clone, Copy, Debug, PartialEq, Eq, Structural)]
pub enum PersistencePolicy {
    /// No log: commits are in memory only.
    Disabled,
    /// Write the log records to the operating system on every commit.
    Flush,
    /// Write and sync the log on every commit.
    Sync,
}

impl PersistencePolicy {
    /// Whether persistence is enabled.
    pub open spec fn enabled(self) -> bool {
        self != PersistencePolicy::Disabled
    }

    /// Whether persistence is enabled.
    pub fn is_enabled(self) -> (enabled: bool)
        ensures
            enabled == self.enabled(),
    {
        match self {
            PersistencePolicy::Disabled => false,
            _ => true,
        }
    }

    /// The matching durability policy, if persistence is enabled.
    pub fn durability(self) -> (policy: Option<DurabilityPolicy>)
        ensures
            policy == (match self {
                PersistencePolicy::Disabled => None,
                PersistencePolicy::Flush => Some(DurabilityPolicy::Flush),
                PersistencePolicy::Sync => Some(DurabilityPolicy::Sync),
            }),
    {
        match self {
            PersistencePolicy::Disabled => None,
            PersistencePolicy::Flush => Some(DurabilityPolicy::Flush),
            PersistencePolicy::Sync => Some(DurabilityPolicy::Sync),
        }
    }
}

/// What the runtime does when a world's tick fails.
#[derive(Clone, Copy, Debug, PartialEq, Eq, Structural)]
pub enum TickFailurePolicy {
    /// Mark the world failed and stop ticking it.
    FailWorld,
    /// Record the failure and keep ticking the world.
    Continue,
}

/// The runtime configuration, validated when a runtime is made from it.
#[derive(Debug)]
pub struct RuntimeConfig {
    worker_count: usize,
    persistence: PersistencePolicy,
    /// The directory that holds the worlds' logs and snapshots.
    pub persistence_dir: Option<String>,
    max_queued_inputs: usize,
    max_queued_partition_messages: usize,
    max_queued_reducer_calls: usize,
    tick_failure_policy: TickFailurePolicy,
    snapshot_interval: Option<u64>,
    event_log_limit: usize,
}

/// The mathematical content of a [`RuntimeConfig`].
pub struct RuntimeConfigView {
    pub worker_count: usize,
    pub persistence: PersistencePolicy,
    pub persistence_dir: Option<Seq<char>>,
    pub max_queued_inputs: usize,
    pub max_queued_partition_messages: usize,
    pub max_queued_reducer_calls: usize,
    pub tick_failure_policy: TickFailurePolicy,
    pub snapshot_interval: Option<u64>,
    pub event_log_limit: usize,
}

impl View for RuntimeConfig {
    type V = RuntimeConfigView;

    closed spec fn view(&self) -> RuntimeConfigView {
        RuntimeConfigView {
            worker_count: self.worker_count,
            persistence: self.persistence,
            persistence_dir: opt_view(self.persistence_dir),
            max_queued_inputs: self.max_queued_inputs,
            max_queued_partition_messages: self.max_queued_partition_messages,
            max_queued_reducer_calls: self.max_queued_reducer_calls,
            tick_failure_policy: self.tick_failure_policy,
            snapshot_interval: self.snapshot_interval,
            event_log_limit: self.event_log_limit,
        }
    }
}

impl RuntimeConfigView {
    /// The default configuration.
    pub open spec fn standard() -> RuntimeConfigView {
        RuntimeConfigView {
            worker_count: 1,
            persistence: PersistencePolicy::Disabled,
            persistence_dir: None,
            max_queued_inputs: 1024,
            max_queued_partition_messages: 10000,
            max_queued_reducer_calls: 1024,
            tick_failure_policy: TickFailurePolicy::FailWorld,
            snapshot_interval: None,
            event_log_limit: 1024,
        }
    }

    /// What is wrong with the configuration, if anything.
    pub open spec fn violation(self) -> Option<Seq<char>> {
        if self.worker_count == 0 {
            Some("worker_count must be at least 1"@)
        } else if self.max_queued_inputs == 0 {
            Some("max_queued_inputs must be at least 1"@)
        } else if self.max_queued_partition_messages == 0 {
            Some("max_queued_partition_messages must be at least 1"@)
        } else if self.max_queued_reducer_calls == 0 {
            Some("max_queued_reducer_calls must be at least 1"@)
        } else if self.event_log_limit == 0 {
            Some("event_log_limit must be at least 1"@)
        } else if self.snapshot_interval == Some(0u64) {
            Some("snapshot_interval must be at least 1"@)
        } else if self.persistence.enabled() && self.persistence_dir is None {
            Some("a persistence directory is required when persistence is enabled"@)
        } else {
            None
        }
    }
}

impl RuntimeConfig {
    /// The default configuration: one worker, no persistence, and a world
    /// fails with its tick.
    pub fn new() -> (config: RuntimeConfig)
        ensures
            config@ == RuntimeConfigView::standard(),
    {
        RuntimeConfig {
            worker_count: 1,
            persistence: PersistencePolicy::Disabled,
            persistence_dir: None,
            max_queued_inputs: 1024,
            max_queued_partition_messages: 10000,
            max_queued_reducer_calls: 1024,
            tick_failure_policy: TickFailurePolicy::FailWorld,
            snapshot_interval: None,
            event_log_limit: 1024,
        }
    }

    /// Enables per-world persistence under `dir`.
    pub fn with_persistence(self, policy: PersistencePolicy, dir: &str) -> (config: Self)
        ensures
            config@ == (RuntimeConfigView {
                persistence: policy,
                persistence_dir: Some(dir@),
                ..self@
            }),
    {
        let mut config = self;
        config.persistence = policy;
        config.persistence_dir = Some(dir.to_owned());
        config
    }

    /// Enables periodic snapshots every `interval` successful ticks.
    pub fn with_snapshot_interval(self, interval: u64) -> (config: Self)
        ensures
            config@ == (RuntimeConfigView { snapshot_interval: Some(interval), ..self@ }),
    {
        let mut config = self;
        config.snapshot_interval = Some(interval);
        config
    }

    /// Sets the number of logical workers (at least 1).
    pub fn with_worker_count(self, count: usize) -> (config: Self)
        ensures
            config@ == (RuntimeConfigView { worker_count: count, ..self@ }),
    {
        let mut config = self;
        config.worker_count = count;
        config
    }

    /// Sets the per-world input queue bound (at least 1).
    pub fn with_max_queued_inputs(self, max: usize) -> (config: Self)
        ensures
            config@ == (RuntimeConfigView { max_queued_inputs: max, ..self@ }),
    {
        let mut config = self;
        config.max_queued_inputs = max;
        config
    }

    /// Sets the per-partition inbound message queue bound (at least 1).
    pub fn with_max_queued_partition_messages(self, max: usize) -> (config: Self)
        ensures
            config@ == (RuntimeConfigView { max_queued_partition_messages: max, ..self@ }),
    {
        let mut config = self;
        config.max_queued_partition_messages = max;
        config
    }

    /// Sets the per-world queued reducer call bound (at least 1).
    pub fn with_max_queued_reducer_calls(self, max: usize) -> (config: Self)
        ensures
            config@ == (RuntimeConfigView { max_queued_reducer_calls: max, ..self@ }),
    {
        let mut config = self;
        config.max_queued_reducer_calls = max;
        config
    }

    /// Sets what happens to a world whose tick fails.
    pub fn with_tick_failure_policy(self, policy: TickFailurePolicy) -> (config: Self)
        ensures
            config@ == (RuntimeConfigView { tick_failure_policy: policy, ..self@ }),
    {
        let mut config = self;
        config.tick_failure_policy = policy;
        config
    }

    /// Sets the bound of the event log (at least 1).
    pub fn with_event_log_limit(self, limit: usize) -> (config: Self)
        ensures
            config@ == (RuntimeConfigView { event_log_limit: limit, ..self@ }),
    {
        let mut config = self;
        config.event_log_limit = limit;
        config
    }

    /// Validates the configuration: the first violation found is reported.
    pub fn validate(&self) -> (verdict: Result<(), Error>)
        ensures
            match verdict {
                Ok(_) => self@.violation() is None,
                Err(e) => self@.violation() is Some && e@ == ErrorView::InvalidArgument(
                    self@.violation()->0,
                ),
            },
    {
        if self.worker_count == 0 {
            return Err(Error::invalid_argument("worker_count must be at least 1"));
        }
        if self.max_queued_inputs == 0 {
            return Err(Error::invalid_argument("max_queued_inputs must be at least 1"));
        }
        if self.max_queued_partition_messages == 0 {
            return Err(
                Error::invalid_argument("max_queued_partition_messages must be at least 1"),
            );
        }
        if self.max_queued_reducer_calls == 0 {
            return Err(Error::invalid_argument("max_queued_reducer_calls must be at least 1"));
        }
        if self.event_log_limit == 0 {
            return Err(Error::invalid_argument("event_log_limit must be at least 1"));
        }
        if let Some(interval) = self.snapshot_interval {
            if interval == 0 {
                return Err(Error::invalid_argument("snapshot_interval must be at least 1"));
            }
        }
        if self.persistence.is_enabled() && self.persistence_dir.is_none() {
            return Err(
                Error::invalid_argument(
                    "a persistence directory is required when persistence is enabled",
                ),
            );
        }
        Ok(())
    }

    /// The persistence directory, if any.
    pub fn persistence_dir(&self) -> (dir: Option<&str>)
        ensures
            match dir {
                Some(text) => self@.persistence_dir == Some(text@),
                None => self@.persistence_dir is None,
            },
    {
        match &self.persistence_dir {
            Some(dir) => Some(dir.as_str()),
            None => None,
        }
    }

    /// The number of workers.
    pub fn worker_count(&self) -> (value: usize)
        ensures
            value == self@.worker_count,
    {
        self.worker_count
    }

    /// The persistence policy.
    pub fn persistence(&self) -> (value: PersistencePolicy)
        ensures
            value == self@.persistence,
    {
        self.persistence
    }

    /// The per-world input queue bound.
    pub fn max_queued_inputs(&self) -> (value: usize)
        ensures
            value == self@.max_queued_inputs,
    {
        self.max_queued_inputs
    }

    /// The per-partition inbound message queue bound.
    pub fn max_queued_partition_messages(&self) -> (value: usize)
        ensures
            value == self@.max_queued_partition_messages,
    {
        self.max_queued_partition_messages
    }

    /// The per-world queued reducer call bound.
    pub fn max_queued_reducer_calls(&self) -> (value: usize)
        ensures
            value == self@.max_queued_reducer_calls,
    {
        self.max_queued_reducer_calls
    }

    /// What happens to a world whose tick fails.
    pub fn tick_failure_policy(&self) -> (value: TickFailurePolicy)
        ensures
            value == self@.tick_failure_policy,
    {
        self.tick_failure_policy
    }

    /// The snapshot interval in ticks, if enabled.
    pub fn snapshot_interval(&self) -> (value: Option<u64>)
        ensures
            value == self@.snapshot_interval,
    {
        self.snapshot_interval
    }

    /// The bound of the event log.
    pub fn event_log_limit(&self) -> (value: usize)
        ensures
            value == self@.event_log_limit,
    {
        self.event_log_limit
    }

    /// The first worker id.
    pub fn first_worker(&self) -> (id: WorkerId)
        ensures
            id.0 == 0,
    {
        WorkerId::from_u64(0)
    }

    /// The last worker id.
    pub fn last_worker(&self) -> (id: WorkerId)
        requires
            self@.worker_count > 0,
        ensures
            id.0 == self@.worker_count - 1,
    {
        WorkerId::from_u64((self.worker_count - 1) as u64)
    }
}

impl Default for RuntimeConfig {
    fn default() -> (config: Self)
        ensures
            config@ == RuntimeConfigView::standard(),
    {
        RuntimeConfig::new()
    }
}

/// A configuration is accepted if, and only if, it has a worker, every bound is
/// at least 1, a snapshot interval, if there is one, is at least 1, and there is
/// a directory if anything is to be persisted.
pub proof fn configurations_must_be_usable(config: RuntimeConfigView)
    ensures
        config.violation() is None <==> config.worker_count > 0 && config.max_queued_inputs > 0
            && config.max_queued_partition_messages > 0 && config.max_queued_reducer_calls > 0
            && config.event_log_limit > 0 && config.snapshot_interval != Some(0u64) && (
        config.persistence == PersistencePolicy::Disabled || config.persistence_dir is Some),
        RuntimeConfigView::standard().violation() is None,
{
}

/// What a runtime does unless it is told otherwise: one worker, nothing
/// persisted, a world fails with its tick.
pub proof fn standard_runtime()
    ensures
        ({
            let config = RuntimeConfigView::standard();
            &&& config.worker_count == 1
            &&& config.persistence == PersistencePolicy::Disabled
            &&& config.persistence_dir is None && config.snapshot_interval is None
            &&& config.max_queued_inputs == 1024
            &&& config.max_queued_partition_messages == 10000
            &&& config.max_queued_reducer_calls == 1024
            &&& config.tick_failure_policy == TickFailurePolicy::FailWorld
            &&& config.event_log_limit == 1024
        }),
{
}

} // verus!
