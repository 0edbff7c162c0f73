//! Operational events of the runtime, buffered in a bounded log.

use vstd::prelude::*;

use crate::base::error::{Error, ErrorView};
use crate::base::ids::{PartitionId, TickId, WorkerId, WorldId};

verus! {

/// One operational runtime event.
#[derive(Debug, PartialEq, Eq)]
pub enum RuntimeEvent {
    /// A world was created and assigned to a worker.
    WorldCreated { world: WorldId, worker: WorkerId },
    /// A world entered the running state.
    WorldStarted { world: WorldId },
    /// A world was stopped.
    WorldStopped { world: WorldId },
    /// A world failed and stopped ticking.
    WorldFailed { world: WorldId, reason: Error },
    /// A world was removed from the runtime.
    WorldDestroyed { world: WorldId },
    /// A world was reconstructed from persisted state.
    WorldRecovered { world: WorldId, replayed_txs: usize },
    /// A worker failed; its worlds are recoverable.
    WorkerFailed { worker: WorkerId },
    /// A successful tick of one world, with its measured duration.
    TickCompleted { world: WorldId, tick: TickId, duration_ns: u64 },
    /// A tick failed.
    TickFailed { world: WorldId, tick: TickId, error: Error },
    /// A log append or flush failed.
    PersistenceFailure { world: WorldId, tick: TickId, error: Error },
    /// An input was rejected (queue full, late).
    InputRejected { world: WorldId, reason: Error },
    /// A client reducer call was rejected (queue full).
    ReducerCallRejected { world: WorldId, reason: Error },
    /// A partition was bound to a world.
    PartitionRegistered { partition: PartitionId, world: WorldId },
    /// A partition was unbound from its world.
    PartitionUnregistered { partition: PartitionId },
    /// A cross-partition message was dropped.
    MessageDropped { from: PartitionId, to: PartitionId, reason: Error },
    /// The runtime completed shutdown.
    Shutdown,
}

/// The mathematical content of a [`RuntimeEvent`].
pub enum RuntimeEventView {
    WorldCreated { world: WorldId, worker: WorkerId },
    WorldStarted { world: WorldId },
    WorldStopped { world: WorldId },
    WorldFailed { world: WorldId, reason: ErrorView },
    WorldDestroyed { world: WorldId },
    WorldRecovered { world: WorldId, replayed_txs: usize },
    WorkerFailed { worker: WorkerId },
    TickCompleted { world: WorldId, tick: TickId, duration_ns: u64 },
    TickFailed { world: WorldId, tick: TickId, error: ErrorView },
    PersistenceFailure { world: WorldId, tick: TickId, error: ErrorView },
    InputRejected { world: WorldId, reason: ErrorView },
    ReducerCallRejected { world: WorldId, reason: ErrorView },
    PartitionRegistered { partition: PartitionId, world: WorldId },
    PartitionUnregistered { partition: PartitionId },
    MessageDropped { from: PartitionId, to: PartitionId, reason: ErrorView },
    Shutdown,
}

impl View for RuntimeEvent {
    type V = RuntimeEventView;

    open spec fn view(&self) -> RuntimeEventView {
        match self {
            RuntimeEvent::WorldCreated { world, worker } => RuntimeEventView::WorldCreated {
                world: *world,
                worker: *worker,
            },
            RuntimeEvent::WorldStarted { world } => RuntimeEventView::WorldStarted {
                world: *world,
            },
            RuntimeEvent::WorldStopped { world } => RuntimeEventView::WorldStopped {
                world: *world,
            },
            RuntimeEvent::WorldFailed { world, reason } => RuntimeEventView::WorldFailed {
                world: *world,
                reason: reason@,
            },
            RuntimeEvent::WorldDestroyed { world } => RuntimeEventView::WorldDestroyed {
                world: *world,
            },
            RuntimeEvent::WorldRecovered { world, replayed_txs } => RuntimeEventView::WorldRecovered {
                world: *world,
                replayed_txs: *replayed_txs,
            },
            RuntimeEvent::WorkerFailed { worker } => RuntimeEventView::WorkerFailed {
                worker: *worker,
            },
            RuntimeEvent::TickCompleted { world, tick, duration_ns } => RuntimeEventView::TickCompleted {
                world: *world,
                tick: *tick,
                duration_ns: *duration_ns,
            },
            RuntimeEvent::TickFailed { world, tick, error } => RuntimeEventView::TickFailed {
                world: *world,
                tick: *tick,
                error: error@,
            },
            RuntimeEvent::PersistenceFailure { world, tick, error } => RuntimeEventView::PersistenceFailure {
                world: *world,
                tick: *tick,
                error: error@,
            },
            RuntimeEvent::InputRejected { world, reason } => RuntimeEventView::InputRejected {
                world: *world,
                reason: reason@,
            },
            RuntimeEvent::ReducerCallRejected { world, reason } => RuntimeEventView::ReducerCallRejected {
                world: *world,
                reason: reason@,
            },
            RuntimeEvent::PartitionRegistered { partition, world } => RuntimeEventView::PartitionRegistered {
                partition: *partition,
                world: *world,
            },
            RuntimeEvent::PartitionUnregistered { partition } => RuntimeEventView::PartitionUnregistered {
                partition: *partition,
            },
            RuntimeEvent::MessageDropped { from, to, reason } => RuntimeEventView::MessageDropped {
                from: *from,
                to: *to,
                reason: reason@,
            },
            RuntimeEvent::Shutdown => RuntimeEventView::Shutdown,
        }
    }
}

} // verus!
