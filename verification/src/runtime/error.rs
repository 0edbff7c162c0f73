//! The runtime error taxonomy.
//!
//! A thin enum that categorizes failures and keeps the identity of the
//! lower-level [`Error`] it carries.

use vstd::prelude::*;
use vstd::string::*;

use crate::base::error::{Error, ErrorView};
use crate::base::ids::{PartitionId, WorkerId, WorldId};
use crate::base::text::{decimal, join, number, with_number};
use crate::runtime::worker::WorkerState;
use crate::runtime::world::WorldLifecycle;

verus! {

/// A failure at the runtime boundary.
#[allow(inconsistent_fields)]
#[derive(Debug, PartialEq, Eq)]
pub enum RuntimeError {
    /// The runtime configuration was invalid.
    InvalidConfig(String),
    /// A referenced world does not exist.
    UnknownWorld(WorldId),
    /// A referenced worker does not exist.
    UnknownWorker(WorkerId),
    /// A world with this id already exists.
    DuplicateWorld(WorldId),
    /// A referenced partition does not exist.
    UnknownPartition(PartitionId),
    /// A partition with this id already exists.
    DuplicatePartition(PartitionId),
    /// An ownership operation was invalid.
    OwnershipConflict(WorldId, WorkerId),
    /// An operation required a different world lifecycle state.
    InvalidWorldState { world: WorldId, operation: &'static str, state: WorldLifecycle },
    /// An operation required a different worker state.
    InvalidWorkerState { worker: WorkerId, operation: &'static str, state: WorkerState },
    /// An input was rejected (late, over-limit).
    InputRejected { world: WorldId, reason: Error },
    /// A client reducer call was rejected.
    ReducerCallRejected { world: WorldId, reason: Error },
    /// A persistence (log or snapshot) failure.
    Persistence(Error),
    /// A lower-level error surfaced through a runtime operation.
    Core(Error),
    /// A world's tick failed.
    Tick { world: WorldId, error: Error },
    /// A worker failed; its worlds are recoverable.
    WorkerFailed(WorkerId),
    /// The runtime is shutting down (or already stopped).
    Shutdown,
    /// An internal invariant violation (a bug).
    Internal(String),
}

/// The mathematical content of a [`RuntimeError`].
#[allow(inconsistent_fields)]
pub enum RuntimeErrorView {
    InvalidConfig(Seq<char>),
    UnknownWorld(WorldId),
    UnknownWorker(WorkerId),
    DuplicateWorld(WorldId),
    UnknownPartition(PartitionId),
    DuplicatePartition(PartitionId),
    OwnershipConflict(WorldId, WorkerId),
    InvalidWorldState { world: WorldId, operation: Seq<char>, state: WorldLifecycle },
    InvalidWorkerState { worker: WorkerId, operation: Seq<char>, state: WorkerState },
    InputRejected { world: WorldId, reason: ErrorView },
    ReducerCallRejected { world: WorldId, reason: ErrorView },
    Persistence(ErrorView),
    Core(ErrorView),
    Tick { world: WorldId, error: ErrorView },
    WorkerFailed(WorkerId),
    Shutdown,
    Internal(Seq<char>),
}

impl View for RuntimeError {
    type V = RuntimeErrorView;

    open spec fn view(&self) -> RuntimeErrorView {
        match self {
            RuntimeError::InvalidConfig(m) => RuntimeErrorView::InvalidConfig(m@),
            RuntimeError::UnknownWorld(w) => RuntimeErrorView::UnknownWorld(*w),
            RuntimeError::UnknownWorker(w) => RuntimeErrorView::UnknownWorker(*w),
            RuntimeError::DuplicateWorld(w) => RuntimeErrorView::DuplicateWorld(*w),
            RuntimeError::UnknownPartition(p) => RuntimeErrorView::UnknownPartition(*p),
            RuntimeError::DuplicatePartition(p) => RuntimeErrorView::DuplicatePartition(*p),
            RuntimeError::OwnershipConflict(w, k) => RuntimeErrorView::OwnershipConflict(*w, *k),
            RuntimeError::InvalidWorldState { world, operation, state } =>
                RuntimeErrorView::InvalidWorldState {
                world: *world,
                operation: operation@,
                state: *state,
            },
            RuntimeError::InvalidWorkerState { worker, operation, state } =>
                RuntimeErrorView::InvalidWorkerState {
                worker: *worker,
                operation: operation@,
                state: *state,
            },
            RuntimeError::InputRejected { world, reason } => RuntimeErrorView::InputRejected {
                world: *world,
                reason: reason@,
            },
            RuntimeError::ReducerCallRejected { world, reason } =>
                RuntimeErrorView::ReducerCallRejected { world: *world, reason: reason@ },
            RuntimeError::Persistence(e) => RuntimeErrorView::Persistence(e@),
            RuntimeError::Core(e) => RuntimeErrorView::Core(e@),
            RuntimeError::Tick { world, error } => RuntimeErrorView::Tick {
                world: *world,
                error: error@,
            },
            RuntimeError::WorkerFailed(w) => RuntimeErrorView::WorkerFailed(*w),
            RuntimeError::Shutdown => RuntimeErrorView::Shutdown,
            RuntimeError::Internal(m) => RuntimeErrorView::Internal(m@),
        }
    }
}

impl RuntimeErrorView {
    /// The lower-level error this failure carries, if any.
    pub open spec fn cause(self) -> Option<ErrorView> {
        match self {
            RuntimeErrorView::InputRejected { reason, .. } => Some(reason),
            RuntimeErrorView::ReducerCallRejected { reason, .. } => Some(reason),
            RuntimeErrorView::Persistence(reason) => Some(reason),
            RuntimeErrorView::Core(reason) => Some(reason),
            RuntimeErrorView::Tick { error, .. } => Some(error),
            _ => None,
        }
    }

    /// The text shown to people.
    pub open spec fn text(self) -> Seq<char> {
        match self {
            RuntimeErrorView::InvalidConfig(m) => "invalid runtime configuration: "@ + m,
            RuntimeErrorView::UnknownWorld(w) => "world "@ + decimal(w.0 as nat)
                + " does not exist"@,
            RuntimeErrorView::UnknownWorker(w) => "worker "@ + decimal(w.0 as nat)
                + " does not exist"@,
            RuntimeErrorView::DuplicateWorld(w) => "world "@ + decimal(w.0 as nat)
                + " already exists"@,
            RuntimeErrorView::UnknownPartition(p) => "partition "@ + decimal(p.0 as nat)
                + " does not exist"@,
            RuntimeErrorView::DuplicatePartition(p) => "partition "@ + decimal(p.0 as nat)
                + " already exists"@,
            RuntimeErrorView::OwnershipConflict(w, k) => "ownership conflict for world "@ + decimal(
                w.0 as nat,
            ) + " on worker "@ + decimal(k.0 as nat),
            RuntimeErrorView::InvalidWorldState { world, operation, state } => "cannot "@
                + operation + " world "@ + decimal(world.0 as nat) + ": current state is "@
                + state.text(),
            RuntimeErrorView::InvalidWorkerState { worker, operation, state } => "cannot "@
                + operation + " worker "@ + decimal(worker.0 as nat) + ": current state is "@
                + state.text(),
            RuntimeErrorView::InputRejected { world, reason } => "input rejected for world "@
                + decimal(world.0 as nat) + ": "@ + reason.text(),
            RuntimeErrorView::ReducerCallRejected { world, reason } =>
                "reducer call rejected for world "@ + decimal(world.0 as nat) + ": "@
                + reason.text(),
            RuntimeErrorView::Persistence(e) => "persistence failure: "@ + e.text(),
            RuntimeErrorView::Core(e) => "runtime core operation failed: "@ + e.text(),
            RuntimeErrorView::Tick { world, error } => "tick of world "@ + decimal(world.0 as nat)
                + " failed: "@ + error.text(),
            RuntimeErrorView::WorkerFailed(w) => "worker "@ + decimal(w.0 as nat) + " has failed"@,
            RuntimeErrorView::Shutdown => "runtime is shutting down or stopped"@,
            RuntimeErrorView::Internal(m) => "internal runtime error: "@ + m,
        }
    }
}

fn state_text(operation: &str, thing: &str, id: u64, state: &str) -> (text: String)
    ensures
        text@ == "cannot "@ + operation@ + thing@ + decimal(id as nat) + ": current state is "@
            + state@,
{
    let mut text = join("cannot ", operation);
    let digits = number(id);
    text.append(thing);
    text.append(digits.as_str());
    text.append(": current state is ");
    text.append(state);
    text
}

fn reason_text(before: &str, world: WorldId, between: &str, reason: &Error) -> (text: String)
    ensures
        text@ == before@ + decimal(world.0 as nat) + between@ + reason@.text(),
{
    let mut text = with_number(before, world.as_u64(), between);
    let tail = reason.to_text();
    text.append(tail.as_str());
    text
}

impl RuntimeError {
    /// Builds an invalid-world-state error.
    pub fn world_state(world: WorldId, operation: &'static str, state: WorldLifecycle) -> (error:
        RuntimeError)
        ensures
            error@ == (RuntimeErrorView::InvalidWorldState { world, operation: operation@, state }),
    {
        RuntimeError::InvalidWorldState { world, operation, state }
    }

    /// Builds an invalid-worker-state error.
    pub fn worker_state(worker: WorkerId, operation: &'static str, state: WorkerState) -> (error:
        RuntimeError)
        ensures
            error@ == (RuntimeErrorView::InvalidWorkerState {
                worker,
                operation: operation@,
                state,
            }),
    {
        RuntimeError::InvalidWorkerState { worker, operation, state }
    }

    /// The lower-level error this failure carries, if any.
    pub fn core_error(&self) -> (found: Option<&Error>)
        ensures
            match found {
                Some(e) => self@.cause() == Some(e@),
                None => self@.cause() is None,
            },
    {
        match self {
            RuntimeError::InputRejected { reason, .. } => Some(reason),
            RuntimeError::ReducerCallRejected { reason, .. } => Some(reason),
            RuntimeError::Persistence(reason) => Some(reason),
            RuntimeError::Core(reason) => Some(reason),
            RuntimeError::Tick { error, .. } => Some(error),
            _ => None,
        }
    }

    /// The text shown to people.
    pub fn to_text(&self) -> (text: String)
        ensures
            text@ == self@.text(),
    {
        match self {
            RuntimeError::InvalidConfig(m) => join("invalid runtime configuration: ", m.as_str()),
            RuntimeError::UnknownWorld(w) => with_number("world ", w.as_u64(), " does not exist"),
            RuntimeError::UnknownWorker(w) => with_number("worker ", w.as_u64(), " does not exist"),
            RuntimeError::DuplicateWorld(w) => with_number("world ", w.as_u64(), " already exists"),
            RuntimeError::UnknownPartition(p) => with_number(
                "partition ",
                p.as_u64(),
                " does not exist",
            ),
            RuntimeError::DuplicatePartition(p) => with_number(
                "partition ",
                p.as_u64(),
                " already exists",
            ),
            RuntimeError::OwnershipConflict(w, k) => {
                let mut text = with_number(
                    "ownership conflict for world ",
                    w.as_u64(),
                    " on worker ",
                );
                let digits = number(k.as_u64());
                text.append(digits.as_str());
                text
            },
            RuntimeError::InvalidWorldState { world, operation, state } => state_text(
                operation,
                " world ",
                world.as_u64(),
                state.to_text(),
            ),
            RuntimeError::InvalidWorkerState { worker, operation, state } => state_text(
                operation,
                " worker ",
                worker.as_u64(),
                state.to_text(),
            ),
            RuntimeError::InputRejected { world, reason } => reason_text(
                "input rejected for world ",
                *world,
                ": ",
                reason,
            ),
            RuntimeError::ReducerCallRejected { world, reason } => reason_text(
                "reducer call rejected for world ",
                *world,
                ": ",
                reason,
            ),
            RuntimeError::Persistence(e) => {
                let tail = e.to_text();
                join("persistence failure: ", tail.as_str())
            },
            RuntimeError::Core(e) => {
                let tail = e.to_text();
                join("runtime core operation failed: ", tail.as_str())
            },
            RuntimeError::Tick { world, error } => reason_text(
                "tick of world ",
                *world,
                " failed: ",
                error,
            ),
            RuntimeError::WorkerFailed(w) => with_number("worker ", w.as_u64(), " has failed"),
            RuntimeError::Shutdown => "runtime is shutting down or stopped".to_owned(),
            RuntimeError::Internal(m) => join("internal runtime error: ", m.as_str()),
        }
    }
}

} // verus!
