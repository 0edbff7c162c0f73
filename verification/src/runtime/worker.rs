//! Workers: the execution owners of worlds.

use vstd::prelude::*;

use crate::base::ids::{WorkerId, WorldId};
use crate::base::table::{ascending, is_ascending, IdSet};

verus! {

/// The lifecycle state of a worker.
#[derive(Clone, Copy, Debug, PartialEq, Eq, Structural)]
pub enum WorkerState {
    /// Accepting and executing worlds.
    Running,
    /// Failed; its worlds are recoverable (and marked failed).
    Failed,
    /// Stopped by runtime shutdown.
    Stopped,
}

impl WorkerState {
    /// The name of the state.
    pub open spec fn text(self) -> Seq<char> {
        match self {
            WorkerState::Running => "running"@,
            WorkerState::Failed => "failed"@,
            WorkerState::Stopped => "stopped"@,
        }
    }

    /// The name of the state.
    pub fn to_text(self) -> (text: &'static str)
        ensures
            text@ == self.text(),
    {
        match self {
            WorkerState::Running => "running",
            WorkerState::Failed => "failed",
            WorkerState::Stopped => "stopped",
        }
    }
}

/// A logical execution owner of a set of worlds.
pub struct Worker {
    id: WorkerId,
    state: WorkerState,
    worlds: IdSet,
}

/// The mathematical content of a [`Worker`].
pub struct WorkerView {
    pub id: WorkerId,
    pub state: WorkerState,
    pub worlds: Set<u64>,
}

impl View for Worker {
    type V = WorkerView;

    closed spec fn view(&self) -> WorkerView {
        WorkerView { id: self.id, state: self.state, worlds: self.worlds@ }
    }
}

impl WorkerView {
    /// A running worker that owns nothing.
    pub open spec fn fresh(id: WorkerId) -> WorkerView {
        WorkerView { id, state: WorkerState::Running, worlds: Set::empty() }
    }
}

impl Worker {
    /// Creates a running worker owning no worlds.
    pub fn new(id: WorkerId) -> (worker: Worker)
        ensures
            worker@ == WorkerView::fresh(id),
    {
        Worker { id, state: WorkerState::Running, worlds: IdSet::new() }
    }

    /// The worker id.
    pub fn id(&self) -> (id: WorkerId)
        ensures
            id == self@.id,
    {
        self.id
    }

    /// The lifecycle state.
    pub fn state(&self) -> (state: WorkerState)
        ensures
            state == self@.state,
    {
        self.state
    }

    /// The owned world ids in ascending order.
    pub fn worlds(&self) -> (worlds: Vec<u64>)
        ensures
            worlds@ == ascending(self@.worlds),
            is_ascending(worlds@),
            worlds@.to_set() == self@.worlds,
    {
        self.worlds.members()
    }

    /// Adds a world to this worker's ownership set.
    pub fn add_world(&mut self, world: WorldId)
        ensures
            final(self)@ == (WorkerView {
                worlds: old(self)@.worlds.insert(world.0),
                ..old(self)@
            }),
    {
        self.worlds.insert(world.as_u64());
    }

    /// Removes a world from this worker's ownership set.
    pub fn remove_world(&mut self, world: WorldId)
        ensures
            final(self)@ == (WorkerView {
                worlds: old(self)@.worlds.remove(world.0),
                ..old(self)@
            }),
    {
        self.worlds.remove(world.as_u64());
    }

    /// Sets the lifecycle state.
    pub fn set_state(&mut self, state: WorkerState)
        ensures
            final(self)@ == (WorkerView { state, ..old(self)@ }),
    {
        self.state = state;
    }
}

/// A point-in-time view of a worker for introspection.
#[derive(Debug, PartialEq, Eq)]
pub struct WorkerStatus {
    /// The worker id.
    pub id: WorkerId,
    /// The lifecycle state.
    pub state: WorkerState,
    /// Owned world ids, ascending.
    pub worlds: Vec<u64>,
}

} // verus!
