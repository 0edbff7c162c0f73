//! World lifecycle and status, and what the runtime keeps of each world.

use std::collections::VecDeque;
use vstd::prelude::*;

use crate::base::ids::{PartitionId, TickId, WorkerId, WorldId};
use crate::base::input::{InputFrame, InputFrameView};
use crate::base::message::{ReducerCall, ReducerCallView};
use crate::base::table::IdSet;
use crate::base::value::views;

verus! {

/// The lifecycle state of a world inside the runtime.
#[derive(Clone, Copy, Debug, PartialEq, Eq, Structural)]
pub enum WorldLifecycle {
    /// Registered and owned by a worker, not yet ticking.
    Created,
    /// Scheduled for ticks; accepts inputs.
    Running,
    /// Stopped; state retained; can restart.
    Stopped,
    /// Failed (tick or persistence failure); must be recreated or recovered.
    Failed,
}

impl WorldLifecycle {
    /// The name of the state.
    pub open spec fn text(self) -> Seq<char> {
        match self {
            WorldLifecycle::Created => "created"@,
            WorldLifecycle::Running => "running"@,
            WorldLifecycle::Stopped => "stopped"@,
            WorldLifecycle::Failed => "failed"@,
        }
    }

    /// The name of the state.
    pub fn to_text(self) -> (text: &'static str)
        ensures
            text@ == self.text(),
    {
        match self {
            WorldLifecycle::Created => "created",
            WorldLifecycle::Running => "running",
            WorldLifecycle::Stopped => "stopped",
            WorldLifecycle::Failed => "failed",
        }
    }

    /// Whether a world in this state may be started.
    pub fn can_start(self) -> (yes: bool)
        ensures
            yes == (self is Created || self is Stopped),
    {
        matches!(self, WorldLifecycle::Created | WorldLifecycle::Stopped)
    }

    /// Whether a world in this state may be stopped.
    pub fn can_stop(self) -> (yes: bool)
        ensures
            yes == (self is Created || self is Running),
    {
        matches!(self, WorldLifecycle::Created | WorldLifecycle::Running)
    }
}

/// A point-in-time view of a world for introspection.
#[derive(Clone, Copy, Debug, PartialEq, Eq, Structural)]
pub struct WorldStatus {
    /// The world id.
    pub id: WorldId,
    /// The owning worker.
    pub worker: WorkerId,
    /// The lifecycle state.
    pub state: WorldLifecycle,
    /// The next tick the world will execute (logical time).
    pub next_tick: TickId,
    /// Inputs currently queued.
    pub queued_inputs: usize,
    /// Subscriptions currently registered on this world.
    pub subscriptions: usize,
    /// Successful ticks executed since creation or recovery.
    pub ticks_run: u64,
}

/// What the runtime keeps of a world: operational metadata only.
pub struct WorldEntry {
    /// The owning worker.
    pub worker: WorkerId,
    /// The lifecycle state.
    pub state: WorldLifecycle,
    /// The next tick the world will execute.
    pub next_tick: TickId,
    /// The most reducer calls one tick of the world runs.
    pub calls_per_tick: usize,
    /// Queued input frames, oldest first.
    pub inputs: VecDeque<InputFrame>,
    /// Queued reducer calls, oldest first.
    pub calls: VecDeque<ReducerCall>,
    /// Whether the world has a log.
    pub persistent: bool,
    /// The subscriptions registered on the world.
    pub subscriptions: IdSet,
    /// Successful ticks executed since creation or recovery.
    pub ticks_run: u64,
    /// Successful ticks since the last periodic snapshot.
    pub ticks_since_snapshot: u64,
    /// The partition the world is addressed under.
    pub partition: Option<PartitionId>,
    /// The partitions the world may address, ascending.
    pub known_partitions: Vec<u64>,
}

/// The mathematical content of a [`WorldEntry`].
pub struct WorldView {
    pub worker: WorkerId,
    pub state: WorldLifecycle,
    pub next_tick: TickId,
    pub calls_per_tick: usize,
    pub inputs: Seq<InputFrameView>,
    pub calls: Seq<ReducerCallView>,
    pub persistent: bool,
    pub subscriptions: Set<u64>,
    pub ticks_run: u64,
    pub ticks_since_snapshot: u64,
    pub partition: Option<PartitionId>,
    pub known_partitions: Seq<u64>,
}

impl View for WorldEntry {
    type V = WorldView;

    open spec fn view(&self) -> WorldView {
        WorldView {
            worker: self.worker,
            state: self.state,
            next_tick: self.next_tick,
            calls_per_tick: self.calls_per_tick,
            inputs: views(self.inputs@),
            calls: views(self.calls@),
            persistent: self.persistent,
            subscriptions: self.subscriptions@,
            ticks_run: self.ticks_run,
            ticks_since_snapshot: self.ticks_since_snapshot,
            partition: self.partition,
            known_partitions: self.known_partitions@,
        }
    }
}

impl WorldView {
    /// A freshly created (or recovered) world.
    pub open spec fn fresh(
        worker: WorkerId,
        next_tick: TickId,
        calls_per_tick: usize,
        persistent: bool,
    ) -> WorldView {
        WorldView {
            worker,
            state: WorldLifecycle::Created,
            next_tick,
            calls_per_tick,
            inputs: Seq::empty(),
            calls: Seq::empty(),
            persistent,
            subscriptions: Set::empty(),
            ticks_run: 0,
            ticks_since_snapshot: 0,
            partition: None,
            known_partitions: Seq::empty(),
        }
    }

    /// The status of the world.
    pub open spec fn status(self, id: WorldId) -> WorldStatus {
        WorldStatus {
            id,
            worker: self.worker,
            state: self.state,
            next_tick: self.next_tick,
            queued_inputs: self.inputs.len() as usize,
            subscriptions: self.subscriptions.len() as usize,
            ticks_run: self.ticks_run,
        }
    }
}

impl WorldEntry {
    /// Builds an entry for a freshly created (or recovered) world.
    pub fn new(
        worker: WorkerId,
        next_tick: TickId,
        calls_per_tick: usize,
        persistent: bool,
    ) -> (entry: WorldEntry)
        ensures
            entry@ == WorldView::fresh(worker, next_tick, calls_per_tick, persistent),
    {
        let entry = WorldEntry {
            worker,
            state: WorldLifecycle::Created,
            next_tick,
            calls_per_tick,
            inputs: VecDeque::new(),
            calls: VecDeque::new(),
            persistent,
            subscriptions: IdSet::new(),
            ticks_run: 0,
            ticks_since_snapshot: 0,
            partition: None,
            known_partitions: Vec::new(),
        };
        assert(entry@.inputs =~= Seq::empty());
        assert(entry@.calls =~= Seq::empty());
        entry
    }

    /// The status of the world.
    pub fn status(&self, id: WorldId) -> (status: WorldStatus)
        ensures
            status == self@.status(id),
    {
        WorldStatus {
            id,
            worker: self.worker,
            state: self.state,
            next_tick: self.next_tick,
            queued_inputs: self.inputs.len(),
            subscriptions: self.subscriptions.len(),
            ticks_run: self.ticks_run,
        }
    }
}

} // verus!
