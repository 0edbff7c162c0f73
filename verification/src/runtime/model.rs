//! The mathematical model of the runtime: its state, and each operation as a
//! transition of it.

use vstd::prelude::*;

use crate::base::error::ErrorView;
use crate::base::ids::{PartitionId, TickId, WorkerId, WorldId};
use crate::base::input::InputFrameView;
use crate::base::log::logged;
use crate::base::message::{PartitionMessageView, ReducerCallView, TickResultView};
use crate::base::table::ascending;
use crate::base::text::decimal;
use crate::reducer::args::Entries;
use crate::runtime::config::{RuntimeConfigView, TickFailurePolicy};
use crate::runtime::error::RuntimeErrorView;
use crate::runtime::event::RuntimeEventView;
use crate::runtime::metrics::{counted, counted_by, RuntimeMetrics};
use crate::runtime::partition::{deliverable, in_delivery_order, undeliverable, PartitionView};
use crate::runtime::tick::{TickInputView, TickRunView};
use crate::runtime::worker::{WorkerState, WorkerView};
use crate::runtime::world::{WorldLifecycle, WorldView};

verus! {

/// The lifecycle state of the runtime itself.
#[derive(Clone, Copy, Debug, PartialEq, Eq, Structural)]
pub enum RuntimeState {
    /// Accepting control operations, inputs, and steps.
    Running,
    /// Shutting down: new operations are rejected.
    Stopping,
    /// Stopped; only a (repeated) shutdown succeeds.
    Stopped,
}

impl RuntimeState {
    /// The name of the state.
    pub open spec fn text(self) -> Seq<char> {
        match self {
            RuntimeState::Running => "running"@,
            RuntimeState::Stopping => "stopping"@,
            RuntimeState::Stopped => "stopped"@,
        }
    }

    /// The name of the state.
    pub fn to_text(self) -> (text: &'static str)
        ensures
            text@ == self.text(),
    {
        match self {
            RuntimeState::Running => "running",
            RuntimeState::Stopping => "stopping",
            RuntimeState::Stopped => "stopped",
        }
    }
}

/// The mathematical content of a runtime.
pub struct RuntimeView {
    pub config: RuntimeConfigView,
    pub state: RuntimeState,
    pub workers: Map<u64, WorkerView>,
    pub worlds: Map<u64, WorldView>,
    pub partitions: Map<u64, PartitionView>,
    pub topology: Set<u64>,
    pub sent_seq: Map<u64, u64>,
    pub assign_counter: u64,
    pub events: Seq<RuntimeEventView>,
    pub metrics: RuntimeMetrics,
}

/// The first running worker in round-robin order, starting `offset` places
/// after `start`.
pub open spec fn running_worker_from(
    workers: Map<u64, WorkerView>,
    start: int,
    offset: int,
    count: int,
) -> Option<u64>
    decreases count - offset,
{
    if offset >= count {
        None
    } else {
        let index = ((start + offset) % count) as u64;
        if workers.contains_key(index) && workers[index].state == WorkerState::Running {
            Some(index)
        } else {
            running_worker_from(workers, start, offset + 1, count)
        }
    }
}

/// The partitions that address a world.
pub open spec fn bound_to(partitions: Map<u64, PartitionView>, world: u64) -> Set<u64> {
    Set::new(|p: u64| partitions.contains_key(p) && partitions[p].world.0 == world)
}

/// Whether a partition is the least that addresses a world.
pub open spec fn delivers_to(partitions: Map<u64, PartitionView>, p: u64, world: u64) -> bool {
    &&& partitions.contains_key(p)
    &&& partitions[p].world.0 == world
    &&& forall|q: u64| #[trigger]
        partitions.contains_key(q) && partitions[q].world.0 == world ==> p <= q
}

/// The partition a world is delivered from: the least that addresses it.
pub open spec fn partition_of(partitions: Map<u64, PartitionView>, world: u64) -> Option<u64> {
    if exists|p: u64| delivers_to(partitions, p, world) {
        Some(choose|p: u64| delivers_to(partitions, p, world))
    } else {
        None
    }
}

impl RuntimeView {
    // ---------------------------------------------------------- invariants

    /// Every world is owned by exactly the worker it names, and every worker
    /// owns only registered worlds that name it.
    pub open spec fn ownership_consistent(self) -> bool {
        &&& forall|w: u64| #[trigger]
            self.worlds.contains_key(w) ==> self.workers.contains_key(self.worlds[w].worker.0)
                && self.workers[self.worlds[w].worker.0].worlds.contains(w)
        &&& forall|k: u64, w: u64|
            #![trigger self.workers[k].worlds.contains(w)]
            self.workers.contains_key(k) && self.workers[k].worlds.contains(w)
                ==> self.worlds.contains_key(w) && self.worlds[w].worker.0 == k
    }

    /// Every partition addresses a registered world and names its owner.
    pub open spec fn routing_consistent(self) -> bool {
        &&& forall|p: u64| #[trigger]
            self.partitions.contains_key(p) ==> self.worlds.contains_key(
                self.partitions[p].world.0,
            ) && self.partitions[p].worker == self.worlds[self.partitions[p].world.0].worker
        &&& self.topology == self.partitions.dom()
        &&& self.sent_seq.dom().subset_of(self.partitions.dom())
    }

    /// Nothing runs: no world and no worker.
    pub open spec fn at_rest(self) -> bool {
        &&& forall|w: u64| #[trigger]
            self.worlds.contains_key(w) ==> self.worlds[w].state != WorldLifecycle::Running
        &&& forall|k: u64| #[trigger]
            self.workers.contains_key(k) ==> self.workers[k].state == WorkerState::Stopped
    }

    /// What every operation keeps: a valid configuration, workers numbered
    /// from zero, consistent ownership and routing, a bounded event log, and
    /// nothing that runs once the runtime has stopped.
    pub open spec fn valid(self) -> bool {
        &&& self.config.violation() is None
        &&& forall|k: u64| #[trigger]
            self.workers.contains_key(k) <==> k < self.config.worker_count
        &&& forall|k: u64| #[trigger] self.workers.contains_key(k) ==> self.workers[k].id.0 == k
        &&& self.ownership_consistent()
        &&& self.routing_consistent()
        &&& self.events.len() <= self.config.event_log_limit
        &&& self.worlds.dom().finite()
        &&& self.partitions.dom().finite()
        &&& self.state == RuntimeState::Stopped ==> self.at_rest()
    }

    // ------------------------------------------------------------- helpers

    /// The runtime after one more event.
    pub open spec fn with_event(self, event: RuntimeEventView) -> RuntimeView {
        RuntimeView {
            events: logged(self.events, self.config.event_log_limit as nat, event),
            ..self
        }
    }

    /// The runtime with a world's entry replaced.
    pub open spec fn with_world(self, world: WorldId, entry: WorldView) -> RuntimeView {
        RuntimeView { worlds: self.worlds.insert(world.0, entry), ..self }
    }

    /// Whether the runtime accepts operations.
    pub open spec fn running(self) -> bool {
        self.state == RuntimeState::Running
    }

    /// Whether the runtime accepts operations on a world; if not, the error.
    pub open spec fn world_access(self, world: WorldId) -> Result<(), RuntimeErrorView> {
        if !self.running() {
            Err(RuntimeErrorView::Shutdown)
        } else if !self.worlds.contains_key(world.0) {
            Err(RuntimeErrorView::UnknownWorld(world))
        } else {
            Ok(())
        }
    }

    // ------------------------------------------------------------- workers

    /// The worker the next world goes to, if any runs.
    pub open spec fn next_worker(self) -> Option<u64> {
        running_worker_from(
            self.workers,
            self.assign_counter as int % self.config.worker_count as int,
            0,
            self.config.worker_count as int,
        )
    }

    /// The reason a failed worker's world fails.
    pub open spec fn owner_failed(worker: WorkerId) -> ErrorView {
        ErrorView::Internal("owner worker "@ + decimal(worker.0 as nat) + " failed"@)
    }

    /// The runtime after one of a failed worker's worlds was marked failed.
    pub open spec fn world_orphaned(self, world: WorldId, worker: WorkerId) -> RuntimeView {
        let entry = self.worlds[world.0];
        if entry.state == WorldLifecycle::Failed {
            self
        } else {
            let next = RuntimeView {
                metrics: RuntimeMetrics {
                    world_failures: counted(self.metrics.world_failures),
                    ..self.metrics
                },
                ..self.with_world(world, WorldView { state: WorldLifecycle::Failed, ..entry })
            };
            next.with_event(
                RuntimeEventView::WorldFailed { world, reason: Self::owner_failed(worker) },
            )
        }
    }

    /// The runtime after several of a failed worker's worlds, in order, were
    /// marked failed.
    pub open spec fn worlds_orphaned(self, worlds: Seq<u64>, worker: WorkerId) -> RuntimeView
        decreases worlds.len(),
    {
        if worlds.len() == 0 {
            self
        } else {
            self.worlds_orphaned(worlds.drop_last(), worker).world_orphaned(
                WorldId(worlds.last()),
                worker,
            )
        }
    }

    /// Marking a worker failed: its worlds fail with it, in ascending order.
    /// A worker that failed before stays as it is.
    pub open spec fn worker_failed(self, worker: WorkerId) -> (
        RuntimeView,
        Result<(), RuntimeErrorView>,
    ) {
        if !self.running() {
            (self, Err(RuntimeErrorView::Shutdown))
        } else if !self.workers.contains_key(worker.0) {
            (self, Err(RuntimeErrorView::UnknownWorker(worker)))
        } else if self.workers[worker.0].state == WorkerState::Failed {
            (self, Ok(()))
        } else {
            let handle = self.workers[worker.0];
            let marked = RuntimeView {
                workers: self.workers.insert(
                    worker.0,
                    WorkerView { state: WorkerState::Failed, ..handle },
                ),
                ..self
            };
            (
                marked.with_event(RuntimeEventView::WorkerFailed { worker }).worlds_orphaned(
                    ascending(handle.worlds),
                    worker,
                ),
                Ok(()),
            )
        }
    }

    /// The partitions after a world moved to another worker.
    pub open spec fn partitions_moved(self, world: WorldId, to: WorkerId) -> Map<
        u64,
        PartitionView,
    > {
        Map::new(
            |p: u64| self.partitions.contains_key(p),
            |p: u64|
                if self.partitions[p].world == world {
                    PartitionView { worker: to, ..self.partitions[p] }
                } else {
                    self.partitions[p]
                },
        )
    }

    /// Moving a world to another running worker; its partitions follow.
    pub open spec fn world_reassigned(self, world: WorldId, to: WorkerId) -> (
        RuntimeView,
        Result<(), RuntimeErrorView>,
    ) {
        if !self.running() {
            (self, Err(RuntimeErrorView::Shutdown))
        } else if !self.workers.contains_key(to.0) {
            (self, Err(RuntimeErrorView::UnknownWorker(to)))
        } else if self.workers[to.0].state != WorkerState::Running {
            (
                self,
                Err(
                    RuntimeErrorView::InvalidWorkerState {
                        worker: to,
                        operation: "reassign onto"@,
                        state: self.workers[to.0].state,
                    },
                ),
            )
        } else if !self.worlds.contains_key(world.0) {
            (self, Err(RuntimeErrorView::UnknownWorld(world)))
        } else if self.worlds[world.0].worker == to {
            (self, Ok(()))
        } else {
            let entry = self.worlds[world.0];
            let from = self.workers[entry.worker.0];
            let target = self.workers[to.0];
            (
                RuntimeView {
                    workers: self.workers.insert(
                        entry.worker.0,
                        WorkerView { worlds: from.worlds.remove(world.0), ..from },
                    ).insert(
                        to.0,
                        WorkerView { worlds: target.worlds.insert(world.0), ..target },
                    ),
                    partitions: self.partitions_moved(world, to),
                    ..self.with_world(world, WorldView { worker: to, ..entry })
                },
                Ok(()),
            )
        }
    }

    // -------------------------------------------------------------- worlds

    /// The runtime after a worker got one more world.
    pub open spec fn with_owned_world(
        self,
        worker: u64,
        world: WorldId,
        entry: WorldView,
    ) -> RuntimeView {
        let handle = self.workers[worker];
        RuntimeView {
            workers: self.workers.insert(
                worker,
                WorkerView { worlds: handle.worlds.insert(world.0), ..handle },
            ),
            ..self.with_world(world, entry)
        }
    }

    /// Starting a world: a created or stopped one runs, a running one stays.
    pub open spec fn world_started(self, world: WorldId) -> (
        RuntimeView,
        Result<(), RuntimeErrorView>,
    ) {
        let entry = self.worlds[world.0];
        match self.world_access(world) {
            Err(e) => (self, Err(e)),
            Ok(_) => if entry.state == WorldLifecycle::Running {
                (self, Ok(()))
            } else if entry.state == WorldLifecycle::Failed {
                (
                    self,
                    Err(
                        RuntimeErrorView::InvalidWorldState {
                            world,
                            operation: "start"@,
                            state: entry.state,
                        },
                    ),
                )
            } else {
                (
                    self.with_world(
                        world,
                        WorldView { state: WorldLifecycle::Running, ..entry },
                    ).with_event(RuntimeEventView::WorldStarted { world }),
                    Ok(()),
                )
            },
        }
    }

    /// Stopping a world: a created or running one stops, a stopped one stays.
    pub open spec fn world_stopped(self, world: WorldId) -> (
        RuntimeView,
        Result<(), RuntimeErrorView>,
    ) {
        let entry = self.worlds[world.0];
        match self.world_access(world) {
            Err(e) => (self, Err(e)),
            Ok(_) => if entry.state == WorldLifecycle::Stopped {
                (self, Ok(()))
            } else if entry.state == WorldLifecycle::Failed {
                (
                    self,
                    Err(
                        RuntimeErrorView::InvalidWorldState {
                            world,
                            operation: "stop"@,
                            state: entry.state,
                        },
                    ),
                )
            } else {
                (
                    self.with_world(
                        world,
                        WorldView { state: WorldLifecycle::Stopped, ..entry },
                    ).with_event(RuntimeEventView::WorldStopped { world }),
                    Ok(()),
                )
            },
        }
    }

    // ---------------------------------------------------------- partitions

    /// The worlds, told of a topology.
    pub open spec fn worlds_told(worlds: Map<u64, WorldView>, topology: Set<u64>) -> Map<
        u64,
        WorldView,
    > {
        Map::new(
            |w: u64| worlds.contains_key(w),
            |w: u64| WorldView { known_partitions: ascending(topology), ..worlds[w] },
        )
    }

    /// Binding a partition to a world: every world learns the new topology.
    pub open spec fn partition_registered(self, partition: PartitionId, world: WorldId) -> (
        RuntimeView,
        Result<(), RuntimeErrorView>,
    ) {
        if !self.running() {
            (self, Err(RuntimeErrorView::Shutdown))
        } else if self.partitions.contains_key(partition.0) {
            (self, Err(RuntimeErrorView::DuplicatePartition(partition)))
        } else if !self.worlds.contains_key(world.0) {
            (self, Err(RuntimeErrorView::UnknownWorld(world)))
        } else {
            let entry = self.worlds[world.0];
            let topology = self.topology.insert(partition.0);
            let partitions = self.partitions.insert(
                partition.0,
                PartitionView { world, worker: entry.worker, inbound: Seq::empty() },
            );
            let next = RuntimeView {
                worlds: Self::worlds_told(
                    self.worlds.insert(
                        world.0,
                        WorldView { partition: Some(partition), ..entry },
                    ),
                    topology,
                ),
                topology,
                partitions,
                metrics: RuntimeMetrics {
                    partitions: partitions.len() as usize,
                    ..self.metrics
                },
                ..self
            };
            (
                next.with_event(RuntimeEventView::PartitionRegistered { partition, world }),
                Ok(()),
            )
        }
    }

    /// The runtime without a registered partition: its queued messages are
    /// gone, and every world learns the new topology.
    pub open spec fn without_partition(self, partition: PartitionId) -> RuntimeView {
        let topology = self.topology.remove(partition.0);
        let partitions = self.partitions.remove(partition.0);
        let next = RuntimeView {
            worlds: Self::worlds_told(self.worlds, topology),
            topology,
            partitions,
            sent_seq: self.sent_seq.remove(partition.0),
            metrics: RuntimeMetrics { partitions: partitions.len() as usize, ..self.metrics },
            ..self
        };
        next.with_event(RuntimeEventView::PartitionUnregistered { partition })
    }

    /// Unbinding a partition; an unknown one is no error.
    pub open spec fn partition_unregistered(self, partition: PartitionId) -> (
        RuntimeView,
        Result<(), RuntimeErrorView>,
    ) {
        if !self.running() {
            (self, Err(RuntimeErrorView::Shutdown))
        } else if !self.partitions.contains_key(partition.0) {
            (self, Ok(()))
        } else {
            (self.without_partition(partition), Ok(()))
        }
    }

    /// The runtime without several registered partitions.
    pub open spec fn without_partitions(self, partitions: Seq<u64>) -> RuntimeView
        decreases partitions.len(),
    {
        if partitions.len() == 0 {
            self
        } else {
            self.without_partitions(partitions.drop_last()).without_partition(
                PartitionId(partitions.last()),
            )
        }
    }

    /// The runtime without a registered world that no partition addresses.
    pub open spec fn without_world(self, world: WorldId) -> RuntimeView {
        let entry = self.worlds[world.0];
        let handle = self.workers[entry.worker.0];
        let next = RuntimeView {
            worlds: self.worlds.remove(world.0),
            workers: self.workers.insert(
                entry.worker.0,
                WorkerView { worlds: handle.worlds.remove(world.0), ..handle },
            ),
            ..self
        };
        next.with_event(RuntimeEventView::WorldDestroyed { world })
    }

    /// Removing a world: every partition that addresses it goes first, in
    /// ascending order.
    pub open spec fn world_destroyed(self, world: WorldId) -> (
        RuntimeView,
        Result<(), RuntimeErrorView>,
    ) {
        match self.world_access(world) {
            Err(e) => (self, Err(e)),
            Ok(_) => (
                self.without_partitions(ascending(bound_to(self.partitions, world.0))).without_world(
                    world,
                ),
                Ok(()),
            ),
        }
    }

    // ------------------------------------------------------------ messages

    /// A dropped message is counted and logged.
    pub open spec fn message_dropped(self, m: PartitionMessageView, reason: ErrorView) -> RuntimeView {
        let next = RuntimeView {
            metrics: RuntimeMetrics {
                messages_dropped: counted(self.metrics.messages_dropped),
                ..self.metrics
            },
            ..self
        };
        next.with_event(RuntimeEventView::MessageDropped { from: m.from, to: m.to, reason })
    }

    /// Queueing a message: at the end of its destination's queue, unless the
    /// destination is unknown or its queue is full, when it is dropped.
    pub open spec fn message_enqueued(self, m: PartitionMessageView) -> RuntimeView {
        if !self.partitions.contains_key(m.to.0) {
            self.message_dropped(
                m,
                ErrorView::NotFound("destination partition is not registered"@),
            )
        } else if self.partitions[m.to.0].inbound.len()
            >= self.config.max_queued_partition_messages {
            self.message_dropped(m, ErrorView::Capacity("destination inbound queue is full"@))
        } else {
            let target = self.partitions[m.to.0];
            RuntimeView {
                partitions: self.partitions.insert(
                    m.to.0,
                    PartitionView { inbound: target.inbound.push(m), ..target },
                ),
                metrics: RuntimeMetrics {
                    messages_sent: counted(self.metrics.messages_sent),
                    ..self.metrics
                },
                ..self
            }
        }
    }

    /// Queueing several messages in order.
    pub open spec fn messages_enqueued(self, messages: Seq<PartitionMessageView>) -> RuntimeView
        decreases messages.len(),
    {
        if messages.len() == 0 {
            self
        } else {
            self.messages_enqueued(messages.drop_last()).message_enqueued(messages.last())
        }
    }

    /// The next sequence number of a sender.
    pub open spec fn next_seq(self, from: PartitionId) -> u64 {
        if self.sent_seq.contains_key(from.0) {
            self.sent_seq[from.0]
        } else {
            0
        }
    }

    /// Sending a message from outside a tick: it is stamped with the sender's
    /// current tick and the sender's next sequence number.
    pub open spec fn message_sent(
        self,
        from: PartitionId,
        to: PartitionId,
        kind: Seq<char>,
        payload: Entries,
    ) -> (RuntimeView, Result<(), RuntimeErrorView>) {
        if !self.running() {
            (self, Err(RuntimeErrorView::Shutdown))
        } else if from == to {
            (
                self,
                Err(
                    RuntimeErrorView::InvalidConfig(
                        "cannot send a partition message to the sender itself"@,
                    ),
                ),
            )
        } else if !self.partitions.contains_key(from.0) {
            (self, Err(RuntimeErrorView::UnknownPartition(from)))
        } else if !self.partitions.contains_key(to.0) {
            (self, Err(RuntimeErrorView::UnknownPartition(to)))
        } else {
            let seq = self.next_seq(from);
            if kind.len() == 0 {
                (
                    RuntimeView { sent_seq: self.sent_seq.insert(from.0, seq), ..self },
                    Err(
                        RuntimeErrorView::Core(
                            ErrorView::InvalidArgument("partition message kind must not be empty"@),
                        ),
                    ),
                )
            } else {
                let message = PartitionMessageView {
                    from,
                    to,
                    sent_tick: self.worlds[self.partitions[from.0].world.0].next_tick,
                    seq,
                    kind,
                    payload,
                };
                (
                    RuntimeView {
                        sent_seq: self.sent_seq.insert(from.0, counted(seq)),
                        ..self
                    }.message_enqueued(message),
                    Ok(()),
                )
            }
        }
    }

    // -------------------------------------------------------------- inputs

    /// A rejected input is counted and logged.
    pub open spec fn input_rejected(self, world: WorldId, reason: ErrorView) -> (
        RuntimeView,
        Result<(), RuntimeErrorView>,
    ) {
        (
            self.input_rejection_counted().with_event(
                RuntimeEventView::InputRejected { world, reason },
            ),
            Err(RuntimeErrorView::InputRejected { world, reason }),
        )
    }

    /// The runtime after one more input was rejected.
    pub open spec fn input_rejection_counted(self) -> RuntimeView {
        RuntimeView {
            metrics: RuntimeMetrics {
                inputs_rejected: counted(self.metrics.inputs_rejected),
                ..self.metrics
            },
            ..self
        }
    }

    /// The runtime after one more reducer call was rejected.
    pub open spec fn call_rejection_counted(self) -> RuntimeView {
        RuntimeView {
            metrics: RuntimeMetrics {
                reducer_calls_rejected: counted(self.metrics.reducer_calls_rejected),
                ..self.metrics
            },
            ..self
        }
    }

    /// Queueing an input frame at the end of a running world's queue.
    pub open spec fn input_submitted(self, world: WorldId, frame: InputFrameView) -> (
        RuntimeView,
        Result<(), RuntimeErrorView>,
    ) {
        let entry = self.worlds[world.0];
        match self.world_access(world) {
            Err(e) => (self, Err(e)),
            Ok(_) => if entry.state != WorldLifecycle::Running {
                (
                    self.input_rejection_counted(),
                    Err(
                        RuntimeErrorView::InvalidWorldState {
                            world,
                            operation: "submit input to"@,
                            state: entry.state,
                        },
                    ),
                )
            } else if frame.tick.0 < entry.next_tick.0 {
                self.input_rejected(
                    world,
                    ErrorView::InvalidArgument("late input: tick already passed"@),
                )
            } else if entry.inputs.len() >= self.config.max_queued_inputs {
                self.input_rejected(world, ErrorView::Capacity("input queue full"@))
            } else {
                (
                    RuntimeView {
                        metrics: RuntimeMetrics {
                            inputs_accepted: counted(self.metrics.inputs_accepted),
                            ..self.metrics
                        },
                        ..self.with_world(
                            world,
                            WorldView { inputs: entry.inputs.push(frame), ..entry },
                        )
                    },
                    Ok(()),
                )
            },
        }
    }

    /// Queueing a reducer call at the end of a running world's queue.
    pub open spec fn call_submitted(self, world: WorldId, call: ReducerCallView) -> (
        RuntimeView,
        Result<(), RuntimeErrorView>,
    ) {
        let entry = self.worlds[world.0];
        match self.world_access(world) {
            Err(e) => (self, Err(e)),
            Ok(_) => if entry.state != WorldLifecycle::Running {
                (
                    self.call_rejection_counted(),
                    Err(
                        RuntimeErrorView::InvalidWorldState {
                            world,
                            operation: "submit reducer call to"@,
                            state: entry.state,
                        },
                    ),
                )
            } else if call.reducer.len() == 0 {
                (
                    self.call_rejection_counted(),
                    Err(
                        RuntimeErrorView::Core(
                            ErrorView::InvalidArgument("reducer call name must not be empty"@),
                        ),
                    ),
                )
            } else if entry.calls.len() >= self.config.max_queued_reducer_calls {
                let reason = ErrorView::Capacity("reducer call queue full"@);
                (
                    self.call_rejection_counted().with_event(
                        RuntimeEventView::ReducerCallRejected { world, reason },
                    ),
                    Err(RuntimeErrorView::ReducerCallRejected { world, reason }),
                )
            } else {
                (
                    RuntimeView {
                        metrics: RuntimeMetrics {
                            reducer_calls_accepted: counted(self.metrics.reducer_calls_accepted),
                            ..self.metrics
                        },
                        ..self.with_world(
                            world,
                            WorldView { calls: entry.calls.push(call), ..entry },
                        )
                    },
                    Ok(()),
                )
            },
        }
    }

    // --------------------------------------------------------------- ticks

    /// The order worlds tick in: workers ascending, then each worker's worlds
    /// ascending.
    pub open spec fn tick_order(self) -> Seq<u64> {
        worlds_of(self.workers, ascending(self.workers.dom()))
    }

    /// The messages delivered to a world's next tick, in delivery order.
    pub open spec fn delivered_to(self, world: WorldId) -> Seq<PartitionMessageView> {
        match partition_of(self.partitions, world.0) {
            None => Seq::empty(),
            Some(p) => in_delivery_order(
                deliverable(self.partitions[p].inbound, self.worlds[world.0].next_tick.0),
            ),
        }
    }

    /// The partitions after a world's deliverable messages were taken.
    pub open spec fn partitions_drained(self, world: WorldId) -> Map<u64, PartitionView> {
        match partition_of(self.partitions, world.0) {
            None => self.partitions,
            Some(p) => self.partitions.insert(
                p,
                PartitionView {
                    inbound: undeliverable(
                        self.partitions[p].inbound,
                        self.worlds[world.0].next_tick.0,
                    ),
                    ..self.partitions[p]
                },
            ),
        }
    }

    /// What a world's next tick takes in.
    pub open spec fn tick_input(self, world: WorldId) -> TickInputView {
        let entry = self.worlds[world.0];
        TickInputView {
            world,
            frame: if entry.inputs.len() > 0 {
                entry.inputs[0]
            } else {
                InputFrameView { tick: entry.next_tick, commands: Seq::empty() }
            },
            delivered: self.delivered_to(world),
            calls: entry.calls.take(call_share(entry)),
        }
    }

    /// The runtime after a tick's input was taken.
    pub open spec fn input_taken(self, world: WorldId) -> RuntimeView {
        let entry = self.worlds[world.0];
        RuntimeView {
            partitions: self.partitions_drained(world),
            metrics: RuntimeMetrics {
                messages_delivered: counted_by(
                    self.metrics.messages_delivered,
                    self.delivered_to(world).len() as u64,
                ),
                ..self.metrics
            },
            ..self.with_world(
                world,
                WorldView {
                    inputs: if entry.inputs.len() > 0 {
                        entry.inputs.drop_first()
                    } else {
                        entry.inputs
                    },
                    calls: entry.calls.skip(call_share(entry)),
                    ..entry
                },
            )
        }
    }

    /// Whether a world is registered and running.
    pub open spec fn ticks(self, world: u64) -> bool {
        self.worlds.contains_key(world) && self.worlds[world].state == WorldLifecycle::Running
    }

    /// Taking the inputs of every running world of a list, in order.
    pub open spec fn inputs_taken(self, worlds: Seq<u64>) -> (RuntimeView, Seq<TickInputView>)
        decreases worlds.len(),
    {
        if worlds.len() == 0 {
            (self, Seq::empty())
        } else {
            let (before, inputs) = self.inputs_taken(worlds.drop_last());
            let world = WorldId(worlds.last());
            if before.ticks(world.0) {
                (before.input_taken(world), inputs.push(before.tick_input(world)))
            } else {
                (before, inputs)
            }
        }
    }

    /// The runtime after a tick was counted: as successful once what it
    /// committed is durable, as failed if it committed nothing.
    pub open spec fn tick_counted(
        self,
        committed: bool,
        durable: bool,
        duration_ns: u64,
    ) -> RuntimeView {
        RuntimeView {
            metrics: RuntimeMetrics {
                ticks_total: counted(self.metrics.ticks_total),
                ticks_succeeded: if committed && durable {
                    counted(self.metrics.ticks_succeeded)
                } else {
                    self.metrics.ticks_succeeded
                },
                ticks_failed: if committed {
                    self.metrics.ticks_failed
                } else {
                    counted(self.metrics.ticks_failed)
                },
                tick_ns_total: counted_by(self.metrics.tick_ns_total, duration_ns),
                ..self.metrics
            },
            ..self
        }
    }

    /// Whether what a tick committed is durable: it was appended to the log,
    /// if the world has one.
    pub open spec fn durable(self, run: TickRunView) -> bool {
        !self.worlds[run.input.world.0].persistent || run.answers.appended is Ok
    }

    /// The runtime after a world failed.
    pub open spec fn world_failure(self, world: WorldId) -> RuntimeView {
        RuntimeView {
            metrics: RuntimeMetrics {
                world_failures: counted(self.metrics.world_failures),
                ..self.metrics
            },
            ..self.with_world(
                world,
                WorldView { state: WorldLifecycle::Failed, ..self.worlds[world.0] },
            )
        }
    }

    /// A failed tick: nothing was committed, the calls taken go back to the
    /// front of the queue in order, and the failure policy decides the fate
    /// of the world.
    pub open spec fn tick_failed(self, run: TickRunView, tick: TickId, error: ErrorView) -> RuntimeView {
        let world = run.input.world;
        let entry = self.worlds[world.0];
        let requeued = self.tick_counted(false, false, run.answers.duration_ns).with_event(
            RuntimeEventView::TickFailed { world, tick, error },
        ).with_world(
            world,
            WorldView {
                calls: run.input.calls + entry.calls,
                next_tick: run.answers.next_tick,
                ..entry
            },
        );
        match self.config.tick_failure_policy {
            TickFailurePolicy::FailWorld => requeued.world_failure(world).with_event(
                RuntimeEventView::WorldFailed { world, reason: error },
            ),
            TickFailurePolicy::Continue => requeued,
        }
    }

    /// The runtime after a committed tick was counted.
    pub open spec fn tick_completed(self, run: TickRunView, result: TickResultView) -> RuntimeView {
        let world = run.input.world;
        let entry = self.worlds[world.0];
        let counted_tick = self.tick_counted(true, self.durable(run), run.answers.duration_ns);
        RuntimeView {
            metrics: RuntimeMetrics {
                changes_committed: counted_by(
                    self.metrics.changes_committed,
                    result.changes.len() as u64,
                ),
                ..counted_tick.metrics
            },
            ..counted_tick
        }.with_event(
            RuntimeEventView::TickCompleted {
                world,
                tick: result.tick,
                duration_ns: run.answers.duration_ns,
            },
        ).with_world(
            world,
            WorldView {
                ticks_run: counted(entry.ticks_run),
                next_tick: run.answers.next_tick,
                ..entry
            },
        )
    }

    /// Whether the next durable tick of a world makes a snapshot due.
    pub open spec fn snapshot_due(self, world: WorldId) -> bool {
        match self.config.snapshot_interval {
            None => false,
            Some(interval) => counted(self.worlds[world.0].ticks_since_snapshot) >= interval,
        }
    }

    /// The runtime after a committed tick became durable.
    pub open spec fn tick_appended(self, world: WorldId, snapshot_written: bool) -> RuntimeView {
        let entry = self.worlds[world.0];
        let snapshot = self.snapshot_due(world) && snapshot_written;
        RuntimeView {
            metrics: RuntimeMetrics {
                wal_appends: counted(self.metrics.wal_appends),
                snapshots: if snapshot {
                    counted(self.metrics.snapshots)
                } else {
                    self.metrics.snapshots
                },
                ..self.metrics
            },
            ..self.with_world(
                world,
                WorldView {
                    ticks_since_snapshot: if self.config.snapshot_interval is None {
                        entry.ticks_since_snapshot
                    } else if snapshot {
                        0
                    } else {
                        counted(entry.ticks_since_snapshot)
                    },
                    ..entry
                },
            )
        }
    }

    /// The runtime after a committed tick could not be made durable.
    pub open spec fn append_failed(
        self,
        world: WorldId,
        tick: TickId,
        error: ErrorView,
    ) -> RuntimeView {
        let counted_failure = RuntimeView {
            metrics: RuntimeMetrics {
                wal_failures: counted(self.metrics.wal_failures),
                ..self.metrics
            },
            ..self
        };
        counted_failure.world_failure(world).with_event(
            RuntimeEventView::PersistenceFailure { world, tick, error },
        )
    }

    /// What becomes of a tick that was run. Durability comes first: of a
    /// world that has a log, only what was appended leaves the tick.
    pub open spec fn tick_settled(self, run: TickRunView) -> (
        RuntimeView,
        Result<TickResultView, RuntimeErrorView>,
    ) {
        let world = run.input.world;
        if !self.running() {
            (self, Err(RuntimeErrorView::Shutdown))
        } else if !self.worlds.contains_key(world.0) {
            (self, Err(RuntimeErrorView::UnknownWorld(world)))
        } else {
            match run.answers.outcome {
                Err(failure) => (
                    self.tick_failed(run, failure.tick, failure.error),
                    Err(RuntimeErrorView::Tick { world, error: failure.error }),
                ),
                Ok(result) => {
                    let done = self.tick_completed(run, result);
                    if !self.worlds[world.0].persistent {
                        (done.messages_enqueued(result.outbound), Ok(result))
                    } else {
                        match run.answers.appended {
                            Err(error) => (
                                done.append_failed(world, result.tick, error),
                                Err(RuntimeErrorView::Persistence(error)),
                            ),
                            Ok(_) => (
                                done.tick_appended(
                                    world,
                                    run.answers.snapshot_written,
                                ).messages_enqueued(result.outbound),
                                Ok(result),
                            ),
                        }
                    }
                },
            }
        }
    }

    /// What becomes of several ticks that were run, in order.
    pub open spec fn ticks_settled(self, runs: Seq<TickRunView>) -> (
        RuntimeView,
        Seq<Result<TickResultView, RuntimeErrorView>>,
    )
        decreases runs.len(),
    {
        if runs.len() == 0 {
            (self, Seq::empty())
        } else {
            let (before, results) = self.ticks_settled(runs.drop_last());
            let (after, result) = before.tick_settled(runs.last());
            (after, results.push(result))
        }
    }
}

/// How many queued calls a world's next tick takes.
pub open spec fn call_share(entry: WorldView) -> int {
    if entry.calls.len() < entry.calls_per_tick {
        entry.calls.len() as int
    } else {
        entry.calls_per_tick as int
    }
}

/// The worlds of several workers: worker by worker, each one's ascending.
pub open spec fn worlds_of(workers: Map<u64, WorkerView>, ids: Seq<u64>) -> Seq<u64>
    decreases ids.len(),
{
    if ids.len() == 0 {
        Seq::empty()
    } else {
        worlds_of(workers, ids.drop_last()) + ascending(workers[ids.last()].worlds)
    }
}

} // verus!
