//! The [`Runtime`]: the single-process coordinator.
//!
//! The runtime owns operational metadata only: workers, worlds, ownership,
//! queues, lifecycle, metrics and events. The authoritative state of a world
//! lives with whoever runs its ticks. A tick is taken in with
//! [`Runtime::plan_tick`] (or [`Runtime::plan_step`] for all worlds), run by
//! the host, and settled with [`Runtime::tick_once`] (or [`Runtime::step`]):
//! durability first, observation second.

use vstd::prelude::*;
use vstd::string::*;

use crate::base::error::{Error, ErrorView};
use crate::base::ids::{PartitionId, SubscriptionId, TickId, WorkerId, WorldId};
use crate::base::input::InputFrame;
use crate::base::log::EventLog;
use crate::base::message::{
    PartitionMessage, ReducerCall, ReducerCallView, TickResult, TickResultView,
};
use crate::base::subscription::SubscriptionUpdate;
use crate::base::table::{ascending, ascending_is, is_ascending, put_back, IdSet, Table};
use crate::base::text::with_number;
use crate::base::value::{opt_view, views};
use crate::reducer::args::ReducerArgs;
use crate::runtime::config::{RuntimeConfig, RuntimeConfigView, TickFailurePolicy};
use crate::runtime::error::{RuntimeError, RuntimeErrorView};
use crate::runtime::event::RuntimeEvent;
use crate::runtime::laws::{
    adding_a_world_keeps_valid, assigned_worker_runs, queueing_keeps_valid, reassigning_keeps_valid,
    registering_keeps_valid, removing_a_world_keeps_valid, shutdown_stops_everything,
    taking_input_keeps_valid, unregistering_keeps_valid,
};
use crate::runtime::metrics::{count, count_by, RuntimeMetrics};
use crate::runtime::model::{
    bound_to, call_share, delivers_to, partition_of, running_worker_from, worlds_of, RuntimeState,
    RuntimeView,
};
use crate::runtime::partition::{PartitionEntry, PartitionView, RoutingStatus};
use crate::runtime::report::{answer_view, failure_of, FlushFailure, RuntimeStepReport};
use crate::runtime::setup::{
    build_failure_text, done_view, log_opened, log_path, no_worker_text, snapshot_dir, LogSetup,
    RecoverySetup, WorldSetup,
};
use crate::runtime::tick::{TickInput, TickRun, TickRunView};
use crate::runtime::worker::{Worker, WorkerState, WorkerStatus, WorkerView};
use crate::runtime::world::{WorldEntry, WorldLifecycle, WorldStatus, WorldView};

verus! {

broadcast use put_back;

/// The content of a runtime answer.
pub open spec fn answered<T>(result: Result<T, RuntimeError>) -> Result<T, RuntimeErrorView> {
    match result {
        Ok(x) => Ok(x),
        Err(e) => Err(e@),
    }
}

/// The single-process runtime coordinator.
pub struct Runtime {
    config: RuntimeConfig,
    state: RuntimeState,
    workers: Table<Worker>,
    worlds: Table<WorldEntry>,
    partitions: Table<PartitionEntry>,
    topology: IdSet,
    sent_seq: Table<u64>,
    assign_counter: u64,
    events: EventLog<RuntimeEvent>,
    metrics: RuntimeMetrics,
}

impl View for Runtime {
    type V = RuntimeView;

    closed spec fn view(&self) -> RuntimeView {
        RuntimeView {
            config: self.config@,
            state: self.state,
            workers: self.workers@,
            worlds: self.worlds@,
            partitions: self.partitions@,
            topology: self.topology@,
            sent_seq: self.sent_seq@,
            assign_counter: self.assign_counter,
            events: self.events@,
            metrics: self.metrics,
        }
    }
}

impl RuntimeView {
    /// A runtime before any operation.
    pub open spec fn initial(config: RuntimeConfigView) -> RuntimeView {
        RuntimeView {
            config,
            state: RuntimeState::Running,
            workers: Map::new(
                |k: u64| k < config.worker_count,
                |k: u64| WorkerView::fresh(WorkerId(k)),
            ),
            worlds: Map::empty(),
            partitions: Map::empty(),
            topology: Set::empty(),
            sent_seq: Map::empty(),
            assign_counter: 0,
            events: Seq::empty(),
            metrics: RuntimeMetrics { workers: config.worker_count, ..RuntimeMetrics::zero() },
        }
    }
}

impl Runtime {
    /// The event log keeps what the configuration says.
    pub closed spec fn log_sized(&self) -> bool {
        self.events.limit() == self.config@.event_log_limit
    }

    /// What every operation keeps.
    pub open spec fn wf(&self) -> bool {
        self@.valid() && self.log_sized()
    }

    /// Creates a running runtime from a validated configuration.
    pub fn new(config: RuntimeConfig) -> (runtime: Result<Runtime, RuntimeError>)
        ensures
            match runtime {
                Ok(r) => config@.violation() is None && r@ == RuntimeView::initial(config@)
                    && r.wf(),
                Err(e) => config@.violation() is Some && e@ == RuntimeErrorView::InvalidConfig(
                    ErrorView::InvalidArgument(config@.violation()->0).text(),
                ),
            },
    {
        if let Err(error) = config.validate() {
            return Err(RuntimeError::InvalidConfig(error.to_text()));
        }
        let mut workers: Table<Worker> = Table::new();
        let mut index: u64 = 0;
        let total: u64 = config.worker_count() as u64;
        while index < total
            invariant
                index <= total,
                workers@ == Map::new(
                    |k: u64| k < index,
                    |k: u64| WorkerView::fresh(WorkerId(k)),
                ),
            decreases total - index,
        {
            let id = WorkerId::from_u64(index);
            workers.insert(index, Worker::new(id));
            index = index + 1;
            assert(workers@ =~= Map::new(
                |k: u64| k < index,
                |k: u64| WorkerView::fresh(WorkerId(k)),
            ));
        }
        let mut metrics = RuntimeMetrics::empty();
        metrics.workers = config.worker_count();
        let limit: usize = config.event_log_limit();
        let runtime = Runtime {
            config,
            state: RuntimeState::Running,
            workers,
            worlds: Table::new(),
            partitions: Table::new(),
            topology: IdSet::new(),
            sent_seq: Table::new(),
            assign_counter: 0,
            events: EventLog::new(limit),
            metrics,
        };
        assert(runtime@.workers =~= RuntimeView::initial(config@).workers);
        assert(runtime@.topology =~= runtime@.partitions.dom());
        Ok(runtime)
    }

    // ------------------------------------------------------------- runtime

    /// The runtime lifecycle state.
    pub fn state(&self) -> (state: RuntimeState)
        ensures
            state == self@.state,
    {
        self.state
    }

    /// Whether the runtime accepts operations.
    pub fn is_running(&self) -> (running: bool)
        ensures
            running == self@.running(),
    {
        self.state == RuntimeState::Running
    }

    /// The configuration.
    pub fn config(&self) -> (config: &RuntimeConfig)
        ensures
            config@ == self@.config,
    {
        &self.config
    }

    fn push_event(&mut self, event: RuntimeEvent)
        requires
            old(self).wf(),
        ensures
            final(self).wf(),
            final(self)@ == old(self)@.with_event(event@),
    {
        self.events.push(event);
    }

    /// Whether the runtime accepts operations on a world; if not, the error.
    fn ensure_world(&self, world: WorldId) -> (verdict: Result<(), RuntimeError>)
        ensures
            answered(verdict) == self@.world_access(world),
    {
        if !self.is_running() {
            return Err(RuntimeError::Shutdown);
        }
        if !self.worlds.contains(world.as_u64()) {
            return Err(RuntimeError::UnknownWorld(world));
        }
        Ok(())
    }

    // ------------------------------------------------------------- workers

    /// A worker's status.
    pub fn worker_status(&self, worker: WorkerId) -> (status: Result<WorkerStatus, RuntimeError>)
        requires
            self.wf(),
        ensures
            match status {
                Ok(s) => self@.workers.contains_key(worker.0) && s.id == worker && s.state
                    == self@.workers[worker.0].state && s.worlds@ == ascending(
                    self@.workers[worker.0].worlds,
                ),
                Err(e) => !self@.workers.contains_key(worker.0) && e@
                    == RuntimeErrorView::UnknownWorker(worker),
            },
    {
        match self.workers.get(worker.as_u64()) {
            Some(handle) => Ok(
                WorkerStatus { id: handle.id(), state: handle.state(), worlds: handle.worlds() },
            ),
            None => Err(RuntimeError::UnknownWorker(worker)),
        }
    }

    /// The worker ids in ascending order.
    pub fn workers(&self) -> (ids: Vec<u64>)
        ensures
            ids@ == ascending(self@.workers.dom()),
            is_ascending(ids@),
            ids@.to_set() == self@.workers.dom(),
    {
        self.workers.keys()
    }

    /// Marks a worker failed: its worlds are marked failed and become
    /// recoverable; worlds on other workers are unaffected. No effect on a
    /// worker that failed before.
    pub fn fail_worker(&mut self, worker: WorkerId) -> (outcome: Result<(), RuntimeError>)
        requires
            old(self).wf(),
        ensures
            final(self).wf(),
            (final(self)@, answered(outcome)) == old(self)@.worker_failed(worker),
    {
        if !self.is_running() {
            return Err(RuntimeError::Shutdown);
        }
        let key: u64 = worker.as_u64();
        match self.workers.get(key) {
            None => {
                return Err(RuntimeError::UnknownWorker(worker));
            },
            Some(handle) => {
                if handle.state() == WorkerState::Failed {
                    return Ok(());
                }
            },
        }
        let mut owned: Vec<u64> = Vec::new();
        if let Some(mut handle) = self.workers.remove(key) {
            owned = handle.worlds();
            handle.set_state(WorkerState::Failed);
            self.workers.insert(key, handle);
        }
        self.push_event(RuntimeEvent::WorkerFailed { worker });
        let ghost marked = self@;
        let mut i: usize = 0;
        assert(owned@.take(0) =~= Seq::empty());
        while i < owned.len()
            invariant
                i <= owned@.len(),
                self.wf(),
                self@ == marked.worlds_orphaned(owned@.take(i as int), worker),
                self@.workers == marked.workers,
                self@.workers.contains_key(worker.0),
                owned@.to_set() == self@.workers[worker.0].worlds,
            decreases owned@.len() - i,
        {
            proof {
                assert(owned@.to_set().contains(owned@[i as int]));
                assert(self@.workers[worker.0].worlds.contains(owned@[i as int]));
                assert(owned@.take(i + 1).drop_last() =~= owned@.take(i as int));
            }
            self.orphan_world(WorldId::from_u64(owned[i]), worker);
            i = i + 1;
        }
        assert(owned@.take(owned@.len() as int) =~= owned@);
        Ok(())
    }

    fn orphan_world(&mut self, world: WorldId, worker: WorkerId)
        requires
            old(self).wf(),
            old(self)@.worlds.contains_key(world.0),
        ensures
            final(self).wf(),
            final(self)@ == old(self)@.world_orphaned(world, worker),
            final(self)@.workers == old(self)@.workers,
    {
        let key: u64 = world.as_u64();
        if let Some(entry) = self.worlds.get(key) {
            if entry.state == WorldLifecycle::Failed {
                return;
            }
        }
        if let Some(mut entry) = self.worlds.remove(key) {
            entry.state = WorldLifecycle::Failed;
            self.worlds.insert(key, entry);
        }
        self.metrics.world_failures = count(self.metrics.world_failures);
        let text = with_number("owner worker ", worker.as_u64(), " failed");
        self.push_event(RuntimeEvent::WorldFailed { world, reason: Error::Internal(text) });
    }

    /// Reassigns a world to another running worker. Its partitions follow.
    pub fn reassign_world(&mut self, world_id: WorldId, to: WorkerId) -> (outcome: Result<
        (),
        RuntimeError,
    >)
        requires
            old(self).wf(),
        ensures
            final(self).wf(),
            (final(self)@, answered(outcome)) == old(self)@.world_reassigned(world_id, to),
    {
        if !self.is_running() {
            return Err(RuntimeError::Shutdown);
        }
        match self.workers.get(to.as_u64()) {
            None => {
                return Err(RuntimeError::UnknownWorker(to));
            },
            Some(target) => {
                if target.state() != WorkerState::Running {
                    return Err(
                        RuntimeError::worker_state(to, "reassign onto", target.state()),
                    );
                }
            },
        }
        let from = match self.worlds.get(world_id.as_u64()) {
            None => {
                return Err(RuntimeError::UnknownWorld(world_id));
            },
            Some(entry) => entry.worker,
        };
        if from == to {
            return Ok(());
        }
        if let Some(mut handle) = self.workers.remove(from.as_u64()) {
            handle.remove_world(world_id);
            self.workers.insert(from.as_u64(), handle);
        }
        if let Some(mut handle) = self.workers.remove(to.as_u64()) {
            handle.add_world(world_id);
            self.workers.insert(to.as_u64(), handle);
        }
        if let Some(mut entry) = self.worlds.remove(world_id.as_u64()) {
            entry.worker = to;
            self.worlds.insert(world_id.as_u64(), entry);
        }
        self.move_partitions(world_id, to);
        proof {
            reassigning_keeps_valid(old(self)@, world_id, to);
        }
        Ok(())
    }

    /// Moves a world's partitions to another worker.
    fn move_partitions(&mut self, world: WorldId, to: WorkerId)
        ensures
            final(self)@ == (RuntimeView {
                partitions: old(self)@.partitions_moved(world, to),
                ..old(self)@
            }),
            final(self).log_sized() == old(self).log_sized(),
    {
        let keys = self.partitions.keys();
        let ghost before = self.partitions@;
        let mut i: usize = 0;
        while i < keys.len()
            invariant
                i <= keys@.len(),
                is_ascending(keys@),
                keys@.to_set() == before.dom(),
                self.partitions@.dom() == before.dom(),
                forall|j: int|
                    0 <= j < keys@.len() ==> self.partitions@[#[trigger] keys@[j]] == if j < i
                        && before[keys@[j]].world == world {
                        (PartitionView { worker: to, ..before[keys@[j]] })
                    } else {
                        before[keys@[j]]
                    },
                (*self)@ == (RuntimeView { partitions: self.partitions@, ..old(self)@ }),
                self.log_sized() == old(self).log_sized(),
            decreases keys@.len() - i,
        {
            let key: u64 = keys[i];
            proof {
                assert(keys@.to_set().contains(key));
                assert(before.contains_key(key));
            }
            if let Some(mut entry) = self.partitions.remove(key) {
                if entry.world == world {
                    entry.worker = to;
                }
                self.partitions.insert(key, entry);
            }
            assert(self.partitions@.dom() =~= before.dom());
            i = i + 1;
        }
        proof {
            assert forall|p: u64| before.contains_key(p) implies self.partitions@[p]
                == old(self)@.partitions_moved(world, to)[p] by {
                assert(keys@.to_set().contains(p));
                let j = choose|j: int| 0 <= j < keys@.len() && keys@[j] == p;
                assert(keys@[j] == p);
            }
            assert(self.partitions@ =~= old(self)@.partitions_moved(world, to));
        }
    }

    /// The worker currently owning a world.
    pub fn assigned_worker(&self, world_id: WorldId) -> (owner: Result<WorkerId, RuntimeError>)
        ensures
            answered(owner) == if self@.worlds.contains_key(world_id.0) {
                Ok::<WorkerId, RuntimeErrorView>(self@.worlds[world_id.0].worker)
            } else {
                Err(RuntimeErrorView::UnknownWorld(world_id))
            },
    {
        match self.worlds.get(world_id.as_u64()) {
            Some(entry) => Ok(entry.worker),
            None => Err(RuntimeError::UnknownWorld(world_id)),
        }
    }

    /// Picks the next running worker by deterministic round-robin, skipping
    /// failed workers so a new world is never owned by one.
    fn assign_worker(&mut self) -> (worker: Result<WorkerId, RuntimeError>)
        requires
            old(self).wf(),
        ensures
            final(self).wf(),
            match worker {
                Ok(id) => old(self)@.next_worker() == Some(id.0) && final(self)@
                    == old(self)@.worker_assigned(),
                Err(e) => old(self)@.next_worker() is None && final(self)@ == old(self)@ && e@
                    == RuntimeErrorView::Internal(no_worker_text()),
            },
    {
        let total: u64 = self.config.worker_count() as u64;
        let start: u64 = self.assign_counter % total;
        let mut offset: u64 = 0;
        while offset < total
            invariant
                0 < total <= usize::MAX,
                offset <= total,
                start < total,
                self@ == old(self)@,
                self.wf(),
                total == self@.config.worker_count,
                running_worker_from(self@.workers, start as int, 0, total as int)
                    == running_worker_from(
                    self@.workers,
                    start as int,
                    offset as int,
                    total as int,
                ),
                start as int == self@.assign_counter as int % total as int,
            decreases total - offset,
        {
            let index: u64 = ((start as u128 + offset as u128) % (total as u128)) as u64;
            if let Some(handle) = self.workers.get(index) {
                if handle.state() == WorkerState::Running {
                    self.assign_counter = count(self.assign_counter);
                    return Ok(WorkerId::from_u64(index));
                }
            }
            offset = offset + 1;
        }
        Err(RuntimeError::Internal("no running worker available to own a world".to_owned()))
    }

    // -------------------------------------------------------------- worlds

    /// Gives a new world to a worker.
    fn add_owned_world(&mut self, worker: WorkerId, world: WorldId, entry: WorldEntry)
        requires
            old(self).wf(),
            old(self)@.workers.contains_key(worker.0),
            !old(self)@.worlds.contains_key(world.0),
            entry@.worker == worker,
            old(self)@.state != RuntimeState::Stopped,
        ensures
            final(self).wf(),
            final(self)@ == old(self)@.with_owned_world(worker.0, world, entry@),
    {
        if let Some(mut handle) = self.workers.remove(worker.as_u64()) {
            handle.add_world(world);
            self.workers.insert(worker.as_u64(), handle);
        }
        self.worlds.insert(world.as_u64(), entry);
        proof {
            adding_a_world_keeps_valid(old(self)@, worker.0, world, entry@);
        }
    }

    /// What creating a world's log gives: whether the world has one.
    fn open_persistence(&self, world: WorldId, log: LogSetup) -> (persistent: Result<
        bool,
        RuntimeError,
    >)
        ensures
            answered(persistent) == log_opened(
                self@.config.persistence_dir,
                self@.config.persistence.enabled(),
                world,
                log@,
            ),
    {
        let dir = match self.config.persistence_dir() {
            None => {
                return Ok(false);
            },
            Some(dir) => dir,
        };
        if !self.config.persistence().is_enabled() {
            return Ok(false);
        }
        if let Err(reason) = log.dir_ready {
            let path = snapshot_dir(dir, world);
            let mut text = "cannot create world directory '".to_owned();
            text.append(path.as_str());
            text.append("': ");
            text.append(reason.as_str());
            return Err(RuntimeError::Persistence(Error::Internal(text)));
        }
        if log.log_exists {
            let path = log_path(dir, world);
            let mut text = with_number("world ", world.as_u64(), " already has a WAL at '");
            text.append(path.as_str());
            text.append("'; use recover_world instead of create_world");
            return Err(RuntimeError::Persistence(Error::AlreadyExists(text)));
        }
        match log.log_created {
            Err(error) => Err(RuntimeError::Persistence(error)),
            Ok(_) => Ok(true),
        }
    }

    /// Registers a world that the host built and assigns it to a worker
    /// (deterministic round-robin). The world waits to be started.
    pub fn create_world(&mut self, world_id: WorldId, setup: WorldSetup, log: LogSetup) -> (outcome:
        Result<(), RuntimeError>)
        requires
            old(self).wf(),
        ensures
            final(self).wf(),
            (final(self)@, answered(outcome)) == old(self)@.world_created(world_id, setup@, log@),
    {
        if !self.is_running() {
            return Err(RuntimeError::Shutdown);
        }
        if self.worlds.contains(world_id.as_u64()) {
            return Err(RuntimeError::DuplicateWorld(world_id));
        }
        if let Err(error) = setup.built {
            return Err(
                RuntimeError::Internal(
                    build_failure("world factory failed for world ", world_id, &error),
                ),
            );
        }
        let worker = match self.assign_worker() {
            Ok(worker) => worker,
            Err(error) => {
                return Err(error);
            },
        };
        proof {
            assigned_worker_runs(old(self)@);
        }
        let persistent = match self.open_persistence(world_id, log) {
            Ok(persistent) => persistent,
            Err(error) => {
                return Err(error);
            },
        };
        let entry = WorldEntry::new(worker, setup.next_tick, setup.calls_per_tick, persistent);
        self.add_owned_world(worker, world_id, entry);
        self.metrics.world_creations = count(self.metrics.world_creations);
        self.push_event(RuntimeEvent::WorldCreated { world: world_id, worker });
        Ok(())
    }

    /// Registers a world that the host rebuilt from its log. The world waits
    /// to be started. Yields the number of transactions replayed.
    pub fn recover_world(&mut self, world_id: WorldId, setup: RecoverySetup) -> (outcome: Result<
        usize,
        RuntimeError,
    >)
        requires
            old(self).wf(),
        ensures
            final(self).wf(),
            (final(self)@, answered(outcome)) == old(self)@.world_recovered(world_id, setup@),
    {
        if !self.is_running() {
            return Err(RuntimeError::Shutdown);
        }
        if self.worlds.contains(world_id.as_u64()) {
            return Err(RuntimeError::DuplicateWorld(world_id));
        }
        if !self.config.persistence().is_enabled() {
            return Err(
                RuntimeError::Persistence(
                    Error::Unsupported(
                        "cannot recover a world when persistence is disabled".to_owned(),
                    ),
                ),
            );
        }
        if !setup.log_exists {
            let path = match self.config.persistence_dir() {
                Some(dir) => log_path(dir, world_id),
                None => String::new(),
            };
            let mut text = with_number("no WAL exists for world ", world_id.as_u64(), " at '");
            text.append(path.as_str());
            text.append("'");
            return Err(RuntimeError::Persistence(Error::NotFound(text)));
        }
        if let Err(error) = setup.log_opened {
            return Err(RuntimeError::Persistence(error));
        }
        let has_snapshot = match setup.snapshot_found {
            Ok(found) => found,
            Err(error) => {
                return Err(RuntimeError::Persistence(error));
            },
        };
        let replayed_txs: usize = match (setup.world.built, setup.replayed) {
            (Ok(_), Ok(replayed)) => replayed,
            (Ok(_), Err(error)) => {
                return Err(RuntimeError::Persistence(error));
            },
            (Err(built), replayed) => {
                if has_snapshot {
                    if let Err(error) = replayed {
                        return Err(RuntimeError::Persistence(error));
                    }
                }
                return Err(
                    RuntimeError::Internal(
                        build_failure(
                            "world factory failed for recovered world ",
                            world_id,
                            &built,
                        ),
                    ),
                );
            },
        };
        let worker = match self.assign_worker() {
            Ok(worker) => worker,
            Err(error) => {
                return Err(error);
            },
        };
        proof {
            assigned_worker_runs(old(self)@);
        }
        let next_tick = match setup.resume_tick {
            Some(tick) => tick,
            None => setup.world.next_tick,
        };
        let entry = WorldEntry::new(worker, next_tick, setup.world.calls_per_tick, true);
        self.add_owned_world(worker, world_id, entry);
        self.metrics.recoveries = count(self.metrics.recoveries);
        self.metrics.world_creations = count(self.metrics.world_creations);
        self.push_event(RuntimeEvent::WorldRecovered { world: world_id, replayed_txs });
        Ok(replayed_txs)
    }

    /// Sets a registered world's lifecycle state.
    fn set_world_state(&mut self, world: WorldId, state: WorldLifecycle)
        requires
            old(self).wf(),
            old(self)@.worlds.contains_key(world.0),
            old(self)@.state != RuntimeState::Stopped || state != WorldLifecycle::Running,
        ensures
            final(self).wf(),
            final(self)@ == old(self)@.with_world(
                world,
                WorldView { state, ..old(self)@.worlds[world.0] },
            ),
    {
        if let Some(mut entry) = self.worlds.remove(world.as_u64()) {
            entry.state = state;
            self.worlds.insert(world.as_u64(), entry);
        }
    }

    /// Starts a created or stopped world. No effect on a running one. A
    /// failed world must be destroyed and created again or recovered.
    pub fn start_world(&mut self, world_id: WorldId) -> (outcome: Result<(), RuntimeError>)
        requires
            old(self).wf(),
        ensures
            final(self).wf(),
            (final(self)@, answered(outcome)) == old(self)@.world_started(world_id),
    {
        self.ensure_world(world_id)?;
        if let Some(entry) = self.worlds.get(world_id.as_u64()) {
            if entry.state == WorldLifecycle::Running {
                return Ok(());
            }
            if !entry.state.can_start() {
                return Err(RuntimeError::world_state(world_id, "start", entry.state));
            }
        }
        self.set_world_state(world_id, WorldLifecycle::Running);
        self.push_event(RuntimeEvent::WorldStarted { world: world_id });
        Ok(())
    }

    /// Stops a created or running world, retaining its state. No effect on a
    /// stopped one.
    pub fn stop_world(&mut self, world_id: WorldId) -> (outcome: Result<(), RuntimeError>)
        requires
            old(self).wf(),
        ensures
            final(self).wf(),
            (final(self)@, answered(outcome)) == old(self)@.world_stopped(world_id),
    {
        self.ensure_world(world_id)?;
        if let Some(entry) = self.worlds.get(world_id.as_u64()) {
            if entry.state == WorldLifecycle::Stopped {
                return Ok(());
            }
            if !entry.state.can_stop() {
                return Err(RuntimeError::world_state(world_id, "stop", entry.state));
            }
        }
        self.set_world_state(world_id, WorldLifecycle::Stopped);
        self.push_event(RuntimeEvent::WorldStopped { world: world_id });
        Ok(())
    }

    /// Removes a world from the runtime. Any partition that addresses it is
    /// unregistered first, so messages can no longer be routed to it.
    pub fn destroy_world(&mut self, world_id: WorldId) -> (outcome: Result<(), RuntimeError>)
        requires
            old(self).wf(),
        ensures
            final(self).wf(),
            (final(self)@, answered(outcome)) == old(self)@.world_destroyed(world_id),
    {
        self.ensure_world(world_id)?;
        let bound = self.partitions_of_world(world_id);
        let ghost before = self@;
        let mut i: usize = 0;
        assert(bound@.take(0) =~= Seq::empty());
        assert forall|j: int| 0 <= j < bound@.len() implies self@.partitions.contains_key(
            #[trigger] bound@[j],
        ) by {
            assert(bound@.to_set().contains(bound@[j]));
        }
        while i < bound.len()
            invariant
                i <= bound@.len(),
                self.wf(),
                self@ == before.without_partitions(bound@.take(i as int)),
                is_ascending(bound@),
                bound@.to_set() == bound_to(before.partitions, world_id.0),
                self@.workers == before.workers,
                self@.worlds.contains_key(world_id.0),
                forall|p: u64| #[trigger]
                    self@.partitions.contains_key(p) ==> before.partitions.contains_key(p)
                        && self@.partitions[p] == before.partitions[p],
                forall|j: int|
                    0 <= j < bound@.len() ==> (self@.partitions.contains_key(#[trigger] bound@[j])
                        <==> j >= i),
            decreases bound@.len() - i,
        {
            assert(bound@.take(i + 1).drop_last() =~= bound@.take(i as int));
            self.drop_partition(PartitionId::from_u64(bound[i]));
            i = i + 1;
        }
        proof {
            assert(bound@.take(bound@.len() as int) =~= bound@);
            assert forall|p: u64| #[trigger] self@.partitions.contains_key(
                p,
            ) implies self@.partitions[p].world != world_id by {
                if self@.partitions[p].world == world_id {
                    assert(bound_to(before.partitions, world_id.0).contains(p));
                    assert(bound@.to_set().contains(p));
                    let j = choose|j: int| 0 <= j < bound@.len() && bound@[j] == p;
                    assert(self@.partitions.contains_key(bound@[j]));
                }
            }
            removing_a_world_keeps_valid(self@, world_id);
        }
        if let Some(entry) = self.worlds.remove(world_id.as_u64()) {
            if let Some(mut handle) = self.workers.remove(entry.worker.as_u64()) {
                handle.remove_world(world_id);
                self.workers.insert(entry.worker.as_u64(), handle);
            }
        }
        self.events.push(RuntimeEvent::WorldDestroyed { world: world_id });
        Ok(())
    }

    /// A world's status.
    pub fn world_status(&self, world_id: WorldId) -> (status: Result<WorldStatus, RuntimeError>)
        ensures
            answered(status) == if self@.worlds.contains_key(world_id.0) {
                Ok::<WorldStatus, RuntimeErrorView>(self@.worlds[world_id.0].status(world_id))
            } else {
                Err(RuntimeErrorView::UnknownWorld(world_id))
            },
    {
        match self.worlds.get(world_id.as_u64()) {
            Some(entry) => Ok(entry.status(world_id)),
            None => Err(RuntimeError::UnknownWorld(world_id)),
        }
    }

    /// Every world's status in ascending order of world ids.
    pub fn list_worlds(&self) -> (list: Vec<(WorldId, WorldStatus)>)
        ensures
            list@.len() == ascending(self@.worlds.dom()).len(),
            forall|i: int|
                0 <= i < list@.len() ==> (#[trigger] list@[i]).0.0 == ascending(
                    self@.worlds.dom(),
                )[i] && list@[i].1 == self@.worlds[list@[i].0.0].status(list@[i].0),
    {
        let keys = self.worlds.keys();
        let mut list: Vec<(WorldId, WorldStatus)> = Vec::new();
        let mut i: usize = 0;
        while i < keys.len()
            invariant
                i <= keys@.len(),
                keys@.to_set() == self@.worlds.dom(),
                list@.len() == i,
                forall|j: int|
                    0 <= j < i ==> (#[trigger] list@[j]).0.0 == keys@[j] && list@[j].1
                        == self@.worlds[keys@[j]].status(list@[j].0),
            decreases keys@.len() - i,
        {
            let id = WorldId::from_u64(keys[i]);
            proof {
                assert(keys@.to_set().contains(keys@[i as int]));
            }
            if let Some(entry) = self.worlds.get(keys[i]) {
                list.push((id, entry.status(id)));
            }
            i = i + 1;
        }
        list
    }

    /// Records a snapshot of a world that the host tried to write.
    pub fn snapshot_world(&mut self, world_id: WorldId, written: Result<(), Error>) -> (outcome:
        Result<(), RuntimeError>)
        requires
            old(self).wf(),
        ensures
            final(self).wf(),
            (final(self)@, answered(outcome)) == old(self)@.world_snapshotted(
                world_id,
                done_view(written),
            ),
    {
        self.ensure_world(world_id)?;
        if let Some(entry) = self.worlds.get(world_id.as_u64()) {
            if !entry.persistent {
                return Err(
                    RuntimeError::Persistence(
                        Error::Unsupported(
                            "snapshots require persistence to be enabled".to_owned(),
                        ),
                    ),
                );
            }
        }
        if let Err(error) = written {
            return Err(
                RuntimeError::Persistence(
                    Error::Internal(build_failure("snapshot failed for world ", world_id, &error)),
                ),
            );
        }
        self.metrics.snapshots = count(self.metrics.snapshots);
        Ok(())
    }

    // ---------------------------------------------------------- partitions

    /// The partitions that address a world, ascending.
    fn partitions_of_world(&self, world: WorldId) -> (bound: Vec<u64>)
        ensures
            bound@ == ascending(bound_to(self@.partitions, world.0)),
            is_ascending(bound@),
            bound@.to_set() == bound_to(self@.partitions, world.0),
    {
        let keys = self.partitions.keys();
        let mut bound: Vec<u64> = Vec::new();
        let mut i: usize = 0;
        while i < keys.len()
            invariant
                i <= keys@.len(),
                is_ascending(keys@),
                keys@.to_set() == self@.partitions.dom(),
                is_ascending(bound@),
                forall|j: int|
                    0 <= j < bound@.len() ==> bound_to(self@.partitions, world.0).contains(
                        #[trigger] bound@[j],
                    ) && (i < keys@.len() ==> bound@[j] < keys@[i as int]),
                forall|j: int|
                    0 <= j < i && bound_to(self@.partitions, world.0).contains(
                        #[trigger] keys@[j],
                    ) ==> bound@.contains(keys@[j]),
            decreases keys@.len() - i,
        {
            let key: u64 = keys[i];
            let ghost earlier = bound@;
            proof {
                assert(keys@.to_set().contains(key));
            }
            if let Some(entry) = self.partitions.get(key) {
                if entry.world == world {
                    bound.push(key);
                    assert(bound@[earlier.len() as int] == key);
                    assert forall|x: u64| earlier.contains(x) implies bound@.contains(x) by {
                        let j = choose|j: int| 0 <= j < earlier.len() && earlier[j] == x;
                        assert(bound@[j] == x);
                    }
                }
            }
            i = i + 1;
            proof {
                if i < keys@.len() {
                    assert(keys@[i - 1] < keys@[i as int]);
                }
            }
        }
        proof {
            let set = bound_to(self@.partitions, world.0);
            assert forall|p: u64| set.contains(p) == bound@.to_set().contains(p) by {
                if set.contains(p) {
                    assert(keys@.to_set().contains(p));
                    let j = choose|j: int| 0 <= j < keys@.len() && keys@[j] == p;
                    assert(bound@.contains(keys@[j]));
                }
                if bound@.contains(p) {
                    let j = choose|j: int| 0 <= j < bound@.len() && bound@[j] == p;
                    assert(set.contains(bound@[j]));
                }
            }
            assert(bound@.to_set() =~= set);
            ascending_is(bound@, set);
        }
        bound
    }

    /// Tells every world the current topology.
    fn propagate_topology(&mut self)
        ensures
            final(self)@ == (RuntimeView {
                worlds: RuntimeView::worlds_told(old(self)@.worlds, old(self)@.topology),
                ..old(self)@
            }),
            final(self).log_sized() == old(self).log_sized(),
    {
        let keys = self.worlds.keys();
        let ghost before = self.worlds@;
        let ghost told = RuntimeView::worlds_told(before, self.topology@);
        let mut i: usize = 0;
        while i < keys.len()
            invariant
                i <= keys@.len(),
                is_ascending(keys@),
                keys@.to_set() == before.dom(),
                told == RuntimeView::worlds_told(before, self.topology@),
                self.worlds@.dom() == before.dom(),
                forall|j: int|
                    0 <= j < keys@.len() ==> self.worlds@[#[trigger] keys@[j]] == if j < i {
                        told[keys@[j]]
                    } else {
                        before[keys@[j]]
                    },
                (*self)@ == (RuntimeView { worlds: self.worlds@, ..old(self)@ }),
                self.log_sized() == old(self).log_sized(),
            decreases keys@.len() - i,
        {
            let key: u64 = keys[i];
            proof {
                assert(keys@.to_set().contains(key));
                assert(before.contains_key(key));
            }
            if let Some(mut entry) = self.worlds.remove(key) {
                entry.known_partitions = self.topology.members();
                self.worlds.insert(key, entry);
            }
            assert(self.worlds@.dom() =~= before.dom());
            i = i + 1;
        }
        proof {
            assert forall|w: u64| before.contains_key(w) implies self.worlds@[w] == told[w] by {
                assert(keys@.to_set().contains(w));
                let j = choose|j: int| 0 <= j < keys@.len() && keys@[j] == w;
                assert(keys@[j] == w);
            }
            assert(self.worlds@ =~= told);
        }
    }

    /// Binds a partition to an existing world. Every world learns the new
    /// topology; messages to the partition queue (bounded) for the world's
    /// next tick.
    pub fn register_partition(&mut self, partition: PartitionId, world_id: WorldId) -> (outcome:
        Result<(), RuntimeError>)
        requires
            old(self).wf(),
        ensures
            final(self).wf(),
            (final(self)@, answered(outcome)) == old(self)@.partition_registered(
                partition,
                world_id,
            ),
    {
        if !self.is_running() {
            return Err(RuntimeError::Shutdown);
        }
        if self.partitions.contains(partition.as_u64()) {
            return Err(RuntimeError::DuplicatePartition(partition));
        }
        let worker = match self.worlds.remove(world_id.as_u64()) {
            None => {
                assert(self.worlds@ =~= old(self).worlds@);
                return Err(RuntimeError::UnknownWorld(world_id));
            },
            Some(mut entry) => {
                let worker = entry.worker;
                entry.partition = Some(partition);
                self.worlds.insert(world_id.as_u64(), entry);
                worker
            },
        };
        self.topology.insert(partition.as_u64());
        self.propagate_topology();
        self.partitions.insert(partition.as_u64(), PartitionEntry::new(world_id, worker));
        self.metrics.partitions = self.partitions.len();
        self.events.push(RuntimeEvent::PartitionRegistered { partition, world: world_id });
        proof {
            registering_keeps_valid(old(self)@, partition, world_id);
        }
        Ok(())
    }

    /// Removes a registered partition and tells every world.
    fn drop_partition(&mut self, partition: PartitionId)
        requires
            old(self).wf(),
            old(self)@.partitions.contains_key(partition.0),
        ensures
            final(self).wf(),
            final(self)@ == old(self)@.without_partition(partition),
    {
        self.partitions.remove(partition.as_u64());
        self.topology.remove(partition.as_u64());
        self.sent_seq.remove(partition.as_u64());
        self.propagate_topology();
        self.metrics.partitions = self.partitions.len();
        self.events.push(RuntimeEvent::PartitionUnregistered { partition });
        proof {
            unregistering_keeps_valid(old(self)@, partition);
        }
    }

    /// Unbinds a partition from its world. Its queued messages are dropped.
    /// No effect for an unknown partition.
    pub fn unregister_partition(&mut self, partition: PartitionId) -> (outcome: Result<
        (),
        RuntimeError,
    >)
        requires
            old(self).wf(),
        ensures
            final(self).wf(),
            (final(self)@, answered(outcome)) == old(self)@.partition_unregistered(partition),
    {
        if !self.is_running() {
            return Err(RuntimeError::Shutdown);
        }
        if self.partitions.contains(partition.as_u64()) {
            self.drop_partition(partition);
        }
        Ok(())
    }

    /// A partition's status.
    pub fn partition_status(&self, partition: PartitionId) -> (status: Result<
        RoutingStatus,
        RuntimeError,
    >)
        ensures
            answered(status) == if self@.partitions.contains_key(partition.0) {
                Ok::<RoutingStatus, RuntimeErrorView>(
                    RoutingStatus {
                        partition,
                        world: self@.partitions[partition.0].world,
                        worker: self@.partitions[partition.0].worker,
                        queued_messages: self@.partitions[partition.0].inbound.len() as usize,
                    },
                )
            } else {
                Err(RuntimeErrorView::UnknownPartition(partition))
            },
    {
        match self.partitions.get(partition.as_u64()) {
            Some(entry) => Ok(
                RoutingStatus {
                    partition,
                    world: entry.world,
                    worker: entry.worker,
                    queued_messages: entry.inbound.len(),
                },
            ),
            None => Err(RuntimeError::UnknownPartition(partition)),
        }
    }

    /// The registered partition ids in ascending order.
    pub fn partitions(&self) -> (ids: Vec<u64>)
        ensures
            ids@ == ascending(self@.partitions.dom()),
    {
        self.partitions.keys()
    }

    /// The propagated partition topology in ascending order.
    pub fn topology(&self) -> (ids: Vec<u64>)
        ensures
            ids@ == ascending(self@.topology),
    {
        self.topology.members()
    }

    /// The partitions a world may address, ascending.
    pub fn known_partitions(&self, world_id: WorldId) -> (known: Result<Vec<u64>, RuntimeError>)
        ensures
            match known {
                Ok(ids) => self@.worlds.contains_key(world_id.0) && ids@
                    == self@.worlds[world_id.0].known_partitions,
                Err(e) => !self@.worlds.contains_key(world_id.0) && e@
                    == RuntimeErrorView::UnknownWorld(world_id),
            },
    {
        match self.worlds.get(world_id.as_u64()) {
            Some(entry) => {
                let ids = entry.known_partitions.clone();
                assert(ids@ =~= entry.known_partitions@);
                Ok(ids)
            },
            None => Err(RuntimeError::UnknownWorld(world_id)),
        }
    }

    /// Queues one message into its destination's bounded inbound queue. A
    /// full queue or an unregistered destination drops the message with an
    /// event and a count; nothing blocks.
    fn enqueue_message(&mut self, message: PartitionMessage)
        requires
            old(self).wf(),
        ensures
            final(self).wf(),
            final(self)@ == old(self)@.message_enqueued(message@),
            final(self)@.worlds == old(self)@.worlds,
            final(self)@.workers == old(self)@.workers,
    {
        let key: u64 = message.to().as_u64();
        let full = match self.partitions.get(key) {
            None => {
                self.metrics.messages_dropped = count(self.metrics.messages_dropped);
                self.push_event(
                    RuntimeEvent::MessageDropped {
                        from: message.from(),
                        to: message.to(),
                        reason: Error::not_found("destination partition is not registered"),
                    },
                );
                return;
            },
            Some(target) => target.inbound.len() >= self.config.max_queued_partition_messages(),
        };
        if full {
            self.metrics.messages_dropped = count(self.metrics.messages_dropped);
            self.push_event(
                RuntimeEvent::MessageDropped {
                    from: message.from(),
                    to: message.to(),
                    reason: Error::Capacity("destination inbound queue is full".to_owned()),
                },
            );
            return;
        }
        if let Some(mut target) = self.partitions.remove(key) {
            let ghost queued = views(target.inbound@);
            target.inbound.push_back(message);
            assert(views(target.inbound@) =~= queued.push(message@));
            self.partitions.insert(key, target);
            self.metrics.messages_sent = count(self.metrics.messages_sent);
            proof {
                queueing_keeps_valid(old(self)@, message@);
            }
        }
    }

    /// Queues the outbound messages of a committed tick in order.
    fn enqueue_outbound(&mut self, outbound: &Vec<PartitionMessage>)
        requires
            old(self).wf(),
        ensures
            final(self).wf(),
            final(self)@ == old(self)@.messages_enqueued(views(outbound@)),
    {
        let ghost all = views(outbound@);
        let mut i: usize = 0;
        assert(all.take(0) =~= Seq::empty());
        while i < outbound.len()
            invariant
                i <= outbound@.len(),
                all == views(outbound@),
                self.wf(),
                self@ == old(self)@.messages_enqueued(all.take(i as int)),
            decreases outbound@.len() - i,
        {
            assert(all.take(i + 1).drop_last() =~= all.take(i as int));
            self.enqueue_message(outbound[i].clone());
            i = i + 1;
        }
        assert(all.take(all.len() as int) =~= all);
    }

    /// Sends a cross-partition message from outside a tick. It is stamped
    /// with the sender's current tick and next sequence number, and delivered
    /// to the destination's next tick.
    pub fn send_message(
        &mut self,
        from: PartitionId,
        to: PartitionId,
        kind: &str,
        payload: ReducerArgs,
    ) -> (outcome: Result<(), RuntimeError>)
        requires
            old(self).wf(),
        ensures
            final(self).wf(),
            (final(self)@, answered(outcome)) == old(self)@.message_sent(
                from,
                to,
                kind@,
                payload@,
            ),
    {
        if !self.is_running() {
            return Err(RuntimeError::Shutdown);
        }
        if from == to {
            return Err(
                RuntimeError::InvalidConfig(
                    "cannot send a partition message to the sender itself".to_owned(),
                ),
            );
        }
        let sent_tick = match self.partitions.get(from.as_u64()) {
            None => {
                return Err(RuntimeError::UnknownPartition(from));
            },
            Some(entry) => match self.worlds.get(entry.world.as_u64()) {
                Some(world) => world.next_tick,
                None => TickId::from_u64(0),
            },
        };
        if !self.partitions.contains(to.as_u64()) {
            return Err(RuntimeError::UnknownPartition(to));
        }
        let seq: u64 = match self.sent_seq.get(from.as_u64()) {
            Some(next) => *next,
            None => 0,
        };
        self.sent_seq.insert(from.as_u64(), seq);
        let message = match PartitionMessage::new(from, to, sent_tick, seq, kind, payload) {
            Ok(message) => message,
            Err(error) => {
                return Err(RuntimeError::Core(error));
            },
        };
        self.sent_seq.insert(from.as_u64(), count(seq));
        assert(self@.sent_seq =~= old(self)@.sent_seq.insert(
            from.0,
            crate::runtime::metrics::counted(seq),
        ));
        self.enqueue_message(message);
        Ok(())
    }

    // -------------------------------------------------------------- inputs

    /// Queues a client reducer call for a running world. The call executes
    /// inside the world's next tick. A full queue rejects the call to the
    /// caller; nothing is dropped silently.
    pub fn submit_reducer_call(
        &mut self,
        world_id: WorldId,
        request_id: u64,
        reducer: &str,
        args: ReducerArgs,
    ) -> (outcome: Result<(), RuntimeError>)
        requires
            old(self).wf(),
        ensures
            final(self).wf(),
            (final(self)@, answered(outcome)) == old(self)@.call_submitted(
                world_id,
                ReducerCallView { request_id, reducer: reducer@, args: args@ },
            ),
    {
        self.ensure_world(world_id)?;
        let key: u64 = world_id.as_u64();
        let mut full = false;
        if let Some(entry) = self.worlds.get(key) {
            if entry.state != WorldLifecycle::Running {
                let error = RuntimeError::world_state(
                    world_id,
                    "submit reducer call to",
                    entry.state,
                );
                self.metrics.reducer_calls_rejected = count(self.metrics.reducer_calls_rejected);
                return Err(error);
            }
            full = entry.calls.len() >= self.config.max_queued_reducer_calls();
        }
        let call = match ReducerCall::new(request_id, reducer, args) {
            Ok(call) => call,
            Err(error) => {
                self.metrics.reducer_calls_rejected = count(self.metrics.reducer_calls_rejected);
                return Err(RuntimeError::Core(error));
            },
        };
        if full {
            self.metrics.reducer_calls_rejected = count(self.metrics.reducer_calls_rejected);
            self.push_event(
                RuntimeEvent::ReducerCallRejected {
                    world: world_id,
                    reason: Error::Capacity("reducer call queue full".to_owned()),
                },
            );
            return Err(
                RuntimeError::ReducerCallRejected {
                    world: world_id,
                    reason: Error::Capacity("reducer call queue full".to_owned()),
                },
            );
        }
        if let Some(mut entry) = self.worlds.remove(key) {
            let ghost queued = views(entry.calls@);
            entry.calls.push_back(call);
            assert(views(entry.calls@) =~= queued.push(call@));
            self.worlds.insert(key, entry);
        }
        self.metrics.reducer_calls_accepted = count(self.metrics.reducer_calls_accepted);
        Ok(())
    }

    /// Counts and logs a rejected input.
    fn reject_input(&mut self, world: WorldId, reason: Error) -> (outcome: Result<
        (),
        RuntimeError,
    >)
        requires
            old(self).wf(),
        ensures
            final(self).wf(),
            (final(self)@, answered(outcome)) == old(self)@.input_rejected(world, reason@),
    {
        self.metrics.inputs_rejected = count(self.metrics.inputs_rejected);
        let copy = reason.clone();
        self.push_event(RuntimeEvent::InputRejected { world, reason: copy });
        Err(RuntimeError::InputRejected { world, reason })
    }

    /// Queues an input frame for a running world. A frame for a tick that
    /// has passed and a frame beyond the queue bound are rejected; nothing is
    /// dropped silently.
    pub fn submit_input(&mut self, world_id: WorldId, frame: InputFrame) -> (outcome: Result<
        (),
        RuntimeError,
    >)
        requires
            old(self).wf(),
        ensures
            final(self).wf(),
            (final(self)@, answered(outcome)) == old(self)@.input_submitted(world_id, frame@),
    {
        self.ensure_world(world_id)?;
        let key: u64 = world_id.as_u64();
        let mut late = false;
        let mut full = false;
        if let Some(entry) = self.worlds.get(key) {
            if entry.state != WorldLifecycle::Running {
                let error = RuntimeError::world_state(world_id, "submit input to", entry.state);
                self.metrics.inputs_rejected = count(self.metrics.inputs_rejected);
                return Err(error);
            }
            late = frame.tick.as_u64() < entry.next_tick.as_u64();
            full = entry.inputs.len() >= self.config.max_queued_inputs();
        }
        if late {
            return self.reject_input(
                world_id,
                Error::invalid_argument("late input: tick already passed"),
            );
        }
        if full {
            return self.reject_input(world_id, Error::Capacity("input queue full".to_owned()));
        }
        if let Some(mut entry) = self.worlds.remove(key) {
            let ghost queued = views(entry.inputs@);
            entry.inputs.push_back(frame);
            assert(views(entry.inputs@) =~= queued.push(frame@));
            self.worlds.insert(key, entry);
        }
        self.metrics.inputs_accepted = count(self.metrics.inputs_accepted);
        Ok(())
    }

    // --------------------------------------------------------------- ticks

    /// The partition a world is delivered from: the least that addresses it.
    fn partition_for_world(&self, world: WorldId) -> (partition: Option<u64>)
        ensures
            partition == partition_of(self@.partitions, world.0),
    {
        let keys = self.partitions.keys();
        let mut i: usize = 0;
        while i < keys.len()
            invariant
                i <= keys@.len(),
                is_ascending(keys@),
                keys@.to_set() == self@.partitions.dom(),
                forall|j: int|
                    0 <= j < i ==> self@.partitions[#[trigger] keys@[j]].world.0 != world.0,
            decreases keys@.len() - i,
        {
            let key: u64 = keys[i];
            proof {
                assert(keys@.to_set().contains(key));
            }
            if let Some(entry) = self.partitions.get(key) {
                if entry.world == world {
                    proof {
                        assert forall|q: u64| #[trigger]
                            self@.partitions.contains_key(q) && self@.partitions[q].world.0
                                == world.0 implies key <= q by {
                            assert(keys@.to_set().contains(q));
                            let j = choose|j: int| 0 <= j < keys@.len() && keys@[j] == q;
                            if j > i {
                                assert(keys@[i as int] < keys@[j]);
                            }
                        }
                        assert(delivers_to(self@.partitions, key, world.0));
                    }
                    return Some(key);
                }
            }
            i = i + 1;
        }
        proof {
            assert forall|p: u64| !delivers_to(self@.partitions, p, world.0) by {
                if self@.partitions.contains_key(p) {
                    assert(keys@.to_set().contains(p));
                    let j = choose|j: int| 0 <= j < keys@.len() && keys@[j] == p;
                    assert(keys@[j] == p);
                }
            }
        }
        None
    }

    /// Takes what a registered world's next tick takes in: the messages
    /// deliverable to it, its next input frame (or an empty one), and its
    /// share of the queued reducer calls.
    fn take_input(&mut self, world: WorldId) -> (input: TickInput)
        requires
            old(self).wf(),
            old(self)@.worlds.contains_key(world.0),
        ensures
            final(self).wf(),
            final(self)@ == old(self)@.input_taken(world),
            input@ == old(self)@.tick_input(world),
    {
        let key: u64 = world.as_u64();
        let mut frame = InputFrame::new(TickId::from_u64(0));
        let mut calls: Vec<ReducerCall> = Vec::new();
        let mut delivered: Vec<PartitionMessage> = Vec::new();
        let partition = self.partition_for_world(world);
        let ghost before = self@.worlds[key];
        if let Some(mut entry) = self.worlds.remove(key) {
            let next_tick = entry.next_tick;
            match entry.inputs.pop_front() {
                Some(first) => {
                    frame = first;
                    assert(views(entry.inputs@) =~= before.inputs.drop_first());
                },
                None => {
                    frame = InputFrame::new(next_tick);
                },
            }
            calls = take_calls(&mut entry);
            self.worlds.insert(key, entry);
            match partition {
                Some(p) => {
                    if let Some(mut target) = self.partitions.remove(p) {
                        delivered = target.take_deliverable(next_tick.as_u64());
                        self.partitions.insert(p, target);
                    }
                },
                None => {
                    assert(views(delivered@) =~= Seq::empty());
                },
            }
        }
        self.metrics.messages_delivered = count_by(
            self.metrics.messages_delivered,
            delivered.len() as u64,
        );
        proof {
            taking_input_keeps_valid(old(self)@, world);
        }
        TickInput { world, frame, delivered, calls }
    }

    /// Takes what one running world's next tick takes in. The host runs the
    /// tick and settles it with [`Runtime::tick_once`].
    pub fn plan_tick(&mut self, world_id: WorldId) -> (input: Result<TickInput, RuntimeError>)
        requires
            old(self).wf(),
        ensures
            final(self).wf(),
            match input {
                Ok(input) => old(self)@.running() && old(self)@.ticks(world_id.0) && final(self)@
                    == old(self)@.input_taken(world_id) && input@ == old(self)@.tick_input(
                    world_id,
                ),
                Err(e) => final(self)@ == old(self)@ && e@ == match old(self)@.world_access(
                    world_id,
                ) {
                    Err(e) => e,
                    Ok(_) => RuntimeErrorView::InvalidWorldState {
                        world: world_id,
                        operation: "tick"@,
                        state: old(self)@.worlds[world_id.0].state,
                    },
                } && !(old(self)@.running() && old(self)@.ticks(world_id.0)),
            },
    {
        self.ensure_world(world_id)?;
        if let Some(entry) = self.worlds.get(world_id.as_u64()) {
            if entry.state != WorldLifecycle::Running {
                return Err(RuntimeError::world_state(world_id, "tick", entry.state));
            }
        }
        Ok(self.take_input(world_id))
    }

    /// The worlds in the order they tick: workers ascending, then each
    /// worker's worlds ascending.
    fn tick_order(&self) -> (order: Vec<u64>)
        ensures
            order@ == self@.tick_order(),
    {
        let ids = self.workers.keys();
        let mut order: Vec<u64> = Vec::new();
        let mut i: usize = 0;
        assert(ids@.take(0) =~= Seq::empty());
        while i < ids.len()
            invariant
                i <= ids@.len(),
                ids@.to_set() == self@.workers.dom(),
                order@ == worlds_of(self@.workers, ids@.take(i as int)),
            decreases ids@.len() - i,
        {
            proof {
                assert(ids@.to_set().contains(ids@[i as int]));
                assert(ids@.take(i + 1).drop_last() =~= ids@.take(i as int));
            }
            if let Some(handle) = self.workers.get(ids[i]) {
                let mut worlds = handle.worlds();
                order.append(&mut worlds);
            }
            i = i + 1;
        }
        assert(ids@.take(ids@.len() as int) =~= ids@);
        order
    }

    /// Takes what the next tick of every running world takes in, in tick
    /// order. No tick has run yet when the last input is taken, so what is
    /// delivered never depends on the order of ticks. The host runs the ticks
    /// and settles them with [`Runtime::step`].
    pub fn plan_step(&mut self) -> (inputs: Result<Vec<TickInput>, RuntimeError>)
        requires
            old(self).wf(),
        ensures
            final(self).wf(),
            match inputs {
                Ok(inputs) => old(self)@.running() && (final(self)@, views(inputs@)) == old(
                    self,
                )@.inputs_taken(old(self)@.tick_order()),
                Err(e) => !old(self)@.running() && final(self)@ == old(self)@ && e@
                    == RuntimeErrorView::Shutdown,
            },
    {
        if !self.is_running() {
            return Err(RuntimeError::Shutdown);
        }
        let order = self.tick_order();
        let mut inputs: Vec<TickInput> = Vec::new();
        let mut i: usize = 0;
        assert(order@.take(0) =~= Seq::empty());
        assert(views(inputs@) =~= Seq::empty());
        while i < order.len()
            invariant
                i <= order@.len(),
                self.wf(),
                (self@, views(inputs@)) == old(self)@.inputs_taken(order@.take(i as int)),
            decreases order@.len() - i,
        {
            let world = WorldId::from_u64(order[i]);
            assert(order@.take(i + 1).drop_last() =~= order@.take(i as int));
            let running = match self.worlds.get(order[i]) {
                Some(entry) => entry.state == WorldLifecycle::Running,
                None => false,
            };
            if running {
                let ghost taken = views(inputs@);
                let input = self.take_input(world);
                inputs.push(input);
                assert(views(inputs@) =~= taken.push(input@));
            }
            i = i + 1;
        }
        assert(order@.take(order@.len() as int) =~= order@);
        Ok(inputs)
    }

    /// Settles a failed tick.
    fn settle_failure(
        &mut self,
        input: TickInput,
        tick: TickId,
        error: &Error,
        next_tick: TickId,
        duration_ns: u64,
        run: Ghost<TickRunView>,
    )
        requires
            old(self).wf(),
            old(self)@.worlds.contains_key(input@.world.0),
            run@.input == input@,
            run@.answers.next_tick == next_tick,
            run@.answers.duration_ns == duration_ns,
        ensures
            final(self).wf(),
            final(self)@ == old(self)@.tick_failed(run@, tick, error@),
    {
        let world = input.world;
        self.metrics.ticks_total = count(self.metrics.ticks_total);
        self.metrics.ticks_failed = count(self.metrics.ticks_failed);
        self.metrics.tick_ns_total = count_by(self.metrics.tick_ns_total, duration_ns);
        self.push_event(RuntimeEvent::TickFailed { world, tick, error: error.clone() });
        if let Some(mut entry) = self.worlds.remove(world.as_u64()) {
            requeue_calls(&mut entry, input.calls);
            entry.next_tick = next_tick;
            self.worlds.insert(world.as_u64(), entry);
        }
        match self.config.tick_failure_policy() {
            TickFailurePolicy::FailWorld => {
                self.fail_world(world);
                self.push_event(RuntimeEvent::WorldFailed { world, reason: error.clone() });
            },
            TickFailurePolicy::Continue => {},
        }
    }

    /// Marks a registered world failed.
    fn fail_world(&mut self, world: WorldId)
        requires
            old(self).wf(),
            old(self)@.worlds.contains_key(world.0),
        ensures
            final(self).wf(),
            final(self)@ == old(self)@.world_failure(world),
    {
        self.set_world_state(world, WorldLifecycle::Failed);
        self.metrics.world_failures = count(self.metrics.world_failures);
    }

    /// Counts a committed tick.
    fn complete_tick(
        &mut self,
        world: WorldId,
        tick: TickId,
        next_tick: TickId,
        duration_ns: u64,
        changes: usize,
        durable: bool,
    )
        requires
            old(self).wf(),
            old(self)@.worlds.contains_key(world.0),
        ensures
            final(self).wf(),
            forall|run: TickRunView, result: TickResultView|
                run.input.world == world && run.answers.next_tick == next_tick
                    && run.answers.duration_ns == duration_ns && result.tick == tick
                    && result.changes.len() == changes && old(self)@.durable(run) == durable
                    ==> final(self)@ == #[trigger] old(self)@.tick_completed(run, result),
    {
        self.metrics.ticks_total = count(self.metrics.ticks_total);
        if durable {
            self.metrics.ticks_succeeded = count(self.metrics.ticks_succeeded);
        }
        self.metrics.tick_ns_total = count_by(self.metrics.tick_ns_total, duration_ns);
        self.metrics.changes_committed = count_by(
            self.metrics.changes_committed,
            changes as u64,
        );
        self.push_event(RuntimeEvent::TickCompleted { world, tick, duration_ns });
        if let Some(mut entry) = self.worlds.remove(world.as_u64()) {
            entry.ticks_run = count(entry.ticks_run);
            entry.next_tick = next_tick;
            self.worlds.insert(world.as_u64(), entry);
        }
    }

    /// Whether the next durable tick of a world makes a snapshot due.
    pub fn snapshot_due(&self, world_id: WorldId) -> (due: bool)
        requires
            self@.worlds.contains_key(world_id.0),
        ensures
            due == self@.snapshot_due(world_id),
    {
        match (self.config.snapshot_interval(), self.worlds.get(world_id.as_u64())) {
            (Some(interval), Some(entry)) => count(entry.ticks_since_snapshot) >= interval,
            _ => false,
        }
    }

    /// Whether a world has a log its ticks are appended to.
    pub fn is_persistent(&self, world_id: WorldId) -> (persistent: bool)
        ensures
            persistent == (self@.worlds.contains_key(world_id.0)
                && self@.worlds[world_id.0].persistent),
    {
        match self.worlds.get(world_id.as_u64()) {
            Some(entry) => entry.persistent,
            None => false,
        }
    }

    /// Records a durable tick.
    fn record_append(&mut self, world: WorldId, snapshot_written: bool)
        requires
            old(self).wf(),
            old(self)@.worlds.contains_key(world.0),
        ensures
            final(self).wf(),
            final(self)@ == old(self)@.tick_appended(world, snapshot_written),
    {
        let snapshot = self.snapshot_due(world) && snapshot_written;
        let counting = self.config.snapshot_interval().is_some();
        self.metrics.wal_appends = count(self.metrics.wal_appends);
        if snapshot {
            self.metrics.snapshots = count(self.metrics.snapshots);
        }
        if let Some(mut entry) = self.worlds.remove(world.as_u64()) {
            if snapshot {
                entry.ticks_since_snapshot = 0;
            } else if counting {
                entry.ticks_since_snapshot = count(entry.ticks_since_snapshot);
            }
            self.worlds.insert(world.as_u64(), entry);
        }
    }

    /// Settles one tick that was run. Durability comes first: the result of a
    /// world that has a log is handed on only once it was appended, and only
    /// what is handed on may be observed.
    pub fn tick_once(&mut self, run: TickRun) -> (outcome: Result<TickResult, RuntimeError>)
        requires
            old(self).wf(),
        ensures
            final(self).wf(),
            (final(self)@, settled(outcome)) == old(self)@.tick_settled(run@),
    {
        let world = run.input.world;
        if !self.is_running() {
            return Err(RuntimeError::Shutdown);
        }
        let persistent = match self.worlds.get(world.as_u64()) {
            Some(entry) => entry.persistent,
            None => {
                return Err(RuntimeError::UnknownWorld(world));
            },
        };
        let ghost whole = run@;
        let answers = run.answers;
        let result = match answers.outcome {
            Ok(result) => result,
            Err(failure) => {
                self.settle_failure(
                    run.input,
                    failure.tick,
                    &failure.error,
                    answers.next_tick,
                    answers.duration_ns,
                    Ghost(whole),
                );
                return Err(RuntimeError::Tick { world, error: failure.error });
            },
        };
        let ghost done = old(self)@.tick_completed(whole, result@);
        self.complete_tick(
            world,
            result.tick,
            answers.next_tick,
            answers.duration_ns,
            result.changes.len(),
            !persistent || answers.appended.is_ok(),
        );
        assert(self@ == done);
        if persistent {
            match answers.appended {
                Ok(_) => {
                    self.record_append(world, answers.snapshot_written);
                },
                Err(error) => {
                    self.metrics.wal_failures = count(self.metrics.wal_failures);
                    self.fail_world(world);
                    let copy = error.clone();
                    self.push_event(
                        RuntimeEvent::PersistenceFailure { world, tick: result.tick, error: copy },
                    );
                    return Err(RuntimeError::Persistence(error));
                },
            }
        }
        self.enqueue_outbound(&result.outbound);
        Ok(result)
    }

    /// Settles ticks in order. Yields the committed results and the report.
    fn settle_all(&mut self, runs: Vec<TickRun>) -> (settled: (
        Vec<(WorldId, TickResult)>,
        RuntimeStepReport,
    ))
        requires
            old(self).wf(),
        ensures
            final(self).wf(),
            final(self)@ == old(self)@.ticks_settled(views(runs@)).0,
            results_view(settled.0@) == old(self)@.committed_results(views(runs@)),
            settled.1 == old(self)@.step_report(views(runs@)),
    {
        let ghost all = views(runs@);
        let mut results: Vec<(WorldId, TickResult)> = Vec::new();
        let mut report = RuntimeStepReport {
            worlds: 0,
            ticks: 0,
            succeeded: 0,
            failed: 0,
            wal_appends: 0,
            duration_ns: 0,
        };
        assert(all.take(0) =~= Seq::empty());
        assert(results_view(results@) =~= Seq::empty());
        let total: usize = runs.len();
        for run in it: runs
            invariant
                self.wf(),
                total == it.seq().len(),
                all == views(it.seq()),
                self@ == old(self)@.ticks_settled(all.take(it.index() as int)).0,
                results_view(results@) == old(self)@.committed_results(
                    all.take(it.index() as int),
                ),
                report == old(self)@.step_report(all.take(it.index() as int)),
                report.worlds == it.index(),
                report.ticks == it.index(),
                report.succeeded + report.failed == it.index(),
                report.wal_appends <= report.succeeded,
        {
            let ghost n = it.index() as int;
            proof {
                assert(all.take(n + 1).drop_last() =~= all.take(n));
                assert(all.take(n + 1).last() == run@);
            }
            let world = run.input.world;
            let persistent = self.is_persistent(world);
            let ghost earlier = results_view(results@);
            report.worlds = report.worlds + 1;
            report.ticks = report.ticks + 1;
            match self.tick_once(run) {
                Ok(result) => {
                    report.succeeded = report.succeeded + 1;
                    if persistent {
                        report.wal_appends = report.wal_appends + 1;
                    }
                    results.push((world, result));
                    assert(results_view(results@) =~= earlier.push((world, result@)));
                },
                Err(_) => {
                    report.failed = report.failed + 1;
                },
            }
        }
        assert(all.take(all.len() as int) =~= all);
        (results, report)
    }

    /// Settles the ticks of one step in order. Per-world failures are
    /// recorded and follow the failure policy without affecting other worlds.
    pub fn step(&mut self, runs: Vec<TickRun>, duration_ns: u64) -> (report: Result<
        RuntimeStepReport,
        RuntimeError,
    >)
        requires
            old(self).wf(),
        ensures
            final(self).wf(),
            match report {
                Ok(report) => old(self)@.running() && final(self)@ == old(self)@.ticks_settled(
                    views(runs@),
                ).0 && report == (RuntimeStepReport {
                    duration_ns,
                    ..old(self)@.step_report(views(runs@))
                }),
                Err(e) => !old(self)@.running() && final(self)@ == old(self)@ && e@
                    == RuntimeErrorView::Shutdown,
            },
    {
        if !self.is_running() {
            return Err(RuntimeError::Shutdown);
        }
        let (_, mut report) = self.settle_all(runs);
        report.duration_ns = duration_ns;
        Ok(report)
    }

    /// Settles the ticks of one step in order and yields each committed
    /// result with its world. Failures are recorded as in [`Runtime::step`]
    /// and are not among the results.
    pub fn step_detailed(&mut self, runs: Vec<TickRun>) -> (results: Result<
        Vec<(WorldId, TickResult)>,
        RuntimeError,
    >)
        requires
            old(self).wf(),
        ensures
            final(self).wf(),
            match results {
                Ok(results) => old(self)@.running() && final(self)@ == old(self)@.ticks_settled(
                    views(runs@),
                ).0 && results_view(results@) == old(self)@.committed_results(views(runs@)),
                Err(e) => !old(self)@.running() && final(self)@ == old(self)@ && e@
                    == RuntimeErrorView::Shutdown,
            },
    {
        if !self.is_running() {
            return Err(RuntimeError::Shutdown);
        }
        let (results, _) = self.settle_all(runs);
        Ok(results)
    }

    // ------------------------------------------------------- subscriptions

    /// Records a subscription that the world's registry answered.
    pub fn subscribe(&mut self, world_id: WorldId, answer: Result<SubscriptionId, Error>) -> (outcome:
        Result<SubscriptionId, RuntimeError>)
        requires
            old(self).wf(),
        ensures
            final(self).wf(),
            (final(self)@, answered(outcome)) == old(self)@.subscribed(
                world_id,
                answer_view(answer),
            ),
    {
        self.ensure_world(world_id)?;
        match answer {
            Err(error) => Err(RuntimeError::Core(error)),
            Ok(subscription) => {
                if let Some(mut entry) = self.worlds.remove(world_id.as_u64()) {
                    entry.subscriptions.insert(subscription.as_u64());
                    self.worlds.insert(world_id.as_u64(), entry);
                }
                Ok(subscription)
            },
        }
    }

    /// Records the end of a subscription that the world's registry answered.
    pub fn unsubscribe(
        &mut self,
        world_id: WorldId,
        subscription: SubscriptionId,
        answer: Result<(), Error>,
    ) -> (outcome: Result<(), RuntimeError>)
        requires
            old(self).wf(),
        ensures
            final(self).wf(),
            (final(self)@, answered(outcome)) == old(self)@.unsubscribed(
                world_id,
                subscription,
                answer_view(answer),
            ),
    {
        self.ensure_world(world_id)?;
        match answer {
            Err(error) => Err(RuntimeError::Core(error)),
            Ok(_) => {
                if let Some(mut entry) = self.worlds.remove(world_id.as_u64()) {
                    entry.subscriptions.remove(subscription.as_u64());
                    self.worlds.insert(world_id.as_u64(), entry);
                }
                Ok(())
            },
        }
    }

    /// Whether a world's registry may be asked; if not, the error.
    pub fn check_world(&self, world_id: WorldId) -> (verdict: Result<(), RuntimeError>)
        ensures
            answered(verdict) == self@.world_access(world_id),
    {
        self.ensure_world(world_id)
    }

    /// The pending updates of a subscription, as the world's registry
    /// answered.
    pub fn drain(
        &self,
        world_id: WorldId,
        answer: Result<Vec<SubscriptionUpdate>, Error>,
    ) -> (outcome: Result<Vec<SubscriptionUpdate>, RuntimeError>)
        ensures
            answered(outcome) == self@.observed(world_id, answer_view(answer)),
    {
        self.ensure_world(world_id)?;
        match answer {
            Ok(updates) => Ok(updates),
            Err(error) => Err(RuntimeError::Core(error)),
        }
    }

    /// Whether a subscription's view was regenerated, as the world's registry
    /// answered.
    pub fn resync(&self, world_id: WorldId, answer: Result<(), Error>) -> (outcome: Result<
        (),
        RuntimeError,
    >)
        ensures
            answered(outcome) == self@.observed(world_id, answer_view(answer)),
    {
        self.ensure_world(world_id)?;
        match answer {
            Ok(_) => Ok(()),
            Err(error) => Err(RuntimeError::Core(error)),
        }
    }

    /// Whether a subscription is stale, as the world's registry answered.
    /// Asked of a stopped runtime too.
    pub fn is_stale(&self, world_id: WorldId, answer: Result<bool, Error>) -> (outcome: Result<
        bool,
        RuntimeError,
    >)
        ensures
            answered(outcome) == if !self@.worlds.contains_key(world_id.0) {
                Err(RuntimeErrorView::UnknownWorld(world_id))
            } else {
                match answer_view(answer) {
                    Ok(stale) => Ok(stale),
                    Err(error) => Err(RuntimeErrorView::Core(error)),
                }
            },
    {
        if !self.worlds.contains(world_id.as_u64()) {
            return Err(RuntimeError::UnknownWorld(world_id));
        }
        match answer {
            Ok(stale) => Ok(stale),
            Err(error) => Err(RuntimeError::Core(error)),
        }
    }

    // ---------------------------------------------------- events & metrics

    /// Takes every buffered event in order, clearing the log.
    pub fn drain_events(&mut self) -> (events: Vec<RuntimeEvent>)
        requires
            old(self).wf(),
        ensures
            final(self).wf(),
            views(events@) == old(self)@.events,
            final(self)@ == (RuntimeView { events: Seq::empty(), ..old(self)@ }),
    {
        self.events.drain()
    }

    /// The number of buffered events.
    pub fn event_count(&self) -> (count: usize)
        ensures
            count == self@.events.len(),
    {
        self.events.len()
    }

    /// A metrics snapshot: the counters, and the gauges as they stand.
    pub fn metrics(&self, uptime_ns: u64) -> (metrics: RuntimeMetrics)
        requires
            self.wf(),
        ensures
            metrics == (RuntimeMetrics {
                workers: self@.config.worker_count,
                worlds: self@.worlds.len() as usize,
                running_worlds: self@.running_worlds().len() as usize,
                subscriptions: self@.subscription_total(ascending(self@.worlds.dom())),
                partitions: self@.partitions.len() as usize,
                uptime_ns,
                ..self@.metrics
            }),
            self@.running_worlds().finite(),
    {
        let keys = self.worlds.keys();
        let mut running: usize = 0;
        let mut subscriptions: usize = 0;
        let ghost mut seen = Set::<u64>::empty();
        let mut i: usize = 0;
        assert(keys@.take(0) =~= Seq::empty());
        while i < keys.len()
            invariant
                i <= keys@.len(),
                is_ascending(keys@),
                keys@.to_set() == self@.worlds.dom(),
                seen.finite(),
                running == seen.len(),
                running <= i,
                forall|w: u64| #[trigger]
                    seen.contains(w) <==> self@.ticks(w) && exists|j: int|
                        0 <= j < i && keys@[j] == w,
                subscriptions == self@.subscription_total(keys@.take(i as int)),
            decreases keys@.len() - i,
        {
            let key: u64 = keys[i];
            proof {
                assert(keys@.to_set().contains(key));
                assert(keys@.take(i + 1).drop_last() =~= keys@.take(i as int));
                if seen.contains(key) {
                    let j = choose|j: int| 0 <= j < i && keys@[j] == key;
                    assert(keys@[j] < keys@[i as int]);
                }
            }
            if let Some(entry) = self.worlds.get(key) {
                if entry.state == WorldLifecycle::Running {
                    running = running + 1;
                    proof {
                        seen = seen.insert(key);
                    }
                }
                subscriptions = subscriptions.wrapping_add(entry.subscriptions.len());
            }
            i = i + 1;
            proof {
                assert forall|w: u64| #[trigger] seen.contains(w) <==> self@.ticks(w) && exists|
                    j: int,
                |
                    0 <= j < i && keys@[j] == w by {
                    if w == key {
                        assert(keys@[i - 1] == w);
                    }
                }
            }
        }
        proof {
            assert(keys@.take(keys@.len() as int) =~= keys@);
            assert forall|w: u64| seen.contains(w) == self@.running_worlds().contains(w) by {
                if self@.ticks(w) {
                    assert(keys@.to_set().contains(w));
                    assert(exists|j: int| 0 <= j < keys@.len() && keys@[j] == w);
                }
            }
            assert(seen =~= self@.running_worlds());
        }
        let mut metrics = self.metrics;
        metrics.workers = self.config.worker_count();
        metrics.worlds = self.worlds.len();
        metrics.running_worlds = running;
        metrics.subscriptions = subscriptions;
        metrics.partitions = self.partitions.len();
        metrics.uptime_ns = uptime_ns;
        metrics
    }

    // ------------------------------------------------------------ shutdown

    /// Shuts the runtime down. `failures` names the worlds whose log could
    /// not be flushed. Running worlds stop, workers stop, and every later
    /// operation is refused; the last flush failure is reported. No effect on
    /// a stopped runtime.
    pub fn shutdown(&mut self, failures: Vec<FlushFailure>) -> (outcome: Result<(), RuntimeError>)
        requires
            old(self).wf(),
        ensures
            final(self).wf(),
            (final(self)@, answered(outcome)) == old(self)@.shut_down(views(failures@)),
    {
        if self.state == RuntimeState::Stopped {
            return Ok(());
        }
        self.state = RuntimeState::Stopping;
        let ghost stopping = self@;
        let keys = self.worlds.keys();
        let mut flush_error: Option<RuntimeError> = None;
        let mut i: usize = 0;
        assert(keys@.take(0) =~= Seq::empty());
        while i < keys.len()
            invariant
                i <= keys@.len(),
                keys@.to_set() == self@.worlds.dom(),
                self.wf(),
                self@ == stopping.worlds_halted(keys@.take(i as int), views(failures@)),
                (match flush_error {
                    Some(e) => Some(e@),
                    None => None,
                }) == stopping.last_flush_error(keys@.take(i as int), views(failures@)),
                forall|w: u64| #[trigger]
                    self@.worlds.contains_key(w) ==> self@.worlds[w].persistent
                        == stopping.worlds[w].persistent,
                stopping.worlds.dom() == self@.worlds.dom(),
            decreases keys@.len() - i,
        {
            let world = WorldId::from_u64(keys[i]);
            proof {
                assert(keys@.to_set().contains(keys@[i as int]));
                assert(keys@.take(i + 1).drop_last() =~= keys@.take(i as int));
            }
            let failure = self.halt_world(world, &failures);
            if let Some(error) = failure {
                flush_error = Some(RuntimeError::Persistence(error));
            }
            assert(self@.worlds.dom() =~= stopping.worlds.dom());
            i = i + 1;
        }
        assert(keys@.take(keys@.len() as int) =~= keys@);
        self.stop_workers();
        proof {
            shutdown_stops_everything(old(self)@, views(failures@));
            assert(self@.at_rest()) by {
                let after = old(self)@.shut_down(views(failures@)).0;
                assert(after.worlds == self@.worlds && after.workers == self@.workers);
            }
        }
        self.state = RuntimeState::Stopped;
        self.push_event(RuntimeEvent::Shutdown);
        match flush_error {
            Some(error) => Err(error),
            None => Ok(()),
        }
    }

    /// Records a world's flush failure, if any, and stops the world.
    fn halt_world(&mut self, world: WorldId, failures: &Vec<FlushFailure>) -> (failure: Option<Error>)
        requires
            old(self).wf(),
            old(self)@.worlds.contains_key(world.0),
        ensures
            final(self).wf(),
            final(self)@ == old(self)@.world_halted(world, views(failures@)),
            opt_view(failure) == old(self)@.flush_failure(world, views(failures@)),
            final(self)@.worlds.dom() == old(self)@.worlds.dom(),
            forall|w: u64| #[trigger]
                final(self)@.worlds.contains_key(w) ==> final(self)@.worlds[w].persistent == old(
                    self,
                )@.worlds[w].persistent,
    {
        let mut failure: Option<Error> = None;
        let mut tick = TickId::from_u64(0);
        let mut running = false;
        if let Some(entry) = self.worlds.get(world.as_u64()) {
            tick = entry.next_tick;
            running = entry.state == WorldLifecycle::Running;
            if entry.persistent {
                failure = find_failure(failures, world);
            }
        }
        if let Some(error) = &failure {
            self.push_event(
                RuntimeEvent::PersistenceFailure { world, tick, error: error.clone() },
            );
        }
        if running {
            self.set_world_state(world, WorldLifecycle::Stopped);
        }
        assert(self@.worlds.dom() =~= old(self)@.worlds.dom());
        failure
    }

    /// Stops every worker.
    fn stop_workers(&mut self)
        requires
            old(self).wf(),
        ensures
            final(self).wf(),
            final(self)@ == (RuntimeView {
                workers: RuntimeView::workers_halted(old(self)@.workers),
                ..old(self)@
            }),
    {
        let keys = self.workers.keys();
        let ghost before = self.workers@;
        let ghost halted = RuntimeView::workers_halted(before);
        let mut i: usize = 0;
        while i < keys.len()
            invariant
                i <= keys@.len(),
                is_ascending(keys@),
                keys@.to_set() == before.dom(),
                halted == RuntimeView::workers_halted(before),
                self.workers@.dom() == before.dom(),
                forall|j: int|
                    0 <= j < keys@.len() ==> self.workers@[#[trigger] keys@[j]] == if j < i {
                        halted[keys@[j]]
                    } else {
                        before[keys@[j]]
                    },
                (*self)@ == (RuntimeView { workers: self.workers@, ..old(self)@ }),
                self.log_sized() == old(self).log_sized(),
            decreases keys@.len() - i,
        {
            let key: u64 = keys[i];
            proof {
                assert(keys@.to_set().contains(key));
                assert(before.contains_key(key));
            }
            if let Some(mut handle) = self.workers.remove(key) {
                handle.set_state(WorkerState::Stopped);
                self.workers.insert(key, handle);
            }
            assert(self.workers@.dom() =~= before.dom());
            i = i + 1;
        }
        proof {
            assert forall|k: u64| before.contains_key(k) implies self.workers@[k] == halted[k] by {
                assert(keys@.to_set().contains(k));
                let j = choose|j: int| 0 <= j < keys@.len() && keys@[j] == k;
                assert(keys@[j] == k);
            }
            assert(self.workers@ =~= halted);
            assert(self@.ownership_consistent()) by {
                assert forall|k: u64, w: u64|
                    #![trigger self@.workers[k].worlds.contains(w)]
                    self@.workers.contains_key(k) && self@.workers[k].worlds.contains(
                        w,
                    ) implies self@.worlds.contains_key(w) && self@.worlds[w].worker.0 == k by {
                    assert(before[k].worlds.contains(w));
                }
            }
        }
    }
}

/// The content of committed results.
pub open spec fn results_view(results: Seq<(WorldId, TickResult)>) -> Seq<
    (WorldId, TickResultView),
> {
    Seq::new(results.len(), |i: int| (results[i].0, results[i].1@))
}

/// The first flush failure of a world.
fn find_failure(failures: &Vec<FlushFailure>, world: WorldId) -> (failure: Option<Error>)
    ensures
        opt_view(failure) == failure_of(views(failures@), world),
{
    let ghost all = views(failures@);
    let mut i: usize = 0;
    assert(all.skip(0) =~= all);
    while i < failures.len()
        invariant
            i <= failures@.len(),
            all == views(failures@),
            failure_of(all, world) == failure_of(all.skip(i as int), world),
        decreases failures@.len() - i,
    {
        assert(all.skip(i as int).drop_first() =~= all.skip(i + 1));
        if failures[i].world == world {
            return Some(failures[i].error.clone());
        }
        i = i + 1;
    }
    None
}


/// The content of a settled tick.
pub open spec fn settled(outcome: Result<TickResult, RuntimeError>) -> Result<
    TickResultView,
    RuntimeErrorView,
> {
    match outcome {
        Ok(result) => Ok(result@),
        Err(e) => Err(e@),
    }
}

/// Takes a world's share of its queued calls, oldest first.
fn take_calls(entry: &mut WorldEntry) -> (calls: Vec<ReducerCall>)
    ensures
        views(calls@) == old(entry)@.calls.take(call_share(old(entry)@)),
        final(entry)@ == (WorldView {
            calls: old(entry)@.calls.skip(call_share(old(entry)@)),
            ..old(entry)@
        }),
{
    let share: usize = if entry.calls.len() < entry.calls_per_tick {
        entry.calls.len()
    } else {
        entry.calls_per_tick
    };
    let ghost all = entry@.calls;
    let mut calls: Vec<ReducerCall> = Vec::new();
    assert(views(calls@) =~= all.take(0));
    assert(entry@.calls =~= all.skip(0));
    while calls.len() < share
        invariant
            calls@.len() <= share <= all.len(),
            views(calls@) == all.take(calls@.len() as int),
            entry@ == (WorldView { calls: all.skip(calls@.len() as int), ..old(entry)@ }),
        decreases share - calls@.len(),
    {
        let ghost taken = views(calls@);
        let ghost n = calls@.len() as int;
        let ghost left = views(entry.calls@);
        match entry.calls.pop_front() {
            Some(call) => {
                calls.push(call);
                assert(views(calls@) =~= taken.push(call@));
                assert(call@ == left[0]);
                assert(left[0] == all[n]);
                assert(taken.push(call@) =~= all.take(n + 1));
                assert(views(entry.calls@) =~= left.drop_first());
                assert(left.drop_first() =~= all.skip(n + 1));
            },
            None => {
                assert(left.len() == 0);
            },
        }
    }
    calls
}

/// Puts calls back in front of a world's queue, in order.
fn requeue_calls(entry: &mut WorldEntry, calls: Vec<ReducerCall>)
    ensures
        final(entry)@ == (WorldView {
            calls: views(calls@) + old(entry)@.calls,
            ..old(entry)@
        }),
{
    let mut left = calls;
    let ghost whole = views(calls@) + entry@.calls;
    while left.len() > 0
        invariant
            views(left@) + entry@.calls == whole,
            entry@ == (WorldView { calls: entry@.calls, ..old(entry)@ }),
        decreases left@.len(),
    {
        let ghost before = views(left@);
        let ghost queued = entry@.calls;
        if let Some(call) = left.pop() {
            entry.calls.push_front(call);
            assert(before =~= views(left@).push(call@));
            assert(views(entry.calls@) =~= seq![call@] + queued);
            assert(views(left@) + (seq![call@] + queued) =~= before + queued);
        }
    }
    assert(views(left@) + entry@.calls =~= entry@.calls);
}


fn build_failure(before: &str, world: WorldId, error: &Error) -> (text: String)
    ensures
        text@ == build_failure_text(before@, world, error@),
{
    let mut text = with_number(before, world.as_u64(), ": ");
    let tail = error.to_text();
    text.append(tail.as_str());
    text
}

} // verus!
