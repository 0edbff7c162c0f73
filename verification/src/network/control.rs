//! The control plane: a typed, operator-facing facade over the runtime.
//!
//! World lifecycle, recovery, status, metrics, health, worker reassignment
//! and shutdown. It is separate from the realtime client protocol: player
//! messages and operator messages never mix.

use vstd::prelude::*;

use crate::base::ids::{WorkerId, WorldId};
use crate::base::input::InputFrame;
use crate::base::message::TickResult;
use crate::base::table::{ascending, is_ascending, tally, tally_counts};
use crate::base::value::views;
use crate::runtime::coordinator::{answered, settled, Runtime};
use crate::runtime::error::{RuntimeError, RuntimeErrorView};
use crate::runtime::metrics::RuntimeMetrics;
use crate::runtime::model::{RuntimeState, RuntimeView};
use crate::runtime::operations::{subscriptions_are_totalled, subscriptions_on};
use crate::runtime::report::{FlushFailure, RuntimeStepReport};
use crate::runtime::setup::{LogSetup, RecoverySetup, WorldSetup};
use crate::runtime::tick::TickRun;
use crate::runtime::worker::{WorkerState, WorkerStatus};
use crate::runtime::world::{WorldLifecycle, WorldStatus};

verus! {

/// A point-in-time health summary for operators.
#[derive(Clone, Copy, Debug, PartialEq, Eq, Structural)]
pub struct HealthReport {
    /// The runtime lifecycle state.
    pub state: RuntimeState,
    /// Worlds registered (any lifecycle).
    pub worlds: usize,
    /// Worlds currently running.
    pub running_partitions: usize,
    /// Configured workers.
    pub workers: usize,
    /// Workers currently running.
    pub workers_running: usize,
    /// Active subscriptions across worlds.
    pub subscriptions: usize,
    /// Runtime uptime in nanoseconds.
    pub uptime_ns: u64,
}

/// A typed, operator-facing facade over a runtime. Every method maps one to
/// one onto the runtime's: the control plane adds no state and no second
/// commit path.
pub struct ControlPlane<'a> {
    /// The runtime under control.
    pub runtime: &'a mut Runtime,
}

impl<'a> View for ControlPlane<'a> {
    type V = RuntimeView;

    open spec fn view(&self) -> RuntimeView {
        self.runtime@
    }
}

impl RuntimeView {
    /// The workers that run.
    pub open spec fn running_workers(self) -> Set<u64> {
        Set::new(
            |w: u64|
                self.workers.contains_key(w) && self.workers[w].state == WorkerState::Running,
        )
    }

    /// A health summary.
    pub open spec fn health(self, uptime_ns: u64) -> HealthReport {
        HealthReport {
            state: self.state,
            worlds: self.worlds.len() as usize,
            running_partitions: self.running_worlds().len() as usize,
            workers: self.config.worker_count,
            workers_running: self.running_workers().len() as usize,
            subscriptions: self.subscription_total(ascending(self.worlds.dom())),
            uptime_ns,
        }
    }
}

impl<'a> ControlPlane<'a> {
    /// What every operation keeps.
    pub open spec fn wf(&self) -> bool {
        self.runtime.wf()
    }

    /// The control plane of a runtime, whose later state is what the control
    /// plane leaves.
    pub fn new(runtime: &'a mut Runtime) -> (plane: Self)
        requires
            old(runtime).wf(),
        ensures
            plane.wf(),
            plane@ == old(runtime)@,
            *final(plane.runtime) == *final(runtime),
    {
        ControlPlane { runtime }
    }

    /// Creates a world, assigned to a worker deterministically.
    pub fn create_partition(&mut self, world: WorldId, setup: WorldSetup, log: LogSetup) -> (outcome:
        Result<(), RuntimeError>)
        requires
            old(self).wf(),
        ensures
            final(self).wf(),
            *final(final(self).runtime) == *final(old(self).runtime),
            (final(self)@, answered(outcome)) == old(self)@.world_created(world, setup@, log@),
    {
        self.runtime.create_world(world, setup, log)
    }

    /// Reconstructs a world from persisted state.
    pub fn recover_partition(&mut self, world: WorldId, setup: RecoverySetup) -> (outcome: Result<
        usize,
        RuntimeError,
    >)
        requires
            old(self).wf(),
        ensures
            final(self).wf(),
            *final(final(self).runtime) == *final(old(self).runtime),
            (final(self)@, answered(outcome)) == old(self)@.world_recovered(world, setup@),
    {
        self.runtime.recover_world(world, setup)
    }

    /// Starts a created or stopped world.
    pub fn start_partition(&mut self, world: WorldId) -> (outcome: Result<(), RuntimeError>)
        requires
            old(self).wf(),
        ensures
            final(self).wf(),
            *final(final(self).runtime) == *final(old(self).runtime),
            (final(self)@, answered(outcome)) == old(self)@.world_started(world),
    {
        self.runtime.start_world(world)
    }

    /// Stops a running world; its state is retained.
    pub fn stop_partition(&mut self, world: WorldId) -> (outcome: Result<(), RuntimeError>)
        requires
            old(self).wf(),
        ensures
            final(self).wf(),
            *final(final(self).runtime) == *final(old(self).runtime),
            (final(self)@, answered(outcome)) == old(self)@.world_stopped(world),
    {
        self.runtime.stop_world(world)
    }

    /// Removes a world from the runtime.
    pub fn destroy_partition(&mut self, world: WorldId) -> (outcome: Result<(), RuntimeError>)
        requires
            old(self).wf(),
        ensures
            final(self).wf(),
            *final(final(self).runtime) == *final(old(self).runtime),
            (final(self)@, answered(outcome)) == old(self)@.world_destroyed(world),
    {
        self.runtime.destroy_world(world)
    }

    /// A world's status.
    pub fn partition_status(&self, world: WorldId) -> (status: Result<WorldStatus, RuntimeError>)
        ensures
            answered(status) == if self@.worlds.contains_key(world.0) {
                Ok::<WorldStatus, RuntimeErrorView>(self@.worlds[world.0].status(world))
            } else {
                Err(RuntimeErrorView::UnknownWorld(world))
            },
    {
        self.runtime.world_status(world)
    }

    /// Every world's status in ascending order of world ids.
    pub fn list_partitions(&self) -> (list: Vec<(WorldId, WorldStatus)>)
        ensures
            list@.len() == ascending(self@.worlds.dom()).len(),
            forall|i: int|
                0 <= i < list@.len() ==> (#[trigger] list@[i]).0.0 == ascending(
                    self@.worlds.dom(),
                )[i] && list@[i].1 == self@.worlds[list@[i].0.0].status(list@[i].0),
    {
        self.runtime.list_worlds()
    }

    /// A worker's status.
    pub fn worker_status(&self, worker: WorkerId) -> (status: Result<WorkerStatus, RuntimeError>)
        requires
            self.wf(),
        ensures
            match status {
                Ok(s) => self@.workers.contains_key(worker.0) && s.id == worker && s.state
                    == self@.workers[worker.0].state && s.worlds@ == ascending(
                    self@.workers[worker.0].worlds,
                ),
                Err(e) => !self@.workers.contains_key(worker.0) && e@
                    == RuntimeErrorView::UnknownWorker(worker),
            },
    {
        self.runtime.worker_status(worker)
    }

    /// The configured worker ids.
    pub fn workers(&self) -> (ids: Vec<u64>)
        ensures
            ids@ == ascending(self@.workers.dom()),
    {
        self.runtime.workers()
    }

    /// Marks a worker failed; its worlds become recoverable.
    pub fn fail_worker(&mut self, worker: WorkerId) -> (outcome: Result<(), RuntimeError>)
        requires
            old(self).wf(),
        ensures
            final(self).wf(),
            *final(final(self).runtime) == *final(old(self).runtime),
            (final(self)@, answered(outcome)) == old(self)@.worker_failed(worker),
    {
        self.runtime.fail_worker(worker)
    }

    /// Reassigns a world to another running worker.
    pub fn reassign_partition(&mut self, world: WorldId, to: WorkerId) -> (outcome: Result<
        (),
        RuntimeError,
    >)
        requires
            old(self).wf(),
        ensures
            final(self).wf(),
            *final(final(self).runtime) == *final(old(self).runtime),
            (final(self)@, answered(outcome)) == old(self)@.world_reassigned(world, to),
    {
        self.runtime.reassign_world(world, to)
    }

    /// Queues an input frame for a running world.
    pub fn submit_input(&mut self, world: WorldId, frame: InputFrame) -> (outcome: Result<
        (),
        RuntimeError,
    >)
        requires
            old(self).wf(),
        ensures
            final(self).wf(),
            *final(final(self).runtime) == *final(old(self).runtime),
            (final(self)@, answered(outcome)) == old(self)@.input_submitted(world, frame@),
    {
        self.runtime.submit_input(world, frame)
    }

    /// Advances one running world by one tick, given how the tick ran.
    pub fn tick_once(&mut self, run: TickRun) -> (outcome: Result<TickResult, RuntimeError>)
        requires
            old(self).wf(),
        ensures
            final(self).wf(),
            *final(final(self).runtime) == *final(old(self).runtime),
            (final(self)@, settled(outcome)) == old(self)@.tick_settled(run@),
    {
        self.runtime.tick_once(run)
    }

    /// Advances every running world by one tick, given how the ticks ran.
    pub fn step(&mut self, runs: Vec<TickRun>, duration_ns: u64) -> (report: Result<
        RuntimeStepReport,
        RuntimeError,
    >)
        requires
            old(self).wf(),
        ensures
            final(self).wf(),
            *final(final(self).runtime) == *final(old(self).runtime),
            match report {
                Ok(report) => old(self)@.running() && final(self)@ == old(self)@.ticks_settled(
                    views(runs@),
                ).0 && report == (RuntimeStepReport {
                    duration_ns,
                    ..old(self)@.step_report(views(runs@))
                }),
                Err(e) => !old(self)@.running() && final(self)@ == old(self)@ && e@
                    == RuntimeErrorView::Shutdown,
            },
    {
        self.runtime.step(runs, duration_ns)
    }

    /// A metrics snapshot.
    pub fn metrics(&self, uptime_ns: u64) -> (metrics: RuntimeMetrics)
        requires
            self.wf(),
        ensures
            metrics == (RuntimeMetrics {
                workers: self@.config.worker_count,
                worlds: self@.worlds.len() as usize,
                running_worlds: self@.running_worlds().len() as usize,
                subscriptions: self@.subscription_total(ascending(self@.worlds.dom())),
                partitions: self@.partitions.len() as usize,
                uptime_ns,
                ..self@.metrics
            }),
            self@.running_worlds().finite(),
    {
        self.runtime.metrics(uptime_ns)
    }

    /// A health summary.
    pub fn health(&self, uptime_ns: u64) -> (report: HealthReport)
        requires
            self.wf(),
        ensures
            report == self@.health(uptime_ns),
            self@.running_workers().finite(),
    {
        let metrics = self.runtime.metrics(uptime_ns);
        let ids = self.runtime.workers();
        let ghost runs = |w: u64| self@.workers[w].state == WorkerState::Running;
        let mut workers_running: usize = 0;
        let mut i: usize = 0;
        assert(ids@.take(0) =~= Seq::empty());
        while i < ids.len()
            invariant
                i <= ids@.len(),
                self.wf(),
                is_ascending(ids@),
                ids@.to_set() == self@.workers.dom(),
                runs == (|w: u64| self@.workers[w].state == WorkerState::Running),
                workers_running == tally(ids@.take(i as int), runs) <= i,
            decreases ids@.len() - i,
        {
            proof {
                assert(ids@.take(i + 1).drop_last() =~= ids@.take(i as int));
                assert(ids@.to_set().contains(ids@[i as int]));
            }
            if let Ok(status) = self.runtime.worker_status(WorkerId::from_u64(ids[i])) {
                if status.state == WorkerState::Running {
                    workers_running = workers_running + 1;
                }
            }
            i = i + 1;
        }
        proof {
            assert(ids@.take(ids@.len() as int) =~= ids@);
            assert forall|w: u64| ids@.contains(w) == self@.workers.contains_key(w) by {
                assert(ids@.to_set().contains(w) == self@.workers.dom().contains(w));
            }
            tally_counts(ids@, runs);
            assert(self@.running_workers() =~= Set::new(|w: u64| ids@.contains(w) && runs(w)));
        }
        HealthReport {
            state: self.runtime.state(),
            worlds: metrics.worlds,
            running_partitions: metrics.running_worlds,
            workers: metrics.workers,
            workers_running,
            subscriptions: metrics.subscriptions,
            uptime_ns: metrics.uptime_ns,
        }
    }

    /// Shuts the runtime down. No effect on a stopped runtime.
    pub fn shutdown(&mut self, failures: Vec<FlushFailure>) -> (outcome: Result<(), RuntimeError>)
        requires
            old(self).wf(),
        ensures
            final(self).wf(),
            *final(final(self).runtime) == *final(old(self).runtime),
            (final(self)@, answered(outcome)) == old(self)@.shut_down(views(failures@)),
    {
        self.runtime.shutdown(failures)
    }
}

/// A health summary counts the worlds and the workers that are registered, and
/// apart from them those whose state is running; the total of subscriptions goes
/// over every world.
pub proof fn health_counts_what_runs(runtime: RuntimeView, uptime_ns: u64)
    requires
        runtime.valid(),
        runtime.worlds.len() <= usize::MAX,
    ensures
        ({
            let report = runtime.health(uptime_ns);
            let worlds = Set::new(
                |w: u64|
                    runtime.worlds.contains_key(w) && runtime.worlds[w].state
                        == WorldLifecycle::Running,
            );
            let workers = Set::new(
                |k: u64|
                    runtime.workers.contains_key(k) && runtime.workers[k].state
                        == WorkerState::Running,
            );
            &&& report.state == runtime.state
            &&& report.worlds == runtime.worlds.len()
            &&& report.running_partitions == worlds.len()
            &&& report.workers == runtime.config.worker_count
            &&& report.workers_running == workers.len() as usize
            &&& report.uptime_ns == uptime_ns
            &&& subscriptions_on(runtime, ascending(runtime.worlds.dom())) <= usize::MAX
                ==> report.subscriptions == subscriptions_on(
                runtime,
                ascending(runtime.worlds.dom()),
            )
        }),
{
    let worlds = Set::new(
        |w: u64|
            runtime.worlds.contains_key(w) && runtime.worlds[w].state == WorldLifecycle::Running,
    );
    assert(worlds =~= runtime.running_worlds());
    assert(worlds.subset_of(runtime.worlds.dom()));
    vstd::set_lib::lemma_len_subset(worlds, runtime.worlds.dom());
    let order = ascending(runtime.worlds.dom());
    if subscriptions_on(runtime, order) <= usize::MAX {
        subscriptions_are_totalled(runtime, order);
    }
}

} // verus!
