//! The reports of steps, subscriptions and shutdown, as transitions of the
//! runtime model.

use vstd::prelude::*;

use crate::base::error::{Error, ErrorView};
use crate::base::ids::{SubscriptionId, WorldId};
use crate::base::message::TickResultView;
use crate::base::table::ascending;
use crate::runtime::error::RuntimeErrorView;
use crate::runtime::event::RuntimeEventView;
use crate::runtime::model::{RuntimeState, RuntimeView};
use crate::runtime::tick::TickRunView;
use crate::runtime::worker::{WorkerState, WorkerView};
use crate::runtime::world::{WorldLifecycle, WorldView};

verus! {

/// The report of one step.
#[derive(Clone, Copy, Debug, PartialEq, Eq, Structural)]
pub struct RuntimeStepReport {
    /// Worlds that were running at the start of the step.
    pub worlds: usize,
    /// Tick attempts.
    pub ticks: u64,
    /// Successful ticks (committed, and durable where the world has a log).
    pub succeeded: u64,
    /// Failed ticks.
    pub failed: u64,
    /// Log appends performed.
    pub wal_appends: u64,
    /// Total step wall time in nanoseconds.
    pub duration_ns: u64,
}

/// A world whose log could not be flushed.
#[derive(Debug)]
pub struct FlushFailure {
    /// The world.
    pub world: WorldId,
    /// The reason.
    pub error: Error,
}

/// The mathematical content of a [`FlushFailure`].
pub struct FlushFailureView {
    pub world: WorldId,
    pub error: ErrorView,
}

impl View for FlushFailure {
    type V = FlushFailureView;

    open spec fn view(&self) -> FlushFailureView {
        FlushFailureView { world: self.world, error: self.error@ }
    }
}

/// The first failure of a world in a list.
pub open spec fn failure_of(failures: Seq<FlushFailureView>, world: WorldId) -> Option<ErrorView>
    decreases failures.len(),
{
    if failures.len() == 0 {
        None
    } else if failures[0].world == world {
        Some(failures[0].error)
    } else {
        failure_of(failures.drop_first(), world)
    }
}

/// The sum of two counts, modulo the range of a machine word.
pub open spec fn wrapped_sum(a: usize, b: usize) -> usize {
    if a + b > usize::MAX {
        (a + b - usize::MAX - 1) as usize
    } else {
        (a + b) as usize
    }
}

/// The content of a registry's answer.
pub open spec fn answer_view<T>(answer: Result<T, Error>) -> Result<T, ErrorView> {
    match answer {
        Ok(x) => Ok(x),
        Err(error) => Err(error@),
    }
}

impl RuntimeView {
    // --------------------------------------------------------------- steps

    /// The committed results of ticks settled in order, with their worlds.
    pub open spec fn committed_results(self, runs: Seq<TickRunView>) -> Seq<
        (WorldId, TickResultView),
    >
        decreases runs.len(),
    {
        if runs.len() == 0 {
            Seq::empty()
        } else {
            let earlier = self.committed_results(runs.drop_last());
            match self.ticks_settled(runs.drop_last()).0.tick_settled(runs.last()).1 {
                Ok(result) => earlier.push((runs.last().input.world, result)),
                Err(_) => earlier,
            }
        }
    }

    /// The report of ticks settled in order: one world and one attempt per
    /// tick, split into successes and failures, and an append per success of
    /// a world that has a log.
    pub open spec fn step_report(self, runs: Seq<TickRunView>) -> RuntimeStepReport
        decreases runs.len(),
    {
        if runs.len() == 0 {
            RuntimeStepReport {
                worlds: 0,
                ticks: 0,
                succeeded: 0,
                failed: 0,
                wal_appends: 0,
                duration_ns: 0,
            }
        } else {
            let earlier = self.step_report(runs.drop_last());
            let before = self.ticks_settled(runs.drop_last()).0;
            let world = runs.last().input.world.0;
            let ok = before.tick_settled(runs.last()).1 is Ok;
            RuntimeStepReport {
                worlds: (earlier.worlds + 1) as usize,
                ticks: (earlier.ticks + 1) as u64,
                succeeded: if ok {
                    (earlier.succeeded + 1) as u64
                } else {
                    earlier.succeeded
                },
                failed: if ok {
                    earlier.failed
                } else {
                    (earlier.failed + 1) as u64
                },
                wal_appends: if ok && before.worlds[world].persistent {
                    (earlier.wal_appends + 1) as u64
                } else {
                    earlier.wal_appends
                },
                duration_ns: 0,
            }
        }
    }

    // ------------------------------------------------------- subscriptions

    /// What a world's registry answered, if it may be asked.
    pub open spec fn observed<T>(self, world: WorldId, answer: Result<T, ErrorView>) -> Result<
        T,
        RuntimeErrorView,
    > {
        match (self.world_access(world), answer) {
            (Err(e), _) => Err(e),
            (_, Err(error)) => Err(RuntimeErrorView::Core(error)),
            (_, Ok(x)) => Ok(x),
        }
    }

    /// Recording a subscription.
    pub open spec fn subscribed(
        self,
        world: WorldId,
        answer: Result<SubscriptionId, ErrorView>,
    ) -> (RuntimeView, Result<SubscriptionId, RuntimeErrorView>) {
        match self.observed(world, answer) {
            Err(e) => (self, Err(e)),
            Ok(subscription) => {
                let entry = self.worlds[world.0];
                (
                    self.with_world(
                        world,
                        WorldView {
                            subscriptions: entry.subscriptions.insert(subscription.0),
                            ..entry
                        },
                    ),
                    Ok(subscription),
                )
            },
        }
    }

    /// Recording the end of a subscription.
    pub open spec fn unsubscribed(
        self,
        world: WorldId,
        subscription: SubscriptionId,
        answer: Result<(), ErrorView>,
    ) -> (RuntimeView, Result<(), RuntimeErrorView>) {
        match self.observed(world, answer) {
            Err(e) => (self, Err(e)),
            Ok(_) => {
                let entry = self.worlds[world.0];
                (
                    self.with_world(
                        world,
                        WorldView {
                            subscriptions: entry.subscriptions.remove(subscription.0),
                            ..entry
                        },
                    ),
                    Ok(()),
                )
            },
        }
    }

    // ------------------------------------------------------------- metrics

    /// The running worlds.
    pub open spec fn running_worlds(self) -> Set<u64> {
        Set::new(|w: u64| self.ticks(w))
    }

    /// The number of subscriptions of several worlds, modulo the range of a
    /// machine word.
    pub open spec fn subscription_total(self, worlds: Seq<u64>) -> usize
        decreases worlds.len(),
    {
        if worlds.len() == 0 {
            0
        } else {
            wrapped_sum(
                self.subscription_total(worlds.drop_last()),
                self.worlds[worlds.last()].subscriptions.len() as usize,
            )
        }
    }

    // ------------------------------------------------------------ shutdown

    /// The flush failure of a world, if it has a log and the flush failed.
    pub open spec fn flush_failure(self, world: WorldId, failures: Seq<FlushFailureView>) -> Option<
        ErrorView,
    > {
        if self.worlds[world.0].persistent {
            failure_of(failures, world)
        } else {
            None
        }
    }

    /// The runtime after a world's flush was recorded and the world stopped.
    pub open spec fn world_halted(self, world: WorldId, failures: Seq<FlushFailureView>) -> RuntimeView {
        let entry = self.worlds[world.0];
        let recorded = match self.flush_failure(world, failures) {
            Some(error) => self.with_event(
                RuntimeEventView::PersistenceFailure { world, tick: entry.next_tick, error },
            ),
            None => self,
        };
        if entry.state == WorldLifecycle::Running {
            recorded.with_world(world, WorldView { state: WorldLifecycle::Stopped, ..entry })
        } else {
            recorded
        }
    }

    /// The runtime after several worlds stopped, in order.
    pub open spec fn worlds_halted(self, worlds: Seq<u64>, failures: Seq<FlushFailureView>) -> RuntimeView
        decreases worlds.len(),
    {
        if worlds.len() == 0 {
            self
        } else {
            self.worlds_halted(worlds.drop_last(), failures).world_halted(
                WorldId(worlds.last()),
                failures,
            )
        }
    }

    /// The flush failure of the last of several worlds that has one.
    pub open spec fn last_flush_error(self, worlds: Seq<u64>, failures: Seq<FlushFailureView>) -> Option<
        RuntimeErrorView,
    >
        decreases worlds.len(),
    {
        if worlds.len() == 0 {
            None
        } else {
            match self.flush_failure(WorldId(worlds.last()), failures) {
                Some(error) => Some(RuntimeErrorView::Persistence(error)),
                None => self.last_flush_error(worlds.drop_last(), failures),
            }
        }
    }

    /// The workers, stopped.
    pub open spec fn workers_halted(workers: Map<u64, WorkerView>) -> Map<u64, WorkerView> {
        Map::new(
            |k: u64| workers.contains_key(k),
            |k: u64| WorkerView { state: WorkerState::Stopped, ..workers[k] },
        )
    }

    /// Shutting down: every world's flush is recorded, running worlds and all
    /// workers stop, and the last flush failure is reported. A stopped
    /// runtime stays as it is.
    pub open spec fn shut_down(self, failures: Seq<FlushFailureView>) -> (
        RuntimeView,
        Result<(), RuntimeErrorView>,
    ) {
        if self.state == RuntimeState::Stopped {
            (self, Ok(()))
        } else {
            let stopping = RuntimeView { state: RuntimeState::Stopping, ..self };
            let order = ascending(self.worlds.dom());
            let halted = stopping.worlds_halted(order, failures);
            (
                RuntimeView {
                    state: RuntimeState::Stopped,
                    workers: Self::workers_halted(halted.workers),
                    ..halted
                }.with_event(RuntimeEventView::Shutdown),
                match stopping.last_flush_error(order, failures) {
                    Some(e) => Err(e),
                    None => Ok(()),
                },
            )
        }
    }
}

} // verus!
