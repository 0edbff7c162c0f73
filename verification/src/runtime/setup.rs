//! What came of setting a world up: building it, opening its log, replaying
//! its history.

use vstd::prelude::*;
use vstd::string::*;

use crate::base::error::{Error, ErrorView};
use crate::base::ids::{TickId, WorkerId, WorldId};
use crate::base::text::{decimal, join, number};
use crate::runtime::error::RuntimeErrorView;
use crate::runtime::event::RuntimeEventView;
use crate::runtime::metrics::{counted, RuntimeMetrics};
use crate::runtime::model::RuntimeView;
use crate::runtime::world::WorldView;

verus! {

/// A world that was built, or why it could not be.
#[derive(Debug)]
pub struct WorldSetup {
    /// Whether the world could be built.
    pub built: Result<(), Error>,
    /// The first tick the world will execute.
    pub next_tick: TickId,
    /// The most reducer calls one tick of the world runs.
    pub calls_per_tick: usize,
}

/// The mathematical content of a [`WorldSetup`].
pub struct WorldSetupView {
    pub built: Result<(), ErrorView>,
    pub next_tick: TickId,
    pub calls_per_tick: usize,
}

/// The content of an outcome.
pub open spec fn done_view(outcome: Result<(), Error>) -> Result<(), ErrorView> {
    match outcome {
        Ok(done) => Ok(done),
        Err(error) => Err(error@),
    }
}

impl View for WorldSetup {
    type V = WorldSetupView;

    open spec fn view(&self) -> WorldSetupView {
        WorldSetupView {
            built: done_view(self.built),
            next_tick: self.next_tick,
            calls_per_tick: self.calls_per_tick,
        }
    }
}

/// What came of creating a world's log. Read only when persistence is
/// enabled.
#[derive(Debug)]
pub struct LogSetup {
    /// Whether the world's directory could be made.
    pub dir_ready: Result<(), String>,
    /// Whether the world had a log already.
    pub log_exists: bool,
    /// Whether the log could be created.
    pub log_created: Result<(), Error>,
}

/// The mathematical content of a [`LogSetup`].
pub struct LogSetupView {
    pub dir_ready: Result<(), Seq<char>>,
    pub log_exists: bool,
    pub log_created: Result<(), ErrorView>,
}

impl View for LogSetup {
    type V = LogSetupView;

    open spec fn view(&self) -> LogSetupView {
        LogSetupView {
            dir_ready: match self.dir_ready {
                Ok(done) => Ok(done),
                Err(reason) => Err(reason@),
            },
            log_exists: self.log_exists,
            log_created: done_view(self.log_created),
        }
    }
}

/// What came of recovering a world from its log.
#[derive(Debug)]
pub struct RecoverySetup {
    /// Whether the world has a log.
    pub log_exists: bool,
    /// Whether the log could be opened.
    pub log_opened: Result<(), Error>,
    /// Whether a snapshot was found, or why the search failed.
    pub snapshot_found: Result<bool, Error>,
    /// How many transactions were replayed, or why replay failed.
    pub replayed: Result<usize, Error>,
    /// The world that was built.
    pub world: WorldSetup,
    /// The tick to continue at, if not the world's own.
    pub resume_tick: Option<TickId>,
}

/// The mathematical content of a [`RecoverySetup`].
pub struct RecoverySetupView {
    pub log_exists: bool,
    pub log_opened: Result<(), ErrorView>,
    pub snapshot_found: Result<bool, ErrorView>,
    pub replayed: Result<usize, ErrorView>,
    pub world: WorldSetupView,
    pub resume_tick: Option<TickId>,
}

impl View for RecoverySetup {
    type V = RecoverySetupView;

    open spec fn view(&self) -> RecoverySetupView {
        RecoverySetupView {
            log_exists: self.log_exists,
            log_opened: done_view(self.log_opened),
            snapshot_found: match self.snapshot_found {
                Ok(found) => Ok(found),
                Err(error) => Err(error@),
            },
            replayed: match self.replayed {
                Ok(count) => Ok(count),
                Err(error) => Err(error@),
            },
            world: self.world@,
            resume_tick: self.resume_tick,
        }
    }
}

/// The directory of a world under a persistence directory.
pub open spec fn world_dir_text(dir: Seq<char>, world: WorldId) -> Seq<char> {
    dir + "/world_"@ + decimal(world.0 as nat)
}

/// The directory of a world's snapshots.
pub open spec fn snapshot_dir_text(dir: Seq<char>, world: WorldId) -> Seq<char> {
    world_dir_text(dir, world) + "/snapshots"@
}

/// The path of a world's log.
pub open spec fn log_path_text(dir: Seq<char>, world: WorldId) -> Seq<char> {
    world_dir_text(dir, world) + "/log.wal"@
}

/// The directory of a world under a persistence directory.
pub fn world_dir(dir: &str, world: WorldId) -> (path: String)
    ensures
        path@ == world_dir_text(dir@, world),
{
    let mut path = join(dir, "/world_");
    let digits = number(world.as_u64());
    path.append(digits.as_str());
    path
}

/// The directory of a world's snapshots.
pub fn snapshot_dir(dir: &str, world: WorldId) -> (path: String)
    ensures
        path@ == snapshot_dir_text(dir@, world),
{
    let mut path = world_dir(dir, world);
    path.append("/snapshots");
    path
}

/// The path of a world's log.
pub fn log_path(dir: &str, world: WorldId) -> (path: String)
    ensures
        path@ == log_path_text(dir@, world),
{
    let mut path = world_dir(dir, world);
    path.append("/log.wal");
    path
}

/// The message of a world that could not be built.
pub open spec fn build_failure_text(
    before: Seq<char>,
    world: WorldId,
    error: ErrorView,
) -> Seq<char> {
    before + decimal(world.0 as nat) + ": "@ + error.text()
}

/// The message of a worker shortage.
pub open spec fn no_worker_text() -> Seq<char> {
    "no running worker available to own a world"@
}

/// What creating a world's log gives: whether the world has one. A log that
/// exists already is never overwritten.
pub open spec fn log_opened(dir: Option<Seq<char>>, enabled: bool, world: WorldId, log: LogSetupView) -> Result<
    bool,
    RuntimeErrorView,
> {
    if dir is None || !enabled {
        Ok(false)
    } else {
        match log.dir_ready {
            Err(reason) => Err(
                RuntimeErrorView::Persistence(
                    ErrorView::Internal(
                        "cannot create world directory '"@ + snapshot_dir_text(dir->0, world)
                            + "': "@ + reason,
                    ),
                ),
            ),
            Ok(_) => if log.log_exists {
                Err(
                    RuntimeErrorView::Persistence(
                        ErrorView::AlreadyExists(
                            "world "@ + decimal(world.0 as nat) + " already has a WAL at '"@
                                + log_path_text(dir->0, world)
                                + "'; use recover_world instead of create_world"@,
                        ),
                    ),
                )
            } else {
                match log.log_created {
                    Err(error) => Err(RuntimeErrorView::Persistence(error)),
                    Ok(_) => Ok(true),
                }
            },
        }
    }
}

/// What replaying and building give, in the order the snapshot dictates: with
/// a snapshot the history is replayed first, without one the world is built
/// first. The first failure is reported.
pub open spec fn recovery_replayed(world: WorldId, has_snapshot: bool, setup: RecoverySetupView) -> Result<
    usize,
    RuntimeErrorView,
> {
    let replay: Result<usize, RuntimeErrorView> = match setup.replayed {
        Ok(count) => Ok(count),
        Err(error) => Err(RuntimeErrorView::Persistence(error)),
    };
    match setup.world.built {
        Ok(_) => replay,
        Err(error) => if has_snapshot && replay is Err {
            replay
        } else {
            Err(
                RuntimeErrorView::Internal(
                    build_failure_text("world factory failed for recovered world "@, world, error),
                ),
            )
        },
    }
}

impl RuntimeView {
    /// The runtime after a worker was picked.
    pub open spec fn worker_assigned(self) -> RuntimeView {
        RuntimeView { assign_counter: counted(self.assign_counter), ..self }
    }

    /// Creating a world: it goes to the next running worker in round-robin
    /// order and waits to be started.
    pub open spec fn world_created(self, world: WorldId, setup: WorldSetupView, log: LogSetupView) -> (
        RuntimeView,
        Result<(), RuntimeErrorView>,
    ) {
        if !self.running() {
            (self, Err(RuntimeErrorView::Shutdown))
        } else if self.worlds.contains_key(world.0) {
            (self, Err(RuntimeErrorView::DuplicateWorld(world)))
        } else {
            match (setup.built, self.next_worker()) {
                (Err(error), _) => (
                    self,
                    Err(
                        RuntimeErrorView::Internal(
                            build_failure_text("world factory failed for world "@, world, error),
                        ),
                    ),
                ),
                (_, None) => (self, Err(RuntimeErrorView::Internal(no_worker_text()))),
                (Ok(_), Some(worker)) => {
                    let assigned = self.worker_assigned();
                    match log_opened(
                        self.config.persistence_dir,
                        self.config.persistence.enabled(),
                        world,
                        log,
                    ) {
                        Err(e) => (assigned, Err(e)),
                        Ok(persistent) => {
                            let entry = WorldView::fresh(
                                WorkerId(worker),
                                setup.next_tick,
                                setup.calls_per_tick,
                                persistent,
                            );
                            let next = RuntimeView {
                                metrics: RuntimeMetrics {
                                    world_creations: counted(self.metrics.world_creations),
                                    ..self.metrics
                                },
                                ..assigned.with_owned_world(worker, world, entry)
                            };
                            (
                                next.with_event(
                                    RuntimeEventView::WorldCreated {
                                        world,
                                        worker: WorkerId(worker),
                                    },
                                ),
                                Ok(()),
                            )
                        },
                    }
                },
            }
        }
    }

    /// Whether a world can be recovered; if not, the error.
    pub open spec fn recovery_access(self, world: WorldId, setup: RecoverySetupView) -> Result<
        usize,
        RuntimeErrorView,
    > {
        if !self.running() {
            Err(RuntimeErrorView::Shutdown)
        } else if self.worlds.contains_key(world.0) {
            Err(RuntimeErrorView::DuplicateWorld(world))
        } else if !self.config.persistence.enabled() {
            Err(
                RuntimeErrorView::Persistence(
                    ErrorView::Unsupported(
                        "cannot recover a world when persistence is disabled"@,
                    ),
                ),
            )
        } else if !setup.log_exists {
            Err(
                RuntimeErrorView::Persistence(
                    ErrorView::NotFound(
                        "no WAL exists for world "@ + decimal(world.0 as nat) + " at '"@
                            + log_path_text(self.config.persistence_dir->0, world) + "'"@,
                    ),
                ),
            )
        } else {
            match (setup.log_opened, setup.snapshot_found) {
                (Err(error), _) => Err(RuntimeErrorView::Persistence(error)),
                (_, Err(error)) => Err(RuntimeErrorView::Persistence(error)),
                (Ok(_), Ok(has_snapshot)) => recovery_replayed(world, has_snapshot, setup),
            }
        }
    }

    /// Recovering a world from its log: it goes to the next running worker in
    /// round-robin order, has a log, and waits to be started.
    pub open spec fn world_recovered(self, world: WorldId, setup: RecoverySetupView) -> (
        RuntimeView,
        Result<usize, RuntimeErrorView>,
    ) {
        match (self.recovery_access(world, setup), self.next_worker()) {
            (Err(e), _) => (self, Err(e)),
            (_, None) => (self, Err(RuntimeErrorView::Internal(no_worker_text()))),
            (Ok(replayed_txs), Some(worker)) => {
                let entry = WorldView::fresh(
                    WorkerId(worker),
                    match setup.resume_tick {
                        Some(tick) => tick,
                        None => setup.world.next_tick,
                    },
                    setup.world.calls_per_tick,
                    true,
                );
                let next = RuntimeView {
                    metrics: RuntimeMetrics {
                        recoveries: counted(self.metrics.recoveries),
                        world_creations: counted(self.metrics.world_creations),
                        ..self.metrics
                    },
                    ..self.worker_assigned().with_owned_world(worker, world, entry)
                };
                (
                    next.with_event(RuntimeEventView::WorldRecovered { world, replayed_txs }),
                    Ok(replayed_txs),
                )
            },
        }
    }

    /// Recording a snapshot that was tried.
    pub open spec fn world_snapshotted(self, world: WorldId, written: Result<(), ErrorView>) -> (
        RuntimeView,
        Result<(), RuntimeErrorView>,
    ) {
        match self.world_access(world) {
            Err(e) => (self, Err(e)),
            Ok(_) => if !self.worlds[world.0].persistent {
                (
                    self,
                    Err(
                        RuntimeErrorView::Persistence(
                            ErrorView::Unsupported("snapshots require persistence to be enabled"@),
                        ),
                    ),
                )
            } else {
                match written {
                    Err(error) => (
                        self,
                        Err(
                            RuntimeErrorView::Persistence(
                                ErrorView::Internal(
                                    build_failure_text("snapshot failed for world "@, world, error),
                                ),
                            ),
                        ),
                    ),
                    Ok(_) => (
                        RuntimeView {
                            metrics: RuntimeMetrics {
                                snapshots: counted(self.metrics.snapshots),
                                ..self.metrics
                            },
                            ..self
                        },
                        Ok(()),
                    ),
                }
            },
        }
    }
}

} // verus!
