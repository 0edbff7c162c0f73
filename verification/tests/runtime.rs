//! The runtime, driven by a host that runs toy worlds in memory.

use std::collections::BTreeMap;

use nexum::base::change::{Change, DeliveredRow};
use nexum::base::error::Error;
use nexum::base::ids::{
    PartitionId, RowId, SubscriptionId, TableId, TickId, TransactionId, Version, WorkerId, WorldId,
};
use nexum::base::input::{InputCommand, InputFrame};
use nexum::base::message::{CallResult, PartitionMessage, ReducerCall, TickResult};
use nexum::base::subscription::SubscriptionUpdate;
use nexum::base::value::{Row, Value};
use nexum::reducer::args::ReducerArgs;
use nexum::reducer::event::ReducerEvent;
use nexum::runtime::config::{PersistencePolicy, RuntimeConfig, TickFailurePolicy};
use nexum::runtime::coordinator::Runtime;
use nexum::runtime::error::RuntimeError;
use nexum::runtime::event::RuntimeEvent;
use nexum::runtime::model::RuntimeState;
use nexum::runtime::report::{FlushFailure, RuntimeStepReport};
use nexum::runtime::setup::{LogSetup, RecoverySetup, WorldSetup};
use nexum::runtime::tick::{next_after_tick, AfterTick, TickAnswers, TickError, TickInput, TickRun};
use nexum::runtime::worker::WorkerState;
use nexum::runtime::world::WorldLifecycle;

// ------------------------------------------------------------- toy worlds

/// What the worlds of a host do in a tick.
#[derive(Clone, Copy, PartialEq)]
enum Behaviour {
    /// One row per tick.
    Writer,
    /// One row per tick; world 1 then fails.
    Failing,
    /// One row per spawn command.
    Consumer,
    /// One row on every other tick.
    EveryOther,
    /// The echo reducer and nothing else.
    Echo,
    /// The echo reducer; tick 0 fails.
    Flaky,
    /// A message to the next partition (0 to 1, 1 to 2, else to 0) per tick,
    /// recorded by its receiver.
    Ring,
    /// World 0 messages partition 1.
    OneWay,
    /// Everyone messages partition 1, which refuses; it messages partition 0.
    Rejecting,
    /// World 0 sends three messages to partition 1.
    ThreeSenders,
}

struct Subscriber {
    id: u64,
    pending: Vec<SubscriptionUpdate>,
}

struct ToyWorld {
    next_tick: u64,
    rows: Vec<Vec<Value>>,
    commits: u64,
    subscribers: Vec<Subscriber>,
    next_subscriber: u64,
}

/// A tick's provisional work.
struct Draft {
    rows: Vec<Vec<Value>>,
    events: Vec<ReducerEvent>,
    outbound: Vec<PartitionMessage>,
    results: Vec<CallResult>,
}

fn copy_row(row: &[Value]) -> Vec<Value> {
    row.iter().map(|v| v.clone()).collect()
}

impl ToyWorld {
    fn new() -> ToyWorld {
        ToyWorld {
            next_tick: 0,
            rows: Vec::new(),
            commits: 0,
            subscribers: Vec::new(),
            next_subscriber: 0,
        }
    }

    fn delivered(&self, index: usize) -> DeliveredRow {
        DeliveredRow::new(
            RowId::from_u64(index as u64),
            Row::new(copy_row(&self.rows[index])),
        )
    }

    fn subscribe(&mut self) -> SubscriptionId {
        let id = self.next_subscriber;
        self.next_subscriber += 1;
        let rows = (0..self.rows.len()).map(|i| self.delivered(i)).collect();
        self.subscribers.push(Subscriber {
            id,
            pending: vec![SubscriptionUpdate::Initial { seq: self.commits, rows }],
        });
        SubscriptionId::from_u64(id)
    }

    fn drain(&mut self, id: SubscriptionId) -> Result<Vec<SubscriptionUpdate>, Error> {
        for subscriber in &mut self.subscribers {
            if subscriber.id == id.as_u64() {
                return Ok(std::mem::take(&mut subscriber.pending));
            }
        }
        Err(Error::not_found("subscription"))
    }
}

fn send(
    world: u64,
    tick: u64,
    known: &[u64],
    draft: &mut Draft,
    to: u64,
    kind: &str,
    payload: ReducerArgs,
) -> Result<(), Error> {
    if !known.contains(&to) {
        return Err(Error::not_found("partition"));
    }
    let seq = draft.outbound.len() as u64;
    draft.outbound.push(
        PartitionMessage::new(
            PartitionId::from_u64(world),
            PartitionId::from_u64(to),
            TickId::from_u64(tick),
            seq,
            kind,
            payload,
        )?,
    );
    Ok(())
}

fn handle(behaviour: Behaviour, world: u64, message: &PartitionMessage, draft: &mut Draft) -> Result<(), Error> {
    let args = message.payload();
    match behaviour {
        Behaviour::Ring => {
            let seq = args.require_u64("seq")?;
            let from = args.require_u64("from")?;
            let to = args.require_u64("to")?;
            draft.rows.push(vec![Value::U64(seq), Value::U64(from), Value::U64(to), Value::I64(10)]);
            draft.events.push(ReducerEvent::new("transfer", Value::I64(10)));
            Ok(())
        }
        Behaviour::OneWay => {
            let amount = args.require_i64("amount")?;
            let to = args.require_u64("to")?;
            let from = args.require_u64("from")?;
            let seq = args.require_u64("seq")?;
            draft.rows.push(vec![
                Value::U64(seq),
                Value::U64(from),
                Value::U64(to),
                Value::I64(amount),
            ]);
            Ok(())
        }
        Behaviour::Rejecting => {
            if world == 1 {
                return Err(Error::invalid_argument("handler rejected the message"));
            }
            draft.rows.push(vec![Value::U64(args.require_u64("seq")?)]);
            Ok(())
        }
        Behaviour::ThreeSenders => {
            let seq = args.require_u64("seq")?;
            let from = args.require_u64("from")?;
            let kind = args.require_str("kind")?.to_owned();
            draft.rows.push(vec![
                Value::U64(seq),
                Value::U64(from),
                Value::U64(1),
                Value::I64(seq as i64),
            ]);
            draft.events.push(ReducerEvent::new("recorded", Value::String(kind)));
            Ok(())
        }
        _ => Err(Error::not_found("handler")),
    }
}

fn player(id: u64) -> Vec<Value> {
    vec![Value::U64(id), Value::U64(10), Value::I32(100)]
}

fn work(
    behaviour: Behaviour,
    world: u64,
    tick: u64,
    known: &[u64],
    input: &TickInput,
    draft: &mut Draft,
) -> Result<(), Error> {
    for message in &input.delivered {
        handle(behaviour, world, message, draft)?;
    }
    for call in &input.calls {
        draft.results.push(run_call(behaviour, call));
    }
    match behaviour {
        Behaviour::Writer => draft.rows.push(player(tick)),
        Behaviour::Failing => {
            draft.rows.push(player(tick));
            if world == 1 {
                return Err(Error::invalid_argument("boom"));
            }
        }
        Behaviour::Consumer => {
            for command in &input.frame.commands {
                if command.kind() == "spawn" {
                    let id = command.payload().as_ref().and_then(Value::as_u64).unwrap();
                    draft.rows.push(player(id));
                }
            }
        }
        Behaviour::EveryOther => {
            if tick % 2 == 0 {
                draft.rows.push(player(tick));
            }
        }
        Behaviour::Echo => {}
        Behaviour::Flaky => {
            if tick == 0 {
                return Err(Error::invalid_argument("first tick fails"));
            }
            draft.rows.push(player(tick));
        }
        Behaviour::Ring => {
            let to = match world {
                0 => 1,
                1 => 2,
                _ => 0,
            };
            let args = ReducerArgs::new()
                .insert("seq", Value::U64(tick))
                .insert("from", Value::U64(world))
                .insert("to", Value::U64(to));
            send(world, tick, known, draft, to, "ring", args)?;
        }
        Behaviour::OneWay => {
            if world == 0 {
                let args = ReducerArgs::new()
                    .insert("amount", Value::I64(10))
                    .insert("to", Value::U64(1))
                    .insert("from", Value::U64(world))
                    .insert("seq", Value::U64(tick));
                send(world, tick, known, draft, 1, "transfer", args)?;
            }
        }
        Behaviour::Rejecting => {
            let to = if world == 1 { 0 } else { 1 };
            let args = ReducerArgs::new()
                .insert("amount", Value::I64(1))
                .insert("to", Value::U64(to))
                .insert("from", Value::U64(world))
                .insert("seq", Value::U64(tick));
            send(world, tick, known, draft, to, "transfer", args)?;
        }
        Behaviour::ThreeSenders => {
            if world == 0 {
                for i in 0..3u64 {
                    let args = ReducerArgs::new()
                        .insert("from", Value::U64(world))
                        .insert("seq", Value::U64(tick * 10 + i))
                        .insert("kind", Value::String(format!("k{i}")));
                    send(world, tick, known, draft, 1, "record", args)?;
                }
            }
        }
    }
    Ok(())
}

fn run_call(behaviour: Behaviour, call: &ReducerCall) -> CallResult {
    let known = behaviour == Behaviour::Echo || behaviour == Behaviour::Flaky;
    let outcome = if known && call.reducer() == "echo" {
        Ok(match call.args().get("v") {
            Some(value) => value.clone(),
            None => Value::U64(0),
        })
    } else {
        Err(Error::not_found("reducer"))
    };
    CallResult { request_id: call.request_id(), outcome }
}

/// Runs worlds and hands the runtime what came of it.
struct Host {
    runtime: Runtime,
    behaviour: Behaviour,
    worlds: BTreeMap<u64, ToyWorld>,
}

fn world_id(id: u64) -> WorldId {
    WorldId::from_u64(id)
}

fn partition_id(id: u64) -> PartitionId {
    PartitionId::from_u64(id)
}

fn worker_id(id: u64) -> WorkerId {
    WorkerId::from_u64(id)
}

fn built(calls_per_tick: usize) -> WorldSetup {
    WorldSetup { built: Ok(()), next_tick: TickId::from_u64(0), calls_per_tick }
}

fn no_log() -> LogSetup {
    LogSetup { dir_ready: Ok(()), log_exists: false, log_created: Ok(()) }
}

impl Host {
    fn with_config(config: RuntimeConfig, behaviour: Behaviour) -> Host {
        Host { runtime: Runtime::new(config).unwrap(), behaviour, worlds: BTreeMap::new() }
    }

    fn new(behaviour: Behaviour) -> Host {
        Host::with_config(RuntimeConfig::new(), behaviour)
    }

    fn create(&mut self, id: u64) {
        self.create_with(id, 256);
    }

    fn create_with(&mut self, id: u64, calls_per_tick: usize) {
        self.runtime.create_world(world_id(id), built(calls_per_tick), no_log()).unwrap();
        self.worlds.insert(id, ToyWorld::new());
    }

    fn start(&mut self, ids: &[u64]) {
        for id in ids {
            self.create(*id);
            self.runtime.start_world(world_id(*id)).unwrap();
        }
    }

    fn start_partition(&mut self, id: u64) {
        self.create(id);
        self.runtime.register_partition(partition_id(id), world_id(id)).unwrap();
        self.runtime.start_world(world_id(id)).unwrap();
    }

    /// Runs one planned tick.
    fn run(&mut self, input: TickInput) -> TickRun {
        let id = input.world.as_u64();
        let known = self.runtime.known_partitions(input.world).unwrap();
        let world = self.worlds.get_mut(&id).unwrap();
        let tick = world.next_tick;
        let mut draft = Draft {
            rows: Vec::new(),
            events: Vec::new(),
            outbound: Vec::new(),
            results: Vec::new(),
        };
        let outcome = if input.frame.tick.as_u64() != tick {
            // The world refuses the frame before logical time is consumed.
            Err(Error::invalid_argument("frame is not for this tick"))
        } else {
            world.next_tick += 1;
            work(self.behaviour, id, tick, &known, &input, &mut draft)
        };
        let outcome = match outcome {
            Err(error) => Err(TickError { tick: TickId::from_u64(tick), error }),
            Ok(()) => {
                let mut changes = Vec::new();
                for row in draft.rows {
                    let row_id = RowId::from_u64(world.rows.len() as u64);
                    changes.push(Change::insert(
                        TableId::from_u64(0),
                        row_id,
                        Row::new(copy_row(&row)),
                        Version::from_u64(1),
                    ));
                    world.rows.push(row);
                    let index = world.rows.len() - 1;
                    for s in 0..world.subscribers.len() {
                        let update = SubscriptionUpdate::Insert {
                            seq: world.commits,
                            row: world.delivered(index),
                        };
                        world.subscribers[s].pending.push(update);
                    }
                }
                // A tick that changes nothing is not told to the registry.
                if changes.len() > 0 {
                    world.commits += 1;
                }
                Ok(TickResult {
                    tick: TickId::from_u64(tick),
                    tx_id: TransactionId::from_u64(tick + 1),
                    changes,
                    events: draft.events,
                    outbound: draft.outbound,
                    reducer_results: draft.results,
                })
            }
        };
        let next_tick = TickId::from_u64(world.next_tick);
        TickRun {
            input,
            answers: TickAnswers {
                outcome,
                next_tick,
                duration_ns: 7,
                appended: Ok(()),
                snapshot_written: true,
            },
        }
    }

    fn plan(&mut self) -> Result<Vec<TickRun>, RuntimeError> {
        let inputs = self.runtime.plan_step()?;
        let mut runs = Vec::new();
        for input in inputs {
            runs.push(self.run(input));
        }
        Ok(runs)
    }

    fn step(&mut self) -> Result<RuntimeStepReport, RuntimeError> {
        let runs = self.plan()?;
        self.runtime.step(runs, 1)
    }

    fn step_detailed(&mut self) -> Result<Vec<(WorldId, TickResult)>, RuntimeError> {
        let runs = self.plan()?;
        self.runtime.step_detailed(runs)
    }

    fn tick_once(&mut self, id: u64) -> Result<TickResult, RuntimeError> {
        let input = self.runtime.plan_tick(world_id(id))?;
        let run = self.run(input);
        self.runtime.tick_once(run)
    }

    fn subscribe(&mut self, id: u64) -> SubscriptionId {
        let subscription = self.worlds.get_mut(&id).unwrap().subscribe();
        self.runtime.subscribe(world_id(id), Ok(subscription)).unwrap()
    }

    fn drain(&mut self, id: u64, subscription: SubscriptionId) -> Vec<SubscriptionUpdate> {
        let answer = self.worlds.get_mut(&id).unwrap().drain(subscription);
        self.runtime.drain(world_id(id), answer).unwrap()
    }

    fn initial_rows(&mut self, id: u64) -> Vec<DeliveredRow> {
        let subscription = self.subscribe(id);
        let mut updates = self.drain(id, subscription);
        match updates.remove(0) {
            SubscriptionUpdate::Initial { rows, .. } => rows,
            other => panic!("expected Initial, got {other:?}"),
        }
    }

    fn state(&self, id: u64) -> WorldLifecycle {
        self.runtime.world_status(world_id(id)).unwrap().state
    }

    fn next_tick(&self, id: u64) -> u64 {
        self.runtime.world_status(world_id(id)).unwrap().next_tick.as_u64()
    }

    fn call(&mut self, id: u64, request_id: u64, args: ReducerArgs) -> Result<(), RuntimeError> {
        self.runtime.submit_reducer_call(world_id(id), request_id, "echo", args)
    }
}

fn result_ids(results: &[(WorldId, TickResult)]) -> Vec<u64> {
    results[0].1.reducer_results.iter().map(|r| r.request_id).collect()
}

fn no_args() -> ReducerArgs {
    ReducerArgs::new()
}

fn frame(tick: u64) -> InputFrame {
    InputFrame::new(TickId::from_u64(tick))
}

// -------------------------------------------------------------- lifecycle

#[test]
fn world_lifecycle_transitions() {
    let mut host = Host::new(Behaviour::Writer);
    let world = world_id(0);
    host.create(0);

    assert_eq!(host.state(0), WorldLifecycle::Created);
    host.runtime.start_world(world).unwrap();
    assert_eq!(host.state(0), WorldLifecycle::Running);
    host.runtime.stop_world(world).unwrap();
    assert_eq!(host.state(0), WorldLifecycle::Stopped);
    // Restart continues logical time.
    host.runtime.start_world(world).unwrap();
    assert_eq!(host.state(0), WorldLifecycle::Running);

    // Idempotent start/stop.
    host.runtime.start_world(world).unwrap();
    host.runtime.stop_world(world).unwrap();
    host.runtime.stop_world(world).unwrap();
}

#[test]
fn duplicate_and_unknown_worlds() {
    let mut host = Host::new(Behaviour::Writer);
    let world = world_id(0);
    host.create(0);
    assert!(matches!(
        host.runtime.create_world(world, built(256), no_log()),
        Err(RuntimeError::DuplicateWorld(_))
    ));
    assert!(matches!(
        host.runtime.world_status(world_id(9)),
        Err(RuntimeError::UnknownWorld(_))
    ));
    assert!(matches!(
        host.runtime.start_world(world_id(9)),
        Err(RuntimeError::UnknownWorld(_))
    ));

    host.runtime.destroy_world(world).unwrap();
    assert!(matches!(
        host.runtime.world_status(world),
        Err(RuntimeError::UnknownWorld(_))
    ));
}

#[test]
fn stopping_a_created_world_is_allowed_but_starting_a_failed_one_is_not() {
    let mut host = Host::new(Behaviour::Failing);
    let world = world_id(1);
    host.create(1);
    host.runtime.stop_world(world).unwrap(); // Created -> Stopped

    host.runtime.start_world(world).unwrap();
    host.step().unwrap(); // world 1 fails
    assert_eq!(host.state(1), WorldLifecycle::Failed);
    assert!(matches!(
        host.runtime.start_world(world),
        Err(RuntimeError::InvalidWorldState { .. })
    ));
}

#[test]
fn step_ticks_every_running_world_once_in_deterministic_order() {
    let mut host = Host::new(Behaviour::Writer);
    // Create in a scrambled order; execution must be by world id.
    host.start(&[2, 0, 1]);

    let report = host.step().unwrap();
    assert_eq!(report.worlds, 3);
    assert_eq!(report.ticks, 3);
    assert_eq!(report.succeeded, 3);
    assert_eq!(report.failed, 0);

    let ticked: Vec<u64> = host
        .runtime
        .drain_events()
        .into_iter()
        .filter_map(|event| match event {
            RuntimeEvent::TickCompleted { world, .. } => Some(world.as_u64()),
            _ => None,
        })
        .collect();
    assert_eq!(ticked, vec![0, 1, 2]);

    // Stopped worlds are not ticked.
    host.runtime.stop_world(world_id(1)).unwrap();
    let report = host.step().unwrap();
    assert_eq!(report.worlds, 2);
    assert_eq!(report.ticks, 2);
}

#[test]
fn step_detailed_returns_every_successful_world_s_result() {
    let mut host = Host::new(Behaviour::Writer);
    host.start(&[1, 0]);

    let results = host.step_detailed().unwrap();
    // Deterministic (world-id) order, one committed result per world.
    let ids: Vec<u64> = results.iter().map(|(world, _)| world.as_u64()).collect();
    assert_eq!(ids, vec![0, 1]);
    for (_, result) in &results {
        assert_eq!(result.tick, TickId::from_u64(0));
        assert_eq!(result.changes.len(), 1);
    }

    // A failed world is excluded from the results but still recorded.
    let mut host = Host::new(Behaviour::Failing);
    host.start(&[0, 1]);
    let results = host.step_detailed().unwrap();
    assert_eq!(results.len(), 1);
    assert_eq!(results[0].0, world_id(0));
}

#[test]
fn tick_once_ticks_a_single_world() {
    let mut host = Host::new(Behaviour::Writer);
    host.start(&[0, 1]);
    let result = host.tick_once(0).unwrap();
    assert_eq!(result.tick, TickId::from_u64(0));
    assert_eq!(result.changes.len(), 1);
    // World 1 was not ticked.
    assert_eq!(host.next_tick(1), 0);
}

// ------------------------------------------------------------- ownership

#[test]
fn worlds_are_assigned_round_robin_and_reassignable() {
    let config = RuntimeConfig::new().with_worker_count(3);
    let mut host = Host::with_config(config, Behaviour::Writer);
    host.start(&[0, 1, 2, 3, 4]);

    let assigned: Vec<u64> = (0..5)
        .map(|w| host.runtime.assigned_worker(world_id(w)).unwrap().as_u64())
        .collect();
    assert_eq!(assigned, vec![0, 1, 2, 0, 1]);

    // Reassign world 0 from worker 0 to worker 2.
    host.runtime.reassign_world(world_id(0), worker_id(2)).unwrap();
    assert_eq!(host.runtime.assigned_worker(world_id(0)).unwrap().as_u64(), 2);
    let worker2 = host.runtime.worker_status(worker_id(2)).unwrap();
    assert_eq!(worker2.worlds, vec![0, 2]);
    let worker0 = host.runtime.worker_status(worker_id(0)).unwrap();
    assert_eq!(worker0.worlds, vec![3]);

    // Reassign to a failed worker is rejected.
    host.runtime.fail_worker(worker_id(0)).unwrap();
    assert!(matches!(
        host.runtime.reassign_world(world_id(3), worker_id(0)),
        Err(RuntimeError::InvalidWorkerState { .. })
    ));
}

#[test]
fn new_worlds_skip_failed_workers() {
    let config = RuntimeConfig::new().with_worker_count(2);
    let mut host = Host::with_config(config, Behaviour::Writer);
    host.start(&[0, 1]); // workers: 0, 1
    host.runtime.fail_worker(worker_id(0)).unwrap();

    // A new world must not be assigned to the failed worker.
    host.create(2);
    assert_eq!(host.runtime.assigned_worker(world_id(2)).unwrap().as_u64(), 1);

    // With every worker failed, creation is rejected outright.
    host.runtime.fail_worker(worker_id(1)).unwrap();
    assert!(matches!(
        host.runtime.create_world(world_id(3), built(256), no_log()),
        Err(RuntimeError::Internal(_))
    ));
}

#[test]
fn fail_worker_isolates_its_worlds() {
    let config = RuntimeConfig::new().with_worker_count(2);
    let mut host = Host::with_config(config, Behaviour::Writer);
    host.start(&[0, 1, 2]); // workers: 0,1,0

    host.runtime.fail_worker(worker_id(0)).unwrap();
    assert_eq!(
        host.runtime.worker_status(worker_id(0)).unwrap().state,
        WorkerState::Failed
    );
    // Worker 0's worlds are failed and recoverable...
    assert_eq!(host.state(0), WorldLifecycle::Failed);
    assert_eq!(host.state(2), WorldLifecycle::Failed);
    // ...while worker 1's world is untouched.
    assert_eq!(host.state(1), WorldLifecycle::Running);

    // A step only ticks worker 1's world.
    let report = host.step().unwrap();
    assert_eq!(report.worlds, 1);
    assert_eq!(report.ticks, 1);
}

// ---------------------------------------------------------------- inputs

#[test]
fn inputs_are_routed_and_consumed_in_order() {
    let mut host = Host::new(Behaviour::Consumer);
    host.start(&[0]);

    let mut input = frame(0);
    input.push(InputCommand::new(7, "spawn", Some(Value::U64(1))).unwrap());
    input.push(InputCommand::new(7, "spawn", Some(Value::U64(2))).unwrap());
    host.runtime.submit_input(world_id(0), input).unwrap();

    host.step().unwrap();
    assert_eq!(host.runtime.metrics(0).inputs_accepted, 1);
    // Two commands -> two rows.
    assert_eq!(host.runtime.metrics(0).ticks_succeeded, 1);
    assert_eq!(host.next_tick(0), 1);
    assert_eq!(host.worlds[&0].rows, vec![player(1), player(2)]);
}

#[test]
fn late_and_over_limit_inputs_are_rejected() {
    let config = RuntimeConfig::new().with_max_queued_inputs(1);
    let mut host = Host::with_config(config, Behaviour::Consumer);
    host.start(&[0]);
    let world = world_id(0);

    // Queue bound: second frame for the same tick is rejected (capacity).
    host.runtime.submit_input(world, frame(0)).unwrap();
    assert!(matches!(
        host.runtime.submit_input(world, frame(0)),
        Err(RuntimeError::InputRejected { reason: Error::Capacity(_), .. })
    ));

    // After the tick, a frame for the already-passed tick is late.
    host.step().unwrap();
    assert!(matches!(
        host.runtime.submit_input(world, frame(0)),
        Err(RuntimeError::InputRejected { reason: Error::InvalidArgument(_), .. })
    ));
    assert_eq!(host.runtime.metrics(0).inputs_rejected, 2);
}

#[test]
fn inputs_to_unknown_or_stopped_worlds_are_rejected() {
    let mut host = Host::new(Behaviour::Consumer);
    host.create(0);
    host.runtime.stop_world(world_id(0)).unwrap();

    assert!(matches!(
        host.runtime.submit_input(world_id(9), frame(0)),
        Err(RuntimeError::UnknownWorld(_))
    ));
    assert!(matches!(
        host.runtime.submit_input(world_id(0), frame(0)),
        Err(RuntimeError::InvalidWorldState { .. })
    ));
}

#[test]
fn rejections_are_counted_whatever_the_reason() {
    let mut host = Host::new(Behaviour::Echo);
    host.create(0);
    assert!(matches!(
        host.runtime.submit_input(world_id(0), frame(0)),
        Err(RuntimeError::InvalidWorldState { .. })
    ));
    assert!(matches!(
        host.call(0, 1, no_args()),
        Err(RuntimeError::InvalidWorldState { .. })
    ));
    host.runtime.start_world(world_id(0)).unwrap();
    assert!(matches!(
        host.runtime.submit_reducer_call(world_id(0), 2, "", no_args()),
        Err(RuntimeError::Core(Error::InvalidArgument(_)))
    ));
    assert_eq!(host.runtime.metrics(0).inputs_rejected, 1);
    assert_eq!(host.runtime.metrics(0).reducer_calls_rejected, 2);
    // A world that does not exist has nothing to reject.
    assert!(host.runtime.submit_input(world_id(9), frame(0)).is_err());
    assert_eq!(host.runtime.metrics(0).inputs_rejected, 1);
}

#[test]
fn durability_comes_before_observation() {
    // A world with a log: append, then write the snapshot, then observe.
    assert_eq!(next_after_tick(true, None, false, true), AfterTick::Append);
    assert_eq!(next_after_tick(true, Some(true), false, true), AfterTick::Snapshot);
    assert_eq!(next_after_tick(true, Some(true), true, true), AfterTick::Snapshot);
    assert_eq!(next_after_tick(true, Some(true), false, false), AfterTick::Observe);
    assert_eq!(next_after_tick(true, Some(true), true, false), AfterTick::Done);
    // What was not appended is not observed.
    assert_eq!(next_after_tick(true, Some(false), false, true), AfterTick::Done);
    // A world without one: observe what changed.
    assert_eq!(next_after_tick(false, None, false, true), AfterTick::Observe);
    assert_eq!(next_after_tick(false, None, true, true), AfterTick::Done);
}

#[test]
fn out_of_order_frames_fail_the_tick_deterministically() {
    let config = RuntimeConfig::new().with_tick_failure_policy(TickFailurePolicy::Continue);
    let mut host = Host::with_config(config, Behaviour::Writer);
    host.start(&[0]);

    // A frame for tick 5 is accepted (not yet passed) but the world is at
    // tick 0: the world itself rejects it at execution.
    host.runtime.submit_input(world_id(0), frame(5)).unwrap();
    let report = host.step().unwrap();
    assert_eq!(report.failed, 1);
    // Continue policy: the world keeps running. The world rejects the bad
    // frame before consuming logical time, so the next (empty) frame for
    // tick 0 succeeds.
    let result = host.tick_once(0).unwrap();
    assert_eq!(result.tick, TickId::from_u64(0));
    assert_eq!(host.state(0), WorldLifecycle::Running);
}

// ------------------------------------------------------------ persistence

fn durable() -> RuntimeConfig {
    RuntimeConfig::new().with_persistence(PersistencePolicy::Flush, "data")
}

fn recovery(log_exists: bool, snapshot_found: bool, replayed: usize, resume: u64) -> RecoverySetup {
    RecoverySetup {
        log_exists,
        log_opened: Ok(()),
        snapshot_found: Ok(snapshot_found),
        replayed: Ok(replayed),
        world: built(256),
        resume_tick: Some(TickId::from_u64(resume)),
    }
}

#[test]
fn a_world_with_a_log_is_never_created_over() {
    let mut host = Host::with_config(durable(), Behaviour::Writer);
    let world = world_id(0);
    host.start(&[0]);
    host.step().unwrap();
    host.runtime.destroy_world(world).unwrap();

    let existing = LogSetup { dir_ready: Ok(()), log_exists: true, log_created: Ok(()) };
    assert!(matches!(
        host.runtime.create_world(world, built(256), existing),
        Err(RuntimeError::Persistence(Error::AlreadyExists(_)))
    ));
    let replayed = host.runtime.recover_world(world, recovery(true, false, 1, 1)).unwrap();
    assert_eq!(replayed, 1);
    host.runtime.shutdown(vec![]).unwrap();
}

#[test]
fn durable_ticks_are_counted_and_recovery_resumes_time() {
    let mut host = Host::with_config(durable(), Behaviour::Writer);
    host.start(&[0]);
    for _ in 0..3 {
        host.step().unwrap();
    }
    assert_eq!(host.runtime.metrics(0).wal_appends, 3);
    host.runtime.shutdown(vec![]).unwrap();

    let mut host = Host::with_config(durable(), Behaviour::Writer);
    let world = world_id(0);
    let replayed = host.runtime.recover_world(world, recovery(true, false, 3, 3)).unwrap();
    assert_eq!(replayed, 3);
    assert_eq!(host.next_tick(0), 3);
    let mut recovered = ToyWorld::new();
    recovered.next_tick = 3;
    host.worlds.insert(0, recovered);
    host.runtime.start_world(world).unwrap();
    assert_eq!(host.step().unwrap().succeeded, 1);
    assert_eq!(host.next_tick(0), 4);
}

#[test]
fn recovery_requires_persistence_and_a_log() {
    let mut host = Host::new(Behaviour::Writer);
    assert!(matches!(
        host.runtime.recover_world(world_id(0), recovery(true, false, 0, 0)),
        Err(RuntimeError::Persistence(Error::Unsupported(_)))
    ));
    let mut host = Host::with_config(durable(), Behaviour::Writer);
    assert!(matches!(
        host.runtime.recover_world(world_id(0), recovery(false, false, 0, 0)),
        Err(RuntimeError::Persistence(Error::NotFound(_)))
    ));
}

#[test]
fn snapshots_are_due_at_the_interval() {
    let config = durable().with_snapshot_interval(2);
    let mut host = Host::with_config(config, Behaviour::Writer);
    host.start(&[0]);
    let mut due = Vec::new();
    for _ in 0..4 {
        due.push(host.runtime.snapshot_due(world_id(0)));
        host.step().unwrap();
    }
    assert_eq!(due, vec![false, true, false, true]);
    assert_eq!(host.runtime.metrics(0).snapshots, 2);
}

#[test]
fn a_failed_append_keeps_the_result_from_leaving() {
    let mut host = Host::with_config(durable(), Behaviour::Writer);
    host.start(&[0]);
    let mut runs = host.plan().unwrap();
    runs[0].answers.appended = Err(Error::Internal("disk full".to_owned()));
    let results = host.runtime.step_detailed(runs).unwrap();
    assert_eq!(results.len(), 0);
    assert_eq!(host.runtime.metrics(0).wal_appends, 0);
    assert_eq!(host.runtime.metrics(0).ticks_succeeded, 0);
    assert_eq!(host.runtime.metrics(0).ticks_total, 1);
    assert!(host
        .runtime
        .drain_events()
        .into_iter()
        .any(|e| matches!(e, RuntimeEvent::PersistenceFailure { .. })));
}

// --------------------------------------------------------- subscriptions

#[test]
fn subscriptions_are_isolated_per_world() {
    let mut host = Host::new(Behaviour::Writer);
    host.start(&[0, 1]);

    let sub_a = host.subscribe(0);
    let sub_b = host.subscribe(1);
    host.drain(0, sub_a); // Initial
    host.drain(1, sub_b);

    host.step().unwrap();

    let updates_a = host.drain(0, sub_a);
    let updates_b = host.drain(1, sub_b);
    assert_eq!(updates_a.len(), 1);
    assert_eq!(updates_b.len(), 1);
    // Both worlds' row ids start at zero but are independent.
    assert!(
        matches!(&updates_a[0], SubscriptionUpdate::Insert { row, .. } if row.row_id.as_u64() == 0)
    );
    assert!(
        matches!(&updates_b[0], SubscriptionUpdate::Insert { row, .. } if row.row_id.as_u64() == 0)
    );
    assert_eq!(host.runtime.metrics(0).subscriptions, 2);
    host.runtime.unsubscribe(world_id(0), sub_a, Ok(())).unwrap();
    assert_eq!(host.runtime.metrics(0).subscriptions, 1);
}

#[test]
fn failed_ticks_produce_zero_subscription_updates() {
    let mut host = Host::new(Behaviour::Failing);
    host.start(&[0, 1]);
    // Subscribe to both worlds before the step (the initial snapshot is
    // drained and discarded; only subsequent commits produce updates).
    let sub = host.subscribe(1);
    host.drain(1, sub);
    let sub0 = host.subscribe(0);
    host.drain(0, sub0);

    let report = host.step().unwrap();
    assert_eq!(report.failed, 1);
    // The failed world's tick produced zero committed changes.
    assert!(host.drain(1, sub).is_empty());
    // The healthy world's subscription saw its commit.
    assert_eq!(host.drain(0, sub0).len(), 1);
}

#[test]
fn empty_change_ticks_do_not_break_subscription_sequences() {
    let mut host = Host::new(Behaviour::EveryOther);
    host.start(&[0]);
    let sub = host.subscribe(0);
    host.drain(0, sub); // Initial

    // Ticks 0,1,2,3: rows commit on 0 and 2, nothing on 1 and 3.
    for _ in 0..4 {
        host.step().unwrap();
    }
    let updates = host.drain(0, sub);
    // Two commits, two deltas, with contiguous sequences.
    assert_eq!(updates.len(), 2, "only the two change commits emit deltas");
    let seqs: Vec<u64> = updates
        .iter()
        .map(|update| match update {
            SubscriptionUpdate::Insert { seq, .. } => *seq,
            other => panic!("expected Insert, got {other:?}"),
        })
        .collect();
    assert_eq!(seqs, vec![0, 1], "contiguous sequences, no phantom gap");
}

// --------------------------------------------------------- reducer calls

#[test]
fn reducer_calls_execute_inside_ticks_respecting_the_per_tick_budget_fifo() {
    // Budget 2 per tick: 5 calls execute 2 + 2 + 1 across three ticks, in
    // FIFO (request-id) order. Overflow stays queued; nothing is dropped.
    let mut host = Host::new(Behaviour::Echo);
    host.create_with(0, 2);
    host.runtime.start_world(world_id(0)).unwrap();

    for request_id in 0..5u64 {
        host.call(0, request_id, no_args().insert("v", Value::U64(request_id))).unwrap();
    }
    assert_eq!(host.runtime.metrics(0).reducer_calls_accepted, 5);

    // Tick 1: exactly the budget, in submission order.
    assert_eq!(result_ids(&host.step_detailed().unwrap()), vec![0, 1]);
    // Tick 2: the next two.
    assert_eq!(result_ids(&host.step_detailed().unwrap()), vec![2, 3]);
    // Tick 3: the remainder.
    assert_eq!(result_ids(&host.step_detailed().unwrap()), vec![4]);
    // All calls executed; no accepted call was dropped or duplicated.
    assert_eq!(result_ids(&host.step_detailed().unwrap()), Vec::<u64>::new());
    assert_eq!(host.runtime.metrics(0).reducer_calls_rejected, 0);

    // Each result is typed: success with the echoed value.
    host.call(0, 99, no_args().insert("v", Value::U64(7))).unwrap();
    let results = host.step_detailed().unwrap();
    let result = &results[0].1.reducer_results[0];
    assert_eq!(result.request_id, 99);
    assert_eq!(result.outcome, Ok(Value::U64(7)));
}

#[test]
fn reducer_calls_beyond_the_per_tick_budget_survive_until_future_ticks() {
    // A single call sits in the queue until the world ticks; a later call
    // behind it executes on the following tick: the queue is strictly FIFO
    // and never drains a call without executing it.
    let mut host = Host::new(Behaviour::Echo);
    host.create_with(0, 1);
    host.runtime.start_world(world_id(0)).unwrap();

    host.call(0, 1, no_args()).unwrap();
    // Not yet ticked: the call is still queued, not lost.
    assert_eq!(host.runtime.metrics(0).reducer_calls_accepted, 1);
    assert_eq!(host.runtime.metrics(0).ticks_succeeded, 0);

    // A second call queues behind the first; budget 1 means one per tick.
    host.call(0, 2, no_args()).unwrap();
    host.call(0, 3, no_args()).unwrap();

    assert_eq!(result_ids(&host.step_detailed().unwrap()), vec![1]);
    assert_eq!(result_ids(&host.step_detailed().unwrap()), vec![2]);
    assert_eq!(result_ids(&host.step_detailed().unwrap()), vec![3]);
}

#[test]
fn zero_reducer_call_budget_is_an_invalid_configuration_not_a_hang_or_drop() {
    // A world that cannot be built (a zero budget is an invalid world
    // configuration) cannot be created, so calls can never silently
    // disappear into a zero-budget tick.
    let mut host = Host::new(Behaviour::Echo);
    let setup = WorldSetup {
        built: Err(Error::invalid_argument("max_reducer_calls_per_tick must be at least 1")),
        next_tick: TickId::from_u64(0),
        calls_per_tick: 0,
    };
    assert!(matches!(
        host.runtime.create_world(world_id(0), setup, no_log()),
        Err(RuntimeError::Internal(_))
    ));
}

#[test]
fn reducer_calls_to_unknown_or_stopped_worlds_are_rejected_explicitly() {
    let mut host = Host::new(Behaviour::Echo);
    host.create(0);
    host.runtime.stop_world(world_id(0)).unwrap();

    // Unknown world: explicit error, never queued.
    assert!(matches!(host.call(9, 1, no_args()), Err(RuntimeError::UnknownWorld(_))));
    // Stopped world: explicit error, never queued.
    assert!(matches!(
        host.call(0, 2, no_args()),
        Err(RuntimeError::InvalidWorldState { .. })
    ));
    assert_eq!(host.runtime.metrics(0).reducer_calls_accepted, 0);
}

#[test]
fn reducer_call_queue_overflow_is_rejected_explicitly_never_silently_dropped() {
    let config = RuntimeConfig::new().with_max_queued_reducer_calls(2);
    let mut host = Host::with_config(config, Behaviour::Echo);
    host.start(&[0]);

    host.call(0, 1, no_args()).unwrap();
    host.call(0, 2, no_args()).unwrap();
    // The third call is rejected with the runtime error (capacity): the
    // caller receives the error and may retry; nothing is silently lost.
    assert!(matches!(
        host.call(0, 3, no_args()),
        Err(RuntimeError::ReducerCallRejected { .. })
    ));
    assert_eq!(host.runtime.metrics(0).reducer_calls_rejected, 1);
    assert_eq!(host.runtime.metrics(0).reducer_calls_accepted, 2);

    // Both accepted calls still execute.
    assert_eq!(result_ids(&host.step_detailed().unwrap()), vec![1, 2]);
}

#[test]
fn calls_drained_into_a_failed_tick_are_requeued_not_lost() {
    // Under `TickFailurePolicy::Continue` a failed tick leaves the world
    // running; the calls that were drained into that tick must be requeued
    // (FIFO) and execute on the next eligible tick.
    let config = RuntimeConfig::new().with_tick_failure_policy(TickFailurePolicy::Continue);
    let mut host = Host::with_config(config, Behaviour::Flaky);
    host.start(&[0]);

    host.call(0, 1, no_args().insert("v", Value::U64(1))).unwrap();
    assert_eq!(host.runtime.metrics(0).reducer_calls_accepted, 1);

    // Tick 0 fails; under Continue the world keeps running.
    let report = host.step().unwrap();
    assert_eq!(report.failed, 1);
    assert_eq!(host.state(0), WorldLifecycle::Running);

    // Tick 1 executes the requeued call (FIFO) alongside the now-healthy
    // system: exactly one terminal result, not lost.
    let results = host.step_detailed().unwrap();
    assert_eq!(results.len(), 1);
    assert_eq!(results[0].1.tick.as_u64(), 1);
    assert_eq!(result_ids(&results), vec![1]);
    assert_eq!(results[0].1.reducer_results[0].outcome, Ok(Value::U64(1)));
}

// ---------------------------------------------------------- determinism

/// Runs 4 worlds for 5 ticks each (tick_once, world-ascending) and returns
/// the per-world per-tick change traces.
fn run_scenario(workers: usize) -> Vec<Vec<Vec<Change>>> {
    let config = RuntimeConfig::new().with_worker_count(workers);
    let mut host = Host::with_config(config, Behaviour::Writer);
    host.start(&[0, 1, 2, 3]);
    let mut traces: Vec<Vec<Vec<Change>>> = (0..4).map(|_| Vec::new()).collect();
    for _ in 0..5 {
        for world in 0..4u64 {
            let result = host.tick_once(world).unwrap();
            traces[world as usize].push(result.changes);
        }
    }
    traces
}

#[test]
fn worker_count_never_changes_world_traces() {
    assert_eq!(run_scenario(1), run_scenario(3));
    assert_eq!(run_scenario(2), run_scenario(5));
    assert_eq!(run_scenario(4), run_scenario(4));
}

#[test]
fn failure_isolation_keeps_other_worlds_correct() {
    let mut host = Host::new(Behaviour::Failing);
    host.start(&[0, 1, 2]);

    // First step: world 1 fails after its writer ran; worlds 0 and 2 commit.
    let report = host.step().unwrap();
    assert_eq!(report.succeeded, 2);
    assert_eq!(report.failed, 1);
    assert_eq!(host.state(1), WorldLifecycle::Failed);

    // Subsequent steps tick only the healthy worlds.
    let report = host.step().unwrap();
    assert_eq!(report.worlds, 2);
    assert_eq!(report.succeeded, 2);
    assert_eq!(host.next_tick(0), 2);
    assert_eq!(host.next_tick(2), 2);

    let failed_events = host
        .runtime
        .drain_events()
        .into_iter()
        .filter(|e| matches!(e, RuntimeEvent::WorldFailed { world, .. } if world.as_u64() == 1))
        .count();
    assert_eq!(failed_events, 1);
}

// --------------------------------------------------------------- shutdown

#[test]
fn shutdown_is_deterministic_and_blocks_new_operations() {
    let mut host = Host::new(Behaviour::Writer);
    host.start(&[0, 1]);
    host.step().unwrap();

    host.runtime.shutdown(vec![]).unwrap();
    assert_eq!(host.runtime.state(), RuntimeState::Stopped);
    assert_eq!(
        host.runtime.worker_status(worker_id(0)).unwrap().state,
        WorkerState::Stopped
    );
    assert_eq!(host.state(0), WorldLifecycle::Stopped);

    // Everything is rejected after shutdown.
    assert!(matches!(host.step(), Err(RuntimeError::Shutdown)));
    assert!(matches!(host.tick_once(0), Err(RuntimeError::Shutdown)));
    assert!(matches!(
        host.runtime.create_world(world_id(9), built(256), no_log()),
        Err(RuntimeError::Shutdown)
    ));
    assert!(matches!(
        host.runtime.submit_input(world_id(0), frame(0)),
        Err(RuntimeError::Shutdown)
    ));
    // Idempotent.
    host.runtime.shutdown(vec![]).unwrap();
}

#[test]
fn a_second_shutdown_changes_nothing() {
    let mut host = Host::with_config(durable(), Behaviour::Writer);
    host.start(&[0, 1]);
    let failed = |world: u64| FlushFailure {
        world: world_id(world),
        error: Error::Internal("disk full".to_owned()),
    };
    // A log that cannot be flushed keeps no world from stopping.
    assert!(host.runtime.shutdown(vec![failed(0)]).is_err());
    assert_eq!(host.state(0), WorldLifecycle::Stopped);
    assert_eq!(host.state(1), WorldLifecycle::Stopped);
    let events = host.runtime.event_count();
    // Whatever it is told, the second one succeeds.
    host.runtime.shutdown(vec![failed(0), failed(1)]).unwrap();
    assert_eq!(host.runtime.event_count(), events);
    assert_eq!(host.runtime.state(), RuntimeState::Stopped);
}

#[test]
fn shutdown_reports_a_log_that_could_not_be_flushed() {
    let mut host = Host::with_config(durable(), Behaviour::Writer);
    host.start(&[0]);
    let failures = vec![FlushFailure {
        world: world_id(0),
        error: Error::Internal("disk full".to_owned()),
    }];
    assert!(matches!(
        host.runtime.shutdown(failures),
        Err(RuntimeError::Persistence(Error::Internal(_)))
    ));
    assert_eq!(host.runtime.state(), RuntimeState::Stopped);
}

// ------------------------------------------------------------ config/events

#[test]
fn invalid_configurations_are_rejected() {
    assert!(matches!(
        Runtime::new(RuntimeConfig::new().with_worker_count(0)),
        Err(RuntimeError::InvalidConfig(_))
    ));
    assert!(matches!(
        Runtime::new(RuntimeConfig::new().with_max_queued_inputs(0)),
        Err(RuntimeError::InvalidConfig(_))
    ));
    assert!(matches!(
        Runtime::new(RuntimeConfig::new().with_snapshot_interval(0)),
        Err(RuntimeError::InvalidConfig(_))
    ));
    // Persistence without a directory.
    let mut config = RuntimeConfig::new().with_persistence(PersistencePolicy::Flush, "");
    config.persistence_dir = None;
    assert!(matches!(Runtime::new(config), Err(RuntimeError::InvalidConfig(_))));
}

#[test]
fn events_are_bounded_and_metrics_count_work() {
    let config = RuntimeConfig::new().with_event_log_limit(4);
    let mut host = Host::with_config(config, Behaviour::Writer);
    host.start(&[0]);
    for _ in 0..5 {
        host.step().unwrap();
    }

    let metrics = host.runtime.metrics(0);
    assert_eq!(metrics.ticks_total, 5);
    assert_eq!(metrics.ticks_succeeded, 5);
    assert!(metrics.avg_tick_ns() > 0);

    // The bounded log keeps only the most recent 4 events.
    assert!(host.runtime.event_count() <= 4);
    host.runtime.drain_events();
    assert_eq!(host.runtime.event_count(), 0);
}

// ------------------------------------------------------------- whole steps

/// The full observable outcome of a ring scenario. All of it is independent
/// of the worker count.
#[derive(Debug, PartialEq, Eq)]
struct RingTrace {
    changes: Vec<Vec<Vec<Change>>>,
    outbound: Vec<Vec<Vec<PartitionMessage>>>,
    next_ticks: Vec<u64>,
    ticks_total: u64,
    ticks_succeeded: u64,
    changes_committed: u64,
    messages_sent: u64,
    messages_delivered: u64,
}

/// Runs `worlds` ring partitions for `ticks` steps at `workers` workers.
/// Returns the worker-count-independent trace and the `TickCompleted` stream.
fn run_ring_scenario(workers: usize, worlds: u64, ticks: u64) -> (RingTrace, Vec<(u64, u64)>) {
    let config = RuntimeConfig::new().with_worker_count(workers);
    let mut host = Host::with_config(config, Behaviour::Ring);
    for world in 0..worlds {
        host.start_partition(world);
    }
    let mut changes: Vec<Vec<Vec<Change>>> = (0..worlds).map(|_| Vec::new()).collect();
    let mut outbound: Vec<Vec<Vec<PartitionMessage>>> = (0..worlds).map(|_| Vec::new()).collect();
    for _ in 0..ticks {
        for (world, result) in host.step_detailed().unwrap() {
            changes[world.as_u64() as usize].push(result.changes);
            outbound[world.as_u64() as usize].push(result.outbound);
        }
    }
    let completed = host
        .runtime
        .drain_events()
        .into_iter()
        .filter_map(|event| match event {
            RuntimeEvent::TickCompleted { world, tick, .. } => {
                Some((world.as_u64(), tick.as_u64()))
            }
            _ => None,
        })
        .collect();
    let next_ticks = (0..worlds).map(|world| host.next_tick(world)).collect();
    let metrics = host.runtime.metrics(0);
    let trace = RingTrace {
        changes,
        outbound,
        next_ticks,
        ticks_total: metrics.ticks_total,
        ticks_succeeded: metrics.ticks_succeeded,
        changes_committed: metrics.changes_committed,
        messages_sent: metrics.messages_sent,
        messages_delivered: metrics.messages_delivered,
    };
    (trace, completed)
}

#[test]
fn parallel_step_matches_serial_step_exactly() {
    let (serial, _) = run_ring_scenario(1, 6, 5);
    for workers in [2, 4, 6] {
        let (trace, _) = run_ring_scenario(workers, 6, 5);
        assert_eq!(serial, trace, "workers={workers}");
    }
}

#[test]
fn parallel_step_emits_events_in_deterministic_order() {
    for (workers, worlds) in [(2u64, 6u64), (4, 6), (4, 9), (6, 6)] {
        let (_, completed) = run_ring_scenario(workers as usize, worlds, 4);
        let expected: Vec<(u64, u64)> = (0..4)
            .flat_map(|tick| {
                (0..workers).flat_map(move |worker| {
                    (0..worlds).filter_map(move |world| {
                        if world % workers == worker {
                            Some((world, tick))
                        } else {
                            None
                        }
                    })
                })
            })
            .collect();
        assert_eq!(completed, expected, "workers={workers} worlds={worlds}");
    }
}

/// The worker-count-independent observable of the failing-world scenario:
/// per-step (ticks, succeeded, failed) reports, the sorted event multiset,
/// and final tick numbers.
type FailureTrace = (Vec<(u64, u64, u64)>, Vec<(u8, u64, u64)>, Vec<u64>);

fn run_failing(workers: usize) -> FailureTrace {
    let config = RuntimeConfig::new().with_worker_count(workers);
    let mut host = Host::with_config(config, Behaviour::Failing);
    host.start(&[0, 1, 2]);
    let mut reports = Vec::new();
    for _ in 0..3 {
        let report = host.step().unwrap();
        reports.push((report.ticks, report.succeeded, report.failed));
    }
    let mut events: Vec<(u8, u64, u64)> = host
        .runtime
        .drain_events()
        .into_iter()
        .filter_map(|event| match event {
            RuntimeEvent::TickCompleted { world, tick, .. } => {
                Some((0u8, world.as_u64(), tick.as_u64()))
            }
            RuntimeEvent::TickFailed { world, tick, .. } => {
                Some((1u8, world.as_u64(), tick.as_u64()))
            }
            RuntimeEvent::WorldFailed { world, .. } => Some((2u8, world.as_u64(), 0)),
            _ => None,
        })
        .collect();
    events.sort_unstable();
    let next_ticks = [0u64, 1, 2].iter().map(|world| host.next_tick(*world)).collect();
    (reports, events, next_ticks)
}

#[test]
fn parallel_step_preserves_failure_isolation() {
    let serial = run_failing(1);
    for workers in [2, 4] {
        assert_eq!(serial, run_failing(workers), "workers={workers}");
    }
}

// -------------------------------------------------------------- partitions

#[test]
fn partition_registration_lifecycle() {
    let mut host = Host::new(Behaviour::Ring);
    let world = world_id(0);
    host.create(0);

    // Binding an unknown world is rejected.
    assert!(matches!(
        host.runtime.register_partition(partition_id(5), world_id(9)),
        Err(RuntimeError::UnknownWorld(_))
    ));
    host.runtime.register_partition(partition_id(7), world).unwrap();
    assert_eq!(host.runtime.partition_status(partition_id(7)).unwrap().world, world);
    // Duplicate registration is rejected.
    assert!(matches!(
        host.runtime.register_partition(partition_id(7), world),
        Err(RuntimeError::DuplicatePartition(_))
    ));
    assert!(host.next_tick(0) == 0);

    // The topology propagates to registered worlds.
    host.create(1);
    host.runtime.register_partition(partition_id(1), world_id(1)).unwrap();
    assert_eq!(host.runtime.topology(), vec![1, 7]);

    host.runtime.unregister_partition(partition_id(1)).unwrap();
    assert_eq!(host.runtime.topology(), vec![7]);
    assert!(matches!(
        host.runtime.partition_status(partition_id(1)),
        Err(RuntimeError::UnknownPartition(_))
    ));
    // Idempotent unregister.
    host.runtime.unregister_partition(partition_id(1)).unwrap();

    // Destroying the world unregisters its bound partition.
    host.runtime.destroy_world(world).unwrap();
    assert!(matches!(
        host.runtime.partition_status(partition_id(7)),
        Err(RuntimeError::UnknownPartition(_))
    ));
}

#[test]
fn destroying_a_world_unregisters_every_partition_bound_to_it() {
    let mut host = Host::new(Behaviour::Ring);
    host.create(0);
    host.create(1);
    host.runtime.register_partition(partition_id(3), world_id(0)).unwrap();
    host.runtime.register_partition(partition_id(4), world_id(0)).unwrap();
    host.runtime.register_partition(partition_id(5), world_id(1)).unwrap();
    host.runtime.destroy_world(world_id(0)).unwrap();
    assert_eq!(host.runtime.partitions(), vec![5]);
    assert_eq!(host.runtime.topology(), vec![5]);
}

// ---------------------------------------------------------------- routing

#[test]
fn messages_are_delivered_with_one_logical_tick_of_latency() {
    let mut host = Host::new(Behaviour::OneWay);
    host.start_partition(0);
    host.start_partition(1);

    // Step 1: world 0's tick 0 sends one message; world 1's tick 0 sees none.
    let report = host.step().unwrap();
    assert_eq!(report.succeeded, 2);
    assert_eq!(report.failed, 0);
    assert_eq!(host.runtime.metrics(0).messages_sent, 1);
    assert_eq!(host.runtime.metrics(0).messages_delivered, 0);

    // Step 2: world 1's tick 1 receives the tick-0 message; the handler
    // commits one ledger row.
    host.step().unwrap();
    assert_eq!(host.runtime.metrics(0).messages_delivered, 1);
    assert_eq!(host.runtime.metrics(0).ticks_succeeded, 4);

    // Verify the handler's commit through the subscription boundary.
    let rows = host.initial_rows(1);
    assert_eq!(rows.len(), 1);
    assert_eq!(rows[0].row.values()[1].as_u64().unwrap(), 0); // from
}

#[test]
fn external_messages_share_the_same_delivery_path() {
    let mut host = Host::new(Behaviour::OneWay);
    // Register partition 0 but never start its world, so the only message in
    // flight is the externally injected one.
    host.create(0);
    host.runtime.register_partition(partition_id(0), world_id(0)).unwrap();
    host.start_partition(1);

    // External injection stamped with the sender's current logical tick.
    let args = no_args()
        .insert("amount", Value::I64(99))
        .insert("to", Value::U64(1))
        .insert("from", Value::U64(0))
        .insert("seq", Value::U64(777));
    host.runtime.send_message(partition_id(0), partition_id(1), "transfer", args).unwrap();
    assert!(matches!(
        host.runtime.send_message(partition_id(0), partition_id(9), "x", no_args()),
        Err(RuntimeError::UnknownPartition(_))
    ));

    host.step().unwrap(); // tick 0: queued, not yet delivered
    assert_eq!(host.runtime.metrics(0).messages_delivered, 0);
    host.step().unwrap(); // tick 1: delivered, handler commits
    assert_eq!(host.runtime.metrics(0).messages_delivered, 1);

    let rows = host.initial_rows(1);
    assert_eq!(rows.len(), 1);
    assert_eq!(rows[0].row.values()[3].as_i64().unwrap(), 99);
}

#[test]
fn delivery_order_is_deterministic_across_senders() {
    let mut host = Host::new(Behaviour::ThreeSenders);
    host.start_partition(0);
    host.start_partition(1);

    host.step().unwrap(); // tick 0 sends 3
    assert_eq!(host.runtime.metrics(0).messages_sent, 3);
    host.step().unwrap(); // tick 1 delivers 3 in (sent_tick, from, seq) order
    assert_eq!(host.runtime.metrics(0).messages_delivered, 3);

    let seqs: Vec<i64> = host
        .initial_rows(1)
        .iter()
        .map(|r| r.row.values()[3].as_i64().unwrap())
        .collect();
    assert_eq!(seqs, vec![0, 1, 2]);
}

/// Runs `steps` steps on a 3-partition ring and returns each world's
/// per-tick committed change traces.
fn ring_traces(workers: usize, steps: u64) -> Vec<Vec<Vec<Change>>> {
    let config = RuntimeConfig::new().with_worker_count(workers);
    let mut host = Host::with_config(config, Behaviour::Ring);
    for p in 0..3u64 {
        host.start_partition(p);
    }
    let mut traces: Vec<Vec<Vec<Change>>> = (0..3).map(|_| Vec::new()).collect();
    for _ in 0..steps {
        for (world, result) in host.step_detailed().unwrap() {
            traces[world.as_u64() as usize].push(result.changes);
        }
    }
    traces
}

#[test]
fn worker_count_never_changes_partition_traces() {
    assert_eq!(ring_traces(1, 6), ring_traces(2, 6));
    assert_eq!(ring_traces(2, 6), ring_traces(4, 6));
    // After 6 steps each world committed exactly 5 handler rows (its own
    // sends arrive one tick later).
    let traces = ring_traces(1, 6);
    for (world, trace) in traces.iter().enumerate() {
        let rows: usize = trace.iter().map(|c| c.len()).sum();
        assert_eq!(rows, 5, "world {world} handler rows after 6 steps");
    }
}

#[test]
fn repeated_runs_with_identical_setup_are_identical() {
    assert_eq!(ring_traces(2, 5), ring_traces(2, 5));
}

// ------------------------------------------------------- failure semantics

#[test]
fn failed_handler_aborts_the_destination_tick_atomically() {
    let mut host = Host::new(Behaviour::Rejecting);
    host.start_partition(0);
    host.start_partition(1);
    let sub = host.subscribe(1);
    host.drain(1, sub); // Initial (empty)

    // Tick 0: world 0 sends; world 1 has no messages: both succeed.
    let report = host.step().unwrap();
    assert_eq!(report.succeeded, 2);
    assert_eq!(report.failed, 0);

    // Tick 1: world 1's handler rejects the delivered message: its tick
    // fails; world 0 keeps running.
    let report = host.step().unwrap();
    assert_eq!(report.succeeded, 1);
    assert_eq!(report.failed, 1);
    assert_eq!(host.state(1), WorldLifecycle::Failed);
    // The failed tick produced zero subscription updates.
    assert!(host.drain(1, sub).is_empty());
    // The sender's tick committed (its own state is fine).
    assert_eq!(host.next_tick(0), 2);
}

#[test]
fn sender_to_unknown_partition_fails_its_tick_atomically() {
    // Register only partition 0: the sender system cannot send to partition
    // 1, so its tick fails deterministically.
    let mut host = Host::new(Behaviour::Ring);
    host.start_partition(0);

    let report = host.step().unwrap();
    assert_eq!(report.failed, 1);
    let failed = host
        .runtime
        .drain_events()
        .into_iter()
        .any(|e| matches!(e, RuntimeEvent::TickFailed { .. }));
    assert!(failed);
}

#[test]
fn partition_failure_is_isolated() {
    // World 1 (partition 1) rejects; worlds 0 and 2 feed it and keep
    // ticking regardless.
    let mut host = Host::new(Behaviour::Rejecting);
    host.start_partition(0);
    host.start_partition(1);
    host.start_partition(2);

    host.step().unwrap(); // all tick 0
    host.step().unwrap(); // world 1 fails at tick 1

    assert_eq!(host.state(1), WorldLifecycle::Failed);
    // Worlds 0 and 2 are still running and keep ticking.
    let report = host.step().unwrap();
    assert_eq!(report.worlds, 2);
    assert_eq!(report.succeeded, 2);
    assert_eq!(host.next_tick(2), 3);
}

#[test]
fn worker_reassignment_preserves_routing() {
    let config = RuntimeConfig::new().with_worker_count(2);
    let mut host = Host::with_config(config, Behaviour::OneWay);
    host.start_partition(0);
    host.start_partition(1);

    // Move world 0 to worker 1; its messages must still reach partition 1.
    host.runtime.reassign_world(world_id(0), worker_id(1)).unwrap();
    assert_eq!(
        host.runtime.partition_status(partition_id(0)).unwrap().worker.as_u64(),
        1
    );

    host.step().unwrap();
    host.step().unwrap();
    assert_eq!(host.runtime.metrics(0).messages_delivered, 1);
}

// ----------------------------------------------------------- backpressure

#[test]
fn inbound_queue_overflow_drops_deterministically() {
    let config = RuntimeConfig::new().with_max_queued_partition_messages(2);
    let mut host = Host::with_config(config, Behaviour::Ring);
    host.start_partition(0);
    // Partition 1's world is created but never started: its inbound queue
    // fills and overflows while world 0 keeps sending.
    host.create(1);
    host.runtime.register_partition(partition_id(1), world_id(1)).unwrap();

    host.step().unwrap(); // 1 queued
    host.step().unwrap(); // 2 queued (cap reached)
    host.step().unwrap(); // 3rd dropped
    assert_eq!(host.runtime.metrics(0).messages_sent, 2);
    assert_eq!(host.runtime.metrics(0).messages_dropped, 1);
    let dropped = host
        .runtime
        .drain_events()
        .into_iter()
        .filter(|e| matches!(e, RuntimeEvent::MessageDropped { .. }))
        .count();
    assert_eq!(dropped, 1);
    // The sender's ticks were never blocked.
    assert_eq!(host.next_tick(0), 3);
}

#[test]
fn stopping_a_partition_accumulates_messages_for_resume() {
    let mut host = Host::new(Behaviour::OneWay);
    host.start_partition(0);
    host.start_partition(1);
    host.runtime.stop_world(world_id(1)).unwrap();

    host.step().unwrap(); // world 0 sends at tick 0; world 1 stopped
    host.step().unwrap(); // world 0 sends at tick 1; world 1 still stopped
    assert_eq!(host.runtime.metrics(0).messages_sent, 2);
    assert_eq!(host.runtime.metrics(0).messages_delivered, 0);

    // Resume: world 1 never ticked, so it resumes at tick 0; the messages
    // sent at ticks 0 and 1 are delivered when its ticks reach 1 and 2.
    host.runtime.start_world(world_id(1)).unwrap();
    host.step().unwrap(); // world 1 tick 0: nothing due
    host.step().unwrap(); // world 1 tick 1: delivers the tick-0 message
    host.step().unwrap(); // world 1 tick 2: delivers the tick-1 message
    assert_eq!(host.runtime.metrics(0).messages_delivered, 2);
    assert_eq!(host.initial_rows(1).len(), 2);
}

// ------------------------------------------------------------- input frames

#[test]
fn messages_and_input_frames_coexist_in_one_tick() {
    let mut host = Host::new(Behaviour::OneWay);
    host.start_partition(0);
    host.start_partition(1);

    let mut input = frame(0);
    input.push(InputCommand::new(7, "hello", None).unwrap());
    host.runtime.submit_input(world_id(1), input).unwrap();
    host.step().unwrap(); // world 1 tick 0: frame only
    host.step().unwrap(); // world 1 tick 1: frame (empty) + delivered msg
    assert_eq!(host.runtime.metrics(0).messages_delivered, 1);
    assert_eq!(host.runtime.metrics(0).inputs_accepted, 1);
}

// ------------------------------------------------------------------ errors

#[test]
fn a_worker_that_is_not_configured_is_unknown() {
    let mut host = Host::new(Behaviour::Writer);
    host.start(&[0]);
    assert!(matches!(
        host.runtime.worker_status(worker_id(9)),
        Err(RuntimeError::UnknownWorker(_))
    ));
    assert!(matches!(
        host.runtime.reassign_world(world_id(0), worker_id(9)),
        Err(RuntimeError::UnknownWorker(_))
    ));
}

#[test]
fn errors_read_as_text() {
    assert_eq!(RuntimeError::UnknownWorld(world_id(4)).to_text(), "world 4 does not exist");
    assert_eq!(RuntimeError::Shutdown.to_text(), "runtime is shutting down or stopped");
}

#[test]
fn failures_keep_their_cause() {
    let mut host = Host::new(Behaviour::Failing);
    host.start(&[1]);
    let failed = host.tick_once(1);
    assert_eq!(
        failed.unwrap_err(),
        RuntimeError::Tick { world: world_id(1), error: Error::InvalidArgument("boom".to_owned()) }
    );
    assert_eq!(
        host.runtime.subscribe(world_id(1), Err(Error::not_found("table"))).unwrap_err(),
        RuntimeError::Core(Error::NotFound("table".to_owned()))
    );
}

#[test]
fn delivery_order_does_not_depend_on_arrival() {
    // The same two messages arrive in both orders.
    let mut batches = Vec::new();
    for senders in [[0u64, 2], [2, 0]] {
        let mut host = Host::new(Behaviour::OneWay);
        for p in [0u64, 1, 2] {
            host.create(p);
            host.runtime.register_partition(partition_id(p), world_id(p)).unwrap();
        }
        host.runtime.start_world(world_id(1)).unwrap();
        for from in senders {
            host.runtime
                .send_message(partition_id(from), partition_id(1), "transfer", no_args())
                .unwrap();
        }
        assert_eq!(host.runtime.plan_tick(world_id(1)).unwrap().delivered.len(), 0);
        // The world moves on to its next tick without the messages.
        let input = TickInput {
            world: world_id(1),
            frame: frame(0),
            delivered: vec![],
            calls: vec![],
        };
        let run = host.run(input);
        host.runtime.tick_once(run).unwrap();
        let delivered = host.runtime.plan_tick(world_id(1)).unwrap().delivered;
        batches.push(delivered.iter().map(|m| m.from().as_u64()).collect::<Vec<u64>>());
    }
    assert_eq!(batches, vec![vec![0, 2], vec![0, 2]]);
}
