//! The gateway and the server, driven through in-memory connections and a
//! host that runs toy worlds.

use std::collections::BTreeMap;

use nexum::base::change::{Change, ChangeBody, DeliveredRow};
use nexum::base::error::Error;
use nexum::base::ids::{
    ConnectionId, RowId, SubscriptionId, TableId, TickId, TransactionId, Version, WorldId,
};
use nexum::base::input::{InputCommand, InputFrame};
use nexum::base::message::{CallResult, ReducerCall, TickResult};
use nexum::base::query::{Query, QueryParts};
use nexum::base::subscription::SubscriptionUpdate;
use nexum::base::value::{Row, Value};
use nexum::network::auth::{Principal, TokenAuthenticator};
use nexum::network::config::{NetworkConfig, NetworkEvent, OutboundOverflowPolicy};
use nexum::network::error::{NetworkError, TransportError};
use nexum::network::frame::PROTOCOL_VERSION;
use nexum::network::gateway::{NetworkGateway, CALLER_SOURCE_ARG, SERVER_REQUEST_MSB};
use nexum::network::gateway_model::StepReport;
use nexum::network::host::{PendingUpdates, SubscriptionHost};
use nexum::network::policy::{AllowAllPolicy, GamePolicy};
use nexum::network::protocol::{decode_server, encode_client, ClientMessage, DeltaKind, ServerMessage};
use nexum::network::rate::RateLimitConfig;
use nexum::network::server::NexumServer;
use nexum::network::transport::{Connection, MemoryConnection, MemoryTransport, Received};
use nexum::reducer::args::ReducerArgs;
use nexum::runtime::config::RuntimeConfig;
use nexum::runtime::coordinator::Runtime;
use nexum::runtime::error::RuntimeError;
use nexum::runtime::model::RuntimeState;
use nexum::runtime::setup::{LogSetup, WorldSetup};
use nexum::runtime::tick::{TickAnswers, TickError, TickInput, TickRun};
use nexum::runtime::world::WorldLifecycle;

// ---------------------------------------------------------------- the host

#[derive(Clone, Copy, PartialEq)]
enum Behaviour {
    /// One player row per tick.
    Writer,
    /// One player row per `spawn` command.
    Consumer,
    /// One row per command, carrying the command's source.
    Sourcer,
    /// The `bump` and `whoami` reducers.
    Reducers,
    /// One player row per tick; world 1 then fails.
    Failing,
}

struct Subscriber {
    id: u64,
    pending: Vec<SubscriptionUpdate>,
}

struct ToyWorld {
    next_tick: u64,
    rows: Vec<Vec<Value>>,
    commits: u64,
    subscribers: Vec<Subscriber>,
    next_subscriber: u64,
}

struct Host {
    behaviour: Behaviour,
    worlds: BTreeMap<u64, ToyWorld>,
}

fn copy(row: &[Value]) -> Vec<Value> {
    row.iter().map(|v| v.clone()).collect()
}

impl ToyWorld {
    fn delivered(&self, index: usize) -> DeliveredRow {
        DeliveredRow::new(RowId::from_u64(index as u64), Row::new(copy(&self.rows[index])))
    }

    fn all_rows(&self) -> Vec<DeliveredRow> {
        (0..self.rows.len()).map(|i| self.delivered(i)).collect()
    }
}

impl Host {
    fn world(&mut self, world: WorldId) -> Result<&mut ToyWorld, Error> {
        match self.worlds.get_mut(&world.as_u64()) {
            Some(found) => Ok(found),
            None => Err(Error::not_found("world")),
        }
    }

    fn tick(&mut self, input: TickInput) -> TickRun {
        let behaviour = self.behaviour;
        let id = input.world.as_u64();
        let world = self.worlds.get_mut(&id).unwrap();
        let tick = world.next_tick;
        world.next_tick += 1;
        let mut rows = Vec::new();
        let mut failure = None;
        match behaviour {
            Behaviour::Writer => rows.push(player(tick)),
            Behaviour::Failing => {
                rows.push(player(tick));
                if id == 1 {
                    failure = Some(Error::invalid_argument("boom"));
                }
            }
            Behaviour::Consumer => {
                for command in &input.frame.commands {
                    if command.kind() == "spawn" {
                        rows.push(player(command.payload().as_ref().and_then(Value::as_u64).unwrap()));
                    }
                }
            }
            Behaviour::Sourcer => {
                for command in &input.frame.commands {
                    rows.push(player(command.source()));
                }
            }
            Behaviour::Reducers => {}
        }
        let results: Vec<CallResult> = input.calls.iter().map(run_call).collect();
        let outcome = match failure {
            Some(error) => Err(TickError { tick: TickId::from_u64(tick), error }),
            None => {
                let mut changes = Vec::new();
                for row in rows {
                    let row_id = RowId::from_u64(world.rows.len() as u64);
                    changes.push(Change::insert(
                        TableId::from_u64(0),
                        row_id,
                        Row::new(copy(&row)),
                        Version::from_u64(1),
                    ));
                    world.rows.push(row);
                    let index = world.rows.len() - 1;
                    for s in 0..world.subscribers.len() {
                        let update = SubscriptionUpdate::Insert {
                            seq: world.commits,
                            row: world.delivered(index),
                        };
                        world.subscribers[s].pending.push(update);
                    }
                }
                if changes.len() > 0 {
                    world.commits += 1;
                }
                Ok(TickResult {
                    tick: TickId::from_u64(tick),
                    tx_id: TransactionId::from_u64(tick + 1),
                    changes,
                    events: vec![],
                    outbound: vec![],
                    reducer_results: results,
                })
            }
        };
        let next_tick = TickId::from_u64(world.next_tick);
        TickRun {
            input,
            answers: TickAnswers {
                outcome,
                next_tick,
                duration_ns: 1,
                appended: Ok(()),
                snapshot_written: false,
            },
        }
    }
}

fn player(id: u64) -> Vec<Value> {
    vec![Value::U64(id), Value::U64(10), Value::I32(100)]
}

fn run_call(call: &ReducerCall) -> CallResult {
    let outcome = match call.reducer() {
        "bump" => match call.args().get("player") {
            Some(_) => Err(Error::not_found("player")),
            None => Err(Error::invalid_argument("player id required")),
        },
        "whoami" => Ok(match call.args().get(CALLER_SOURCE_ARG) {
            Some(value) => value.clone(),
            None => Value::U64(0),
        }),
        _ => Err(Error::not_found("reducer is not registered")),
    };
    CallResult { request_id: call.request_id(), outcome }
}

impl SubscriptionHost for Host {
    fn subscribe(&mut self, world: WorldId, query: &Query) -> Result<SubscriptionId, Error> {
        if query.parts().table != "players" {
            return Err(Error::not_found("table"));
        }
        let world = self.world(world)?;
        let id = world.next_subscriber;
        world.next_subscriber += 1;
        let rows = world.all_rows();
        let seq = world.commits;
        world.subscribers.push(Subscriber {
            id,
            pending: vec![SubscriptionUpdate::Initial { seq, rows }],
        });
        Ok(SubscriptionId::from_u64(id))
    }

    fn resync(&mut self, world: WorldId, subscription: SubscriptionId) -> Result<(), Error> {
        let world = self.world(world)?;
        let rows = world.all_rows();
        let seq = world.commits;
        for subscriber in &mut world.subscribers {
            if subscriber.id == subscription.as_u64() {
                subscriber.pending = vec![SubscriptionUpdate::Resync { seq, rows }];
                return Ok(());
            }
        }
        Err(Error::not_found("subscription"))
    }

    fn unsubscribe(&mut self, world: WorldId, subscription: SubscriptionId) -> Result<(), Error> {
        let world = self.world(world)?;
        world.subscribers.retain(|s| s.id != subscription.as_u64());
        Ok(())
    }

    fn drain(
        &mut self,
        world: WorldId,
        subscription: SubscriptionId,
    ) -> Result<Vec<SubscriptionUpdate>, Error> {
        for subscriber in &mut self.world(world)?.subscribers {
            if subscriber.id == subscription.as_u64() {
                return Ok(std::mem::take(&mut subscriber.pending));
            }
        }
        Err(Error::not_found("subscription"))
    }

    fn drain_all(&mut self, world: WorldId) -> Result<Vec<PendingUpdates>, Error> {
        let mut drained = Vec::new();
        for subscriber in &mut self.world(world)?.subscribers {
            if subscriber.pending.len() > 0 {
                drained.push(PendingUpdates {
                    subscription: SubscriptionId::from_u64(subscriber.id),
                    updates: std::mem::take(&mut subscriber.pending),
                });
            }
        }
        Ok(drained)
    }
}

// -------------------------------------------------------------- the fixture

fn test_authenticator() -> TokenAuthenticator {
    let mut auth = TokenAuthenticator::new();
    auth.add("alice-token", Principal::new(1, "alice")).unwrap();
    auth.add("bob-token", Principal::new(2, "bob")).unwrap();
    auth
}

fn world_id(id: u64) -> WorldId {
    WorldId::from_u64(id)
}

fn world_setup() -> WorldSetup {
    WorldSetup { built: Ok(()), next_tick: TickId::from_u64(0), calls_per_tick: 256 }
}

fn log_setup() -> LogSetup {
    LogSetup { dir_ready: Ok(()), log_exists: false, log_created: Ok(()) }
}

struct Fixture<P> {
    gateway: NetworkGateway<MemoryConnection, TokenAuthenticator, P>,
    host: Host,
    max: u32,
}

fn fixture(behaviour: Behaviour, config: NetworkConfig) -> Fixture<AllowAllPolicy> {
    fixture_with(behaviour, config, AllowAllPolicy)
}

fn fixture_with<P: GamePolicy>(behaviour: Behaviour, config: NetworkConfig, policy: P) -> Fixture<P> {
    let runtime = Runtime::new(RuntimeConfig::new()).unwrap();
    let max = config.max_frame_payload();
    let gateway =
        NetworkGateway::with_policy(runtime, config, test_authenticator(), policy).unwrap();
    Fixture { gateway, host: Host { behaviour, worlds: BTreeMap::new() }, max }
}

impl<P: GamePolicy> Fixture<P> {
    fn create_world(&mut self, id: u64) {
        let mut control = self.gateway.control();
        control.create_partition(world_id(id), world_setup(), log_setup()).unwrap();
        control.start_partition(world_id(id)).unwrap();
        self.add_toy(id);
    }

    fn add_toy(&mut self, id: u64) {
        let toy = ToyWorld {
            next_tick: 0,
            rows: Vec::new(),
            commits: 0,
            subscribers: Vec::new(),
            next_subscriber: 0,
        };
        self.host.worlds.insert(id, toy);
    }

    /// Registers a fresh memory connection and returns its client end.
    fn connect(&mut self) -> (ConnectionId, MemoryConnection) {
        let (server, client) = MemoryTransport::connect(
            self.gateway.config().max_queued_inbound_frames(),
            self.gateway.config().max_queued_outbound_frames(),
        );
        let id = self.gateway.register_connection(server).unwrap();
        (id, client)
    }

    fn process(&mut self) {
        self.gateway.process_inbound(&mut self.host, 0);
    }

    fn runs(&mut self) -> Vec<TickRun> {
        let inputs = self.gateway.runtime_mut().plan_step().unwrap();
        inputs.into_iter().map(|input| self.host.tick(input)).collect()
    }

    fn step(&mut self) -> StepReport {
        let runs = self.runs();
        self.gateway.step_worlds(&mut self.host, runs).unwrap()
    }

    fn send(&self, client: &mut MemoryConnection, message: ClientMessage) {
        let frame = encode_client(&message, self.max).unwrap();
        client.try_send_frame(frame).unwrap();
    }

    fn recv(&self, client: &mut MemoryConnection) -> ServerMessage {
        recv_any(client, self.max).expect("expected a server message")
    }

    /// Sends a message, processes it, and returns the answer.
    fn ask(&mut self, client: &mut MemoryConnection, message: ClientMessage) -> ServerMessage {
        self.send(client, message);
        self.process();
        self.recv(client)
    }

    fn handshake(&mut self, client: &mut MemoryConnection) {
        let message =
            ClientMessage::Handshake { version: PROTOCOL_VERSION, name: "tester".into() };
        let answer = self.ask(client, message);
        assert!(matches!(
            answer,
            ServerMessage::HandshakeResponse { version, .. } if version == PROTOCOL_VERSION
        ));
    }

    fn authenticate(&mut self, client: &mut MemoryConnection, token: &str) {
        let answer = self.ask(client, ClientMessage::Authenticate { credentials: token.into() });
        assert!(matches!(answer, ServerMessage::AuthResult { ok: true, .. }));
    }

    fn attach(&mut self, client: &mut MemoryConnection, world: WorldId) {
        let answer = self.ask(client, ClientMessage::AttachWorld { world });
        assert!(matches!(
            answer,
            ServerMessage::AttachResult { ok: true, world: Some(w), .. } if w == world
        ));
    }

    fn join(&mut self, client: &mut MemoryConnection, token: &str, world: u64) {
        self.handshake(client);
        self.authenticate(client, token);
        self.attach(client, world_id(world));
    }

    /// Subscribes to `players` and returns the subscription's id.
    fn subscribe_players(&mut self, client: &mut MemoryConnection) -> SubscriptionId {
        match self.ask(client, subscribe(0)) {
            ServerMessage::SubscriptionSnapshot { subscription, .. } => subscription,
            other => panic!("expected initial snapshot, got {other:?}"),
        }
    }

    fn world_state(&self, id: u64) -> WorldLifecycle {
        self.gateway.runtime().world_status(world_id(id)).unwrap().state
    }

    fn next_tick(&self, id: u64) -> u64 {
        self.gateway.runtime().world_status(world_id(id)).unwrap().next_tick.as_u64()
    }
}

/// What a client receives next, as a message or as a frame.
fn recv_any(client: &mut MemoryConnection, max: u32) -> Option<ServerMessage> {
    match client.try_recv_any().unwrap() {
        Some(Received::Message(message)) => Some(message),
        Some(Received::Frame(frame)) => Some(decode_server(&frame, max).unwrap()),
        None => None,
    }
}

fn nothing(client: &mut MemoryConnection) -> bool {
    client.try_recv_any().unwrap().is_none()
}

fn subscribe(request_id: u64) -> ClientMessage {
    ClientMessage::Subscribe {
        request_id,
        query: Query::build(QueryParts::all("players")).unwrap(),
    }
}

fn call(request_id: u64, reducer: &str, args: ReducerArgs) -> ClientMessage {
    ClientMessage::CallReducer { request_id, reducer: reducer.into(), args }
}

fn no_args() -> ReducerArgs {
    ReducerArgs::new()
}

fn player_one() -> ReducerArgs {
    ReducerArgs::new().insert("player", Value::U64(1))
}

fn empty_frame(tick: u64) -> ClientMessage {
    ClientMessage::InputFrame { frame: InputFrame::new(TickId::from_u64(tick)) }
}

fn input(tick: u64, source: u64, kind: &str, payload: Option<Value>) -> ClientMessage {
    let mut frame = InputFrame::new(TickId::from_u64(tick));
    frame.push(InputCommand::new(source, kind, payload).unwrap());
    ClientMessage::InputFrame { frame }
}

fn inserted(change: &Change) -> &Row {
    match &change.body {
        ChangeBody::Insert { row, .. } => row,
        other => panic!("expected an insert, got {other:?}"),
    }
}

/// A configuration whose tick updates carry the changes.
fn with_changes() -> NetworkConfig {
    NetworkConfig::new().with_tick_update_changes(true)
}

// ---------------------------------------------------------------- security

#[test]
fn protocol_violations_disconnect_the_connection() {
    let mut f = fixture(Behaviour::Writer, NetworkConfig::new());
    f.create_world(0);
    let (_, mut client) = f.connect();
    client.try_send_frame(b"GARBAGEGARBAGE".to_vec()).unwrap();
    f.process();
    assert_eq!(f.gateway.connection_count(), 0);
    let metrics = f.gateway.metrics();
    assert_eq!(metrics.frames_rejected, 1);
    assert_eq!(metrics.protocol_errors, 1);
    assert_eq!(metrics.clients_dropped, 1);
    // Events are bounded and observable.
    let events = f.gateway.drain_events();
    assert!(events.iter().any(|e| matches!(e, NetworkEvent::ProtocolError { .. })));
    assert_eq!(f.gateway.event_count(), 0);
}

#[test]
fn command_floods_are_rejected() {
    let config = NetworkConfig::new().with_max_commands_per_frame(1);
    let mut f = fixture(Behaviour::Consumer, config);
    f.create_world(0);
    let (_, mut client) = f.connect();
    f.join(&mut client, "alice-token", 0);
    let mut frame = InputFrame::new(TickId::from_u64(0));
    frame.push(InputCommand::new(1, "spawn", Some(Value::U64(1))).unwrap());
    frame.push(InputCommand::new(1, "spawn", Some(Value::U64(2))).unwrap());
    let answer = f.ask(&mut client, ClientMessage::InputFrame { frame });
    assert!(matches!(answer, ServerMessage::Error { code: 17, .. }));
    assert_eq!(f.gateway.metrics().inputs_rejected, 1);
}

#[test]
fn subscription_floods_are_rejected() {
    let config = NetworkConfig::new().with_max_subscriptions_per_session(1);
    let mut f = fixture(Behaviour::Writer, config);
    f.create_world(0);
    let (_, mut client) = f.connect();
    f.join(&mut client, "alice-token", 0);
    f.subscribe_players(&mut client);
    // A second subscription exceeds the per-session bound.
    let answer = f.ask(&mut client, subscribe(0));
    assert!(matches!(answer, ServerMessage::Error { code: 17, .. }));
}

#[test]
fn invalid_credentials_are_rejected_and_leave_the_session_unauthenticated() {
    let mut f = fixture(Behaviour::Writer, NetworkConfig::new());
    f.create_world(0);
    let (_, mut client) = f.connect();
    f.handshake(&mut client);
    let answer = f.ask(&mut client, ClientMessage::Authenticate { credentials: "wrong".into() });
    assert!(matches!(
        answer,
        ServerMessage::AuthResult { ok: false, principal: None, error: Some(_) }
    ));
    assert_eq!(f.gateway.metrics().auth_failures, 1);
    // The session never authenticated: attach is rejected.
    let answer = f.ask(&mut client, ClientMessage::AttachWorld { world: world_id(0) });
    assert!(matches!(answer, ServerMessage::Error { code: 20, .. }));
}

#[test]
fn operations_without_auth_or_attachment_are_rejected() {
    let mut f = fixture(Behaviour::Consumer, NetworkConfig::new());
    f.create_world(0);
    let (_, mut client) = f.connect();
    f.handshake(&mut client);

    // Input before authentication.
    let answer = f.ask(&mut client, empty_frame(0));
    assert!(matches!(answer, ServerMessage::Error { code: 20, .. }));

    // Authenticated but not attached: input and subscribe rejected.
    f.authenticate(&mut client, "alice-token");
    let answer = f.ask(&mut client, empty_frame(0));
    assert!(matches!(answer, ServerMessage::Error { code: 21, .. }));
    let answer = f.ask(&mut client, subscribe(0));
    assert!(matches!(answer, ServerMessage::Error { code: 21, .. }));
}

#[test]
fn another_protocol_version_is_disconnected() {
    let mut f = fixture(Behaviour::Writer, NetworkConfig::new());
    let (_, mut client) = f.connect();
    let answer = f.ask(
        &mut client,
        ClientMessage::Handshake { version: PROTOCOL_VERSION + 1, name: "old".into() },
    );
    assert!(matches!(answer, ServerMessage::Error { code: 2, .. }));
    assert!(matches!(f.recv(&mut client), ServerMessage::Disconnect { .. }));
    assert_eq!(f.gateway.connection_count(), 0);
}

#[test]
fn rate_limits_answer_with_the_request() {
    let limits = RateLimitConfig::new().with_subscribe_per_window(1, 60);
    let mut f = fixture(Behaviour::Writer, NetworkConfig::new().with_rate_limits(limits));
    f.create_world(0);
    let (_, mut client) = f.connect();
    f.join(&mut client, "alice-token", 0);
    f.subscribe_players(&mut client);
    let answer = f.ask(&mut client, subscribe(41));
    assert!(matches!(answer, ServerMessage::Error { code: 19, request_id: 41, .. }));
    assert_eq!(f.gateway.metrics().rate_limited, 1);
}

#[test]
fn connections_are_limited_and_named() {
    let mut f = fixture(Behaviour::Writer, NetworkConfig::new().with_max_connections(1));
    let (id, _client) = f.connect();
    let (server, _other) = MemoryTransport::connect(4, 4);
    assert!(matches!(
        f.gateway.register_connection(server),
        Err(NetworkError::ConnectionLimit)
    ));
    assert!(f.gateway.connection_peer(id).is_ok());
    let unknown = ConnectionId::from_u64(9);
    assert!(matches!(
        f.gateway.connection_peer(unknown),
        Err(NetworkError::UnknownConnection(_))
    ));
}

// ---------------------------------------------------------------- sessions

#[test]
fn session_lifecycle_attach_detach_reconnect() {
    let mut f = fixture(Behaviour::Consumer, NetworkConfig::new());
    f.create_world(0);
    let (conn, mut client) = f.connect();
    f.join(&mut client, "alice-token", 0);
    assert_eq!(f.gateway.metrics().sessions, 1);
    assert_eq!(f.gateway.metrics().attached, 1);
    assert!(f.gateway.session_of(conn).is_some());
    assert_eq!(f.gateway.session_of(conn).unwrap().principal().id(), 1);

    // Detach ends the attachment.
    let answer = f.ask(&mut client, ClientMessage::DetachWorld);
    assert!(matches!(answer, ServerMessage::DetachResult { ok: true, .. }));
    assert_eq!(f.gateway.metrics().attached, 0);
    assert!(!f.gateway.session_of(conn).unwrap().is_attached());
    // Detaching again is rejected (nothing to detach).
    let answer = f.ask(&mut client, ClientMessage::DetachWorld);
    assert!(matches!(answer, ServerMessage::Error { code: 21, .. }));

    // Reattach.
    f.attach(&mut client, world_id(0));
    assert_eq!(f.gateway.metrics().attached, 1);

    // Duplicate authentication is rejected.
    let answer =
        f.ask(&mut client, ClientMessage::Authenticate { credentials: "alice-token".into() });
    assert!(matches!(answer, ServerMessage::Error { code: 20, .. }));

    // A fresh connection can authenticate as a different principal.
    f.gateway.disconnect(&mut f.host, conn, "test").unwrap();
    assert_eq!(f.gateway.connection_count(), 0);
    let (conn2, mut client2) = f.connect();
    f.handshake(&mut client2);
    f.authenticate(&mut client2, "bob-token");
    assert_eq!(f.gateway.session_of(conn2).unwrap().principal().id(), 2);
}

#[test]
fn duplicate_attachment_is_idempotent_and_cross_world_attach_is_rejected() {
    let mut f = fixture(Behaviour::Consumer, NetworkConfig::new());
    f.create_world(0);
    f.create_world(1);
    let (conn, mut client) = f.connect();
    f.join(&mut client, "alice-token", 0);

    // Same world: idempotent success.
    let answer = f.ask(&mut client, ClientMessage::AttachWorld { world: world_id(0) });
    assert!(matches!(
        answer,
        ServerMessage::AttachResult { ok: true, world: Some(w), .. } if w.as_u64() == 0
    ));

    // Different world while attached: rejected.
    let answer = f.ask(&mut client, ClientMessage::AttachWorld { world: world_id(1) });
    assert!(matches!(answer, ServerMessage::Error { code: 21, .. }));
    // Still attached to world 0.
    assert_eq!(f.gateway.session_of(conn).unwrap().attached_world(), Some(world_id(0)));
}

// ---------------------------------------------------------------- routing

#[test]
fn inputs_reach_the_attached_world() {
    let mut f = fixture(Behaviour::Consumer, with_changes());
    f.create_world(0);
    let (_, mut client) = f.connect();
    f.join(&mut client, "alice-token", 0);
    let sub = f.subscribe_players(&mut client);

    f.send(&mut client, input(0, 1, "spawn", Some(Value::U64(42))));
    f.process();
    f.step();

    // The client receives exactly one TickUpdate (world 0, tick 0) whose
    // single change is the committed insert.
    match f.recv(&mut client) {
        ServerMessage::TickUpdate { world, tick, changes, .. } => {
            assert_eq!(world, world_id(0));
            assert_eq!(tick, TickId::from_u64(0));
            assert_eq!(changes.len(), 1);
            assert_eq!(inserted(&changes[0]).values()[0], Value::U64(42));
        }
        other => panic!("expected TickUpdate, got {other:?}"),
    }
    // ...then the subscription delta.
    match f.recv(&mut client) {
        ServerMessage::SubscriptionDelta { subscription, kind, row, .. } => {
            assert_eq!(subscription, sub);
            assert_eq!(kind, DeltaKind::Insert);
            let row = row.expect("insert delta carries a row");
            assert_eq!(row.row.values()[0], Value::U64(42));
        }
        other => panic!("expected delta, got {other:?}"),
    }

    let metrics = f.gateway.metrics();
    assert_eq!(metrics.inputs_accepted, 1);
    assert_eq!(metrics.tick_updates_sent, 1);
    assert!(metrics.subscription_messages_sent >= 2); // snapshot + delta
}

#[test]
fn tick_updates_carry_no_changes_by_default() {
    let mut f = fixture(Behaviour::Writer, NetworkConfig::new());
    f.create_world(0);
    let (_, mut client) = f.connect();
    f.join(&mut client, "alice-token", 0);
    f.step();
    match f.recv(&mut client) {
        ServerMessage::TickUpdate { changes, .. } => assert_eq!(changes.len(), 0),
        other => panic!("expected TickUpdate, got {other:?}"),
    }
}

#[test]
fn empty_broadcasts_can_be_skipped() {
    let config = NetworkConfig::new().with_skip_empty_broadcast(true);
    let mut f = fixture(Behaviour::Writer, config);
    f.create_world(0);
    let (_, mut client) = f.connect();
    f.join(&mut client, "alice-token", 0);
    let report = f.step();
    assert_eq!(report.worlds, 1);
    assert_eq!(report.tick_updates_sent, 0);
    assert!(nothing(&mut client));
}

#[test]
fn command_sources_are_stamped_with_the_principal_id() {
    // Alice's principal id is 1; a client-forged source of 999 must be
    // replaced by the server before the command reaches the world.
    let mut f = fixture(Behaviour::Sourcer, with_changes());
    f.create_world(0);
    let (_, mut client) = f.connect();
    f.join(&mut client, "alice-token", 0);

    f.send(&mut client, input(0, 999, "spawn", None));
    f.process();
    f.step();

    match f.recv(&mut client) {
        ServerMessage::TickUpdate { changes, .. } => {
            assert_eq!(changes.len(), 1);
            // The row's id column carries the stamped principal id (1),
            // never the client-supplied source (999).
            assert_eq!(inserted(&changes[0]).values()[0], Value::U64(1));
        }
        other => panic!("expected TickUpdate, got {other:?}"),
    }
}

#[test]
fn inputs_never_reach_another_world() {
    let mut f = fixture(Behaviour::Consumer, with_changes());
    f.create_world(0);
    f.create_world(1);

    let (_, mut a) = f.connect();
    f.join(&mut a, "alice-token", 0);
    f.subscribe_players(&mut a);

    let (_, mut b) = f.connect();
    f.join(&mut b, "bob-token", 1);
    f.subscribe_players(&mut b);

    // A spawns a player in world 0.
    f.send(&mut a, input(0, 1, "spawn", Some(Value::U64(42))));
    f.process();
    f.step();

    // A observes world 0's commit and insert delta.
    let msg = f.recv(&mut a);
    assert!(matches!(
        &msg,
        ServerMessage::TickUpdate { world, changes, .. } if world.as_u64() == 0 && changes.len() == 1
    ));
    let msg = f.recv(&mut a);
    assert!(matches!(
        &msg,
        ServerMessage::SubscriptionDelta { kind: DeltaKind::Insert, row, .. } if row.is_some()
    ));

    // B observes world 1's (empty) commit and nothing else.
    let msg = f.recv(&mut b);
    assert!(matches!(
        &msg,
        ServerMessage::TickUpdate { world, changes, .. } if world.as_u64() == 1 && changes.is_empty()
    ));
    assert!(nothing(&mut b));
}

#[test]
fn unknown_worlds_are_rejected_at_attach() {
    let mut f = fixture(Behaviour::Writer, NetworkConfig::new());
    f.create_world(0);
    let (_, mut client) = f.connect();
    f.handshake(&mut client);
    f.authenticate(&mut client, "alice-token");
    let answer = f.ask(&mut client, ClientMessage::AttachWorld { world: world_id(99) });
    assert!(matches!(
        answer,
        ServerMessage::AttachResult { ok: false, world: None, error: Some(_) }
    ));
}

#[test]
fn failed_worlds_reject_input() {
    let mut f = fixture(Behaviour::Failing, NetworkConfig::new());
    f.create_world(1);
    let (_, mut client) = f.connect();
    f.join(&mut client, "alice-token", 1);

    f.step();
    assert_eq!(f.world_state(1), WorldLifecycle::Failed);

    let answer = f.ask(&mut client, empty_frame(1));
    assert!(matches!(answer, ServerMessage::Error { .. }));
    assert_eq!(f.gateway.metrics().inputs_rejected, 1);
}

// ---------------------------------------------------------- reducer calls

#[test]
fn reducer_call_executes_in_the_next_tick_and_returns_a_correlated_result() {
    let mut f = fixture(Behaviour::Reducers, NetworkConfig::new());
    f.create_world(0);
    let (_, mut client) = f.connect();
    f.join(&mut client, "alice-token", 0);

    let request = 7;
    f.send(&mut client, call(request, "bump", player_one()));
    f.process();
    assert_eq!(f.gateway.metrics().reducer_calls_accepted, 1);
    f.step();
    // The tick's broadcast arrives first; the correlated result follows.
    assert!(matches!(f.recv(&mut client), ServerMessage::TickUpdate { .. }));
    match f.recv(&mut client) {
        ServerMessage::ReducerResult { request_id, ok: false, error, .. } => {
            // The reducer ran inside the world and reported not-found: a
            // correlated failure, not a generic error.
            assert_eq!(request_id, request);
            assert!(error.as_ref().unwrap().contains("not found"), "{error:?}");
        }
        other => panic!("expected ReducerResult, got {other:?}"),
    }
}

#[test]
fn reducer_calls_require_auth_and_attachment_and_reject_duplicates() {
    let config = NetworkConfig::new().with_max_pending_calls_per_connection(1);
    let mut f = fixture(Behaviour::Reducers, config);
    f.create_world(0);
    let (_, mut client) = f.connect();

    // No authentication: correlated failure via ReducerResult.
    f.handshake(&mut client);
    let answer = f.ask(&mut client, call(1, "bump", no_args()));
    assert!(matches!(answer, ServerMessage::ReducerResult { request_id: 1, ok: false, .. }));
    assert_eq!(f.gateway.metrics().reducer_calls_rejected, 1);

    // Authenticated but not attached: correlated failure.
    f.authenticate(&mut client, "alice-token");
    let answer = f.ask(&mut client, call(2, "bump", no_args()));
    assert!(matches!(answer, ServerMessage::ReducerResult { request_id: 2, ok: false, .. }));

    // Attached: the first call is accepted and stays pending.
    f.attach(&mut client, world_id(0));
    f.send(&mut client, call(3, "bump", player_one()));
    f.process();
    assert_eq!(f.gateway.metrics().reducer_calls_accepted, 1);

    // A duplicate request id (same world, still pending) is rejected.
    let answer = f.ask(&mut client, call(3, "bump", player_one()));
    assert!(matches!(answer, ServerMessage::ReducerResult { request_id: 3, ok: false, .. }));

    // The pending-cap (1) rejects a second distinct call while the first is
    // still pending.
    let answer = f.ask(&mut client, call(4, "bump", player_one()));
    assert!(matches!(answer, ServerMessage::ReducerResult { request_id: 4, ok: false, .. }));
    assert_eq!(f.gateway.metrics().reducer_calls_rejected, 4); // auth + attach + dup + cap

    // The first call still commits on the next tick (never lost). The
    // tick's broadcast precedes the correlated result.
    f.step();
    assert!(matches!(f.recv(&mut client), ServerMessage::TickUpdate { .. }));
    assert!(matches!(
        f.recv(&mut client),
        ServerMessage::ReducerResult { request_id: 3, ok: false, .. }
    ));
    assert_eq!(f.gateway.metrics().reducer_results_sent, 1);
}

#[test]
fn long_names_and_many_arguments_are_refused() {
    let config = NetworkConfig::new().with_max_reducer_name_len(3).with_max_reducer_args(1);
    let mut f = fixture(Behaviour::Reducers, config);
    f.create_world(0);
    let (_, mut client) = f.connect();
    f.join(&mut client, "alice-token", 0);
    match f.ask(&mut client, call(1, "bump", no_args())) {
        ServerMessage::ReducerResult { error, .. } => {
            assert_eq!(error.unwrap(), "reducer name too long")
        }
        other => panic!("expected ReducerResult, got {other:?}"),
    }
    let args = player_one().insert("x", Value::U64(1));
    match f.ask(&mut client, call(2, "bum", args)) {
        ServerMessage::ReducerResult { error, .. } => {
            assert_eq!(error.unwrap(), "too many reducer arguments")
        }
        other => panic!("expected ReducerResult, got {other:?}"),
    }
}

#[test]
fn stopped_world_answers_pending_reducer_calls_with_a_correlated_failure() {
    let mut f = fixture(Behaviour::Reducers, NetworkConfig::new());
    f.create_world(0);
    let (_, mut client) = f.connect();
    f.join(&mut client, "alice-token", 0);

    // Accept a call, then stop the world before it can execute.
    f.send(&mut client, call(1, "bump", no_args()));
    f.process();
    assert_eq!(f.gateway.metrics().reducer_calls_accepted, 1);

    f.gateway.control().stop_partition(world_id(0)).unwrap();
    f.step();

    // The pending call is resolved with a correlated failure, never a hang.
    match f.recv(&mut client) {
        ServerMessage::ReducerResult { request_id, ok: false, error, .. } => {
            assert_eq!(request_id, 1);
            assert!(error.unwrap().contains("no longer running"));
        }
        other => panic!("expected ReducerResult, got {other:?}"),
    }
    assert_eq!(f.gateway.metrics().reducer_results_sent, 1);

    // No pending call remains: further steps produce nothing.
    f.step();
    assert!(nothing(&mut client));
}

#[test]
fn destroyed_world_answers_pending_reducer_calls_with_a_correlated_failure() {
    let mut f = fixture(Behaviour::Reducers, NetworkConfig::new());
    f.create_world(0);
    let (_, mut client) = f.connect();
    f.join(&mut client, "alice-token", 0);

    f.send(&mut client, call(2, "bump", no_args()));
    f.process();
    assert_eq!(f.gateway.metrics().reducer_calls_accepted, 1);

    // Destroy the world while the call is pending.
    f.gateway.control().destroy_partition(world_id(0)).unwrap();
    f.step();

    match f.recv(&mut client) {
        ServerMessage::ReducerResult { request_id, ok: false, .. } => assert_eq!(request_id, 2),
        other => panic!("expected ReducerResult, got {other:?}"),
    }
    assert_eq!(f.gateway.metrics().reducer_results_sent, 1);
    f.step();
    assert!(nothing(&mut client));
}

#[test]
fn calls_to_a_destroyed_world_are_rejected_with_a_correlated_failure() {
    let mut f = fixture(Behaviour::Reducers, NetworkConfig::new());
    f.create_world(0);
    let (_, mut client) = f.connect();
    f.join(&mut client, "alice-token", 0);

    // The world disappears behind the session's back; a later call is
    // rejected by the runtime and answered with a correlated ReducerResult.
    f.gateway.control().destroy_partition(world_id(0)).unwrap();
    let answer = f.ask(&mut client, call(5, "bump", no_args()));
    assert!(matches!(answer, ServerMessage::ReducerResult { request_id: 5, ok: false, .. }));
    assert_eq!(f.gateway.metrics().reducer_calls_rejected, 1);
}

#[test]
fn disconnecting_cleans_pending_reducer_calls_without_disturbing_the_world() {
    let mut f = fixture(Behaviour::Reducers, NetworkConfig::new());
    f.create_world(0);
    let (conn, mut client) = f.connect();
    f.join(&mut client, "alice-token", 0);

    f.send(&mut client, call(3, "bump", no_args()));
    f.process();
    assert_eq!(f.gateway.metrics().reducer_calls_accepted, 1);

    // The client disconnects while its call is pending: the pending entry is
    // dropped, and the world keeps ticking.
    f.gateway.disconnect(&mut f.host, conn, "gone").unwrap();
    assert_eq!(f.gateway.connection_count(), 0);
    f.step();
    assert_eq!(f.gateway.runtime().metrics(0).ticks_succeeded, 1);
    assert_eq!(f.gateway.metrics().reducer_results_sent, 0);
    // No stale entry routes anything anywhere later.
    f.step();
    assert_eq!(f.gateway.runtime().metrics(0).ticks_succeeded, 2);
}

#[test]
fn concurrent_pending_calls_across_clients_never_cross_consume_results() {
    let mut f = fixture(Behaviour::Reducers, NetworkConfig::new());
    f.create_world(0);
    let (_, mut a) = f.connect();
    f.join(&mut a, "alice-token", 0);
    let (_, mut b) = f.connect();
    f.join(&mut b, "bob-token", 0);

    // Both clients pick request id 1 on the same world. Request ids are
    // unique per connection only, so both calls are accepted.
    f.send(&mut a, call(1, "bump", no_args()));
    f.send(&mut b, call(1, "bump", no_args()));
    f.process();
    assert_eq!(f.gateway.metrics().reducer_calls_accepted, 2);
    assert_eq!(f.gateway.metrics().reducer_calls_rejected, 0);
    assert!(nothing(&mut a));
    assert!(nothing(&mut b));

    // Both execute: each client receives the tick broadcast and exactly one
    // terminal result, under its own id, and never the other's.
    f.step();
    for client in [&mut a, &mut b] {
        assert!(matches!(f.recv(client), ServerMessage::TickUpdate { .. }));
        assert!(matches!(f.recv(client), ServerMessage::ReducerResult { request_id: 1, .. }));
        assert!(nothing(client));
    }
    assert_eq!(f.gateway.metrics().reducer_results_sent, 2);
}

#[test]
fn request_ids_are_the_clients_own() {
    // Two clients use the same request id at the same time; each receives
    // its own result.
    let mut f = fixture(Behaviour::Reducers, NetworkConfig::new());
    f.create_world(0);
    let (_, mut a) = f.connect();
    f.join(&mut a, "alice-token", 0);
    let (_, mut b) = f.connect();
    f.join(&mut b, "bob-token", 0);

    f.send(&mut a, call(1, "whoami", no_args()));
    f.send(&mut b, call(1, "whoami", no_args()));
    f.process();
    assert_eq!(f.gateway.metrics().reducer_calls_accepted, 2);
    f.step();
    for (client, id) in [(&mut a, 1u64), (&mut b, 2)] {
        assert!(matches!(f.recv(client), ServerMessage::TickUpdate { .. }));
        match f.recv(client) {
            ServerMessage::ReducerResult { request_id: 1, ok: true, value, .. } => {
                assert_eq!(value, Some(Value::U64(id)))
            }
            other => panic!("expected ReducerResult, got {other:?}"),
        }
        assert!(nothing(client));
    }
}

#[test]
fn stopped_world_calls_fail_and_restart_accepts_new_calls() {
    let mut f = fixture(Behaviour::Reducers, NetworkConfig::new());
    f.create_world(0);
    let (_, mut client) = f.connect();
    f.join(&mut client, "alice-token", 0);

    // A pending call fails when the world stops.
    f.send(&mut client, call(1, "bump", no_args()));
    f.process();
    f.gateway.control().stop_partition(world_id(0)).unwrap();
    f.step();
    assert!(matches!(
        f.recv(&mut client),
        ServerMessage::ReducerResult { request_id: 1, ok: false, .. }
    ));

    // Restart: a fresh call (new request id) executes on the next tick.
    f.gateway.control().start_partition(world_id(0)).unwrap();
    f.send(&mut client, call(2, "bump", no_args()));
    f.process();
    assert_eq!(f.gateway.metrics().reducer_calls_accepted, 2);
    f.step();
    assert!(matches!(f.recv(&mut client), ServerMessage::TickUpdate { .. }));
    assert!(matches!(f.recv(&mut client), ServerMessage::ReducerResult { request_id: 2, .. }));
    assert_eq!(f.gateway.metrics().reducer_results_sent, 2);
}

// ----------------------------------------------------------- subscriptions

#[test]
fn subscription_snapshot_and_delta_delivery_and_unsubscribe() {
    let mut f = fixture(Behaviour::Writer, NetworkConfig::new());
    f.create_world(0);
    let (_, mut client) = f.connect();
    f.join(&mut client, "alice-token", 0);
    let sub = f.subscribe_players(&mut client);

    // After one tick: TickUpdate + an insert delta.
    f.step();
    assert!(matches!(f.recv(&mut client), ServerMessage::TickUpdate { .. }));
    assert!(matches!(
        f.recv(&mut client),
        ServerMessage::SubscriptionDelta {
            subscription: s, kind: DeltaKind::Insert, row: Some(_), ..
        } if s == sub
    ));

    // Unsubscribe: no further deltas, but the attachment broadcast remains.
    f.send(&mut client, ClientMessage::Unsubscribe { subscription: sub });
    f.process();
    assert_eq!(f.host.worlds[&0].subscribers.len(), 0);
    f.step();
    assert!(matches!(f.recv(&mut client), ServerMessage::TickUpdate { .. }));
    assert!(nothing(&mut client));

    // Unsubscribing an unknown subscription reports an error.
    let answer = f.ask(&mut client, ClientMessage::Unsubscribe { subscription: sub });
    assert!(matches!(answer, ServerMessage::Error { code: 22, .. }));
}

#[test]
fn the_snapshot_and_a_rejection_carry_the_request() {
    let mut f = fixture(Behaviour::Writer, NetworkConfig::new());
    f.create_world(0);
    let (_, mut client) = f.connect();
    f.join(&mut client, "alice-token", 0);
    assert!(matches!(
        f.ask(&mut client, subscribe(31)),
        ServerMessage::SubscriptionSnapshot { request_id: 31, .. }
    ));
    let query = Query::build(QueryParts::all("nope")).unwrap();
    let answer = f.ask(&mut client, ClientMessage::Subscribe { request_id: 32, query });
    assert!(matches!(answer, ServerMessage::Error { code: 10, request_id: 32, .. }));
}

#[test]
fn several_deltas_go_in_one_batch() {
    let mut f = fixture(Behaviour::Consumer, NetworkConfig::new());
    f.create_world(0);
    let (_, mut client) = f.connect();
    f.join(&mut client, "alice-token", 0);
    let sub = f.subscribe_players(&mut client);
    let mut frame = InputFrame::new(TickId::from_u64(0));
    frame.push(InputCommand::new(1, "spawn", Some(Value::U64(5))).unwrap());
    frame.push(InputCommand::new(1, "spawn", Some(Value::U64(6))).unwrap());
    f.send(&mut client, ClientMessage::InputFrame { frame });
    f.process();
    f.step();
    assert!(matches!(f.recv(&mut client), ServerMessage::TickUpdate { .. }));
    match f.recv(&mut client) {
        ServerMessage::SubscriptionDeltaBatch { subscription, deltas, .. } => {
            assert_eq!(subscription, sub);
            let ids: Vec<u64> = deltas.iter().map(|d| d.row_id.as_u64()).collect();
            assert_eq!(ids, vec![0, 1]);
        }
        other => panic!("expected a batch, got {other:?}"),
    }
}

#[test]
fn pumping_tells_what_waits_without_a_tick() {
    let mut f = fixture(Behaviour::Writer, NetworkConfig::new());
    f.create_world(0);
    let (_, mut client) = f.connect();
    f.join(&mut client, "alice-token", 0);
    f.subscribe_players(&mut client);
    // The world commits outside the gateway's own step.
    let runs = f.runs();
    f.gateway.runtime_mut().step_detailed(runs).unwrap();
    let sent = f.gateway.pump_subscriptions(&mut f.host);
    assert_eq!(sent, 1);
    assert!(matches!(f.recv(&mut client), ServerMessage::SubscriptionDelta { .. }));
    assert_eq!(f.gateway.pump_subscriptions(&mut f.host), 0);
}

#[test]
fn resync_regenerates_the_exact_view() {
    let mut f = fixture(Behaviour::Writer, NetworkConfig::new());
    f.create_world(0);
    let (_, mut client) = f.connect();
    f.join(&mut client, "alice-token", 0);
    let sub = f.subscribe_players(&mut client);

    f.step();
    let _ = f.recv(&mut client); // TickUpdate
    let _ = f.recv(&mut client); // delta
    f.step();
    let _ = f.recv(&mut client); // TickUpdate
    let _ = f.recv(&mut client); // delta

    // A resync rebuilds the full view from authoritative state.
    match f.ask(&mut client, ClientMessage::Resync { subscription: sub }) {
        ServerMessage::SubscriptionSnapshot { subscription, rows, .. } => {
            assert_eq!(subscription, sub);
            assert_eq!(rows.len(), 2);
        }
        other => panic!("expected resync snapshot, got {other:?}"),
    }

    // Resyncing an unknown subscription reports an error.
    let unknown = SubscriptionId::from_u64(99);
    let answer = f.ask(&mut client, ClientMessage::Resync { subscription: unknown });
    assert!(matches!(answer, ServerMessage::Error { code: 22, .. }));
}

#[test]
fn failed_ticks_produce_no_updates() {
    let mut f = fixture(Behaviour::Failing, NetworkConfig::new());
    f.create_world(1);
    let (_, mut client) = f.connect();
    f.join(&mut client, "alice-token", 1);
    f.subscribe_players(&mut client);

    f.step();
    // The failed world produced no TickUpdate and no subscription delta.
    assert!(nothing(&mut client));
    assert_eq!(f.world_state(1), WorldLifecycle::Failed);
}

// ------------------------------------------------------------ backpressure

#[test]
fn slow_client_is_marked_stale_without_blocking_the_world() {
    let config = NetworkConfig::new()
        .with_max_queued_outbound_frames(1)
        .with_overflow_policy(OutboundOverflowPolicy::Stale);
    let mut f = fixture(Behaviour::Writer, config);
    f.create_world(0);
    let (_, mut client) = f.connect();
    f.join(&mut client, "alice-token", 0);
    let sub = f.subscribe_players(&mut client);

    // Tick 1 queues a TickUpdate, filling the bounded outbound queue; tick 2
    // overflows it and marks the session stale.
    f.step();
    f.step();
    assert_eq!(f.gateway.metrics().sessions_stale, 1);
    assert!(f.gateway.metrics().messages_dropped >= 1);

    // The world kept ticking regardless of the slow client.
    assert_eq!(f.next_tick(0), 2);

    // Further ticks are dropped while stale (never enqueued).
    f.step();
    assert_eq!(f.next_tick(0), 3);

    // The client drains the single queued update, then resyncs to recover
    // its exact view (all three rows).
    let msg = f.recv(&mut client);
    assert!(matches!(msg, ServerMessage::TickUpdate { tick, .. } if tick.as_u64() == 0));
    let answer = f.ask(&mut client, ClientMessage::Resync { subscription: sub });
    assert!(matches!(
        answer,
        ServerMessage::SubscriptionSnapshot { rows, .. } if rows.len() == 3
    ));
    assert_eq!(f.gateway.metrics().sessions_stale, 0);
}

#[test]
fn overflow_disconnect_policy_closes_slow_connections() {
    let config = NetworkConfig::new()
        .with_max_queued_outbound_frames(1)
        .with_overflow_policy(OutboundOverflowPolicy::Disconnect);
    let mut f = fixture(Behaviour::Writer, config);
    f.create_world(0);
    let (_, mut client) = f.connect();
    f.join(&mut client, "alice-token", 0);

    f.step(); // TickUpdate queued (1/1)
    f.step(); // TickUpdate: full, disconnect
    assert_eq!(f.gateway.connection_count(), 0);
    assert!(f.gateway.metrics().clients_dropped >= 1);
    // The world kept ticking.
    assert_eq!(f.next_tick(0), 2);
}

#[test]
fn slow_client_never_blocks_other_clients() {
    let mut f = fixture(Behaviour::Writer, NetworkConfig::new());
    f.create_world(0);

    // Client 1: outbound cap 1 (will fall stale). Client 2: healthy.
    let (server1, mut c1) = MemoryTransport::connect(256, 1);
    f.gateway.register_connection(server1).unwrap();
    f.join(&mut c1, "alice-token", 0);

    let (_, mut c2) = f.connect();
    f.join(&mut c2, "bob-token", 0);

    f.step(); // both get a TickUpdate; c1 queue full
    f.step(); // c1: stale; c2: queued

    assert_eq!(f.gateway.metrics().sessions_stale, 1);
    // c2 received both updates.
    let msg = f.recv(&mut c2);
    assert!(matches!(msg, ServerMessage::TickUpdate { tick, .. } if tick.as_u64() == 0));
    let msg = f.recv(&mut c2);
    assert!(matches!(msg, ServerMessage::TickUpdate { tick, .. } if tick.as_u64() == 1));
    // c1 only ever received its single queued update.
    let msg = f.recv(&mut c1);
    assert!(matches!(msg, ServerMessage::TickUpdate { tick, .. } if tick.as_u64() == 0));
    assert!(nothing(&mut c1));
}

#[test]
fn a_closed_transport_drops_its_connection_alone() {
    let mut f = fixture(Behaviour::Writer, NetworkConfig::new());
    f.create_world(0);
    let (_, mut a) = f.connect();
    f.join(&mut a, "alice-token", 0);
    let (_, mut b) = f.connect();
    f.join(&mut b, "bob-token", 0);
    a.close();
    f.process();
    f.step();
    assert!(matches!(f.recv(&mut b), ServerMessage::TickUpdate { .. }));
    assert!(matches!(a.try_send_frame(vec![1]), Err(TransportError::Closed)));
}

// ----------------------------------------------------------- control plane

#[test]
fn control_plane_lifecycle_and_health() {
    let mut f = fixture(Behaviour::Writer, NetworkConfig::new());
    let world = world_id(0);

    f.gateway.control().create_partition(world, world_setup(), log_setup()).unwrap();
    f.add_toy(0);
    assert_eq!(
        f.gateway.control().partition_status(world).unwrap().state,
        WorldLifecycle::Created
    );
    assert!(f.gateway.control().create_partition(world, world_setup(), log_setup()).is_err());

    f.gateway.control().start_partition(world).unwrap();
    assert_eq!(
        f.gateway.control().partition_status(world).unwrap().state,
        WorldLifecycle::Running
    );

    let health = f.gateway.control().health(5);
    assert_eq!(health.worlds, 1);
    assert_eq!(health.running_partitions, 1);
    assert_eq!(health.workers, 1);
    assert_eq!(health.workers_running, 1);
    assert!(health.uptime_ns > 0);
    assert_eq!(f.gateway.control().list_partitions().len(), 1);

    let runs = f.runs();
    f.gateway.control().step(runs, 1).unwrap();
    assert_eq!(f.gateway.control().metrics(0).ticks_succeeded, 1);

    // Control-plane step never bypasses the runtime commit path.
    f.gateway.control().stop_partition(world).unwrap();
    f.gateway.control().destroy_partition(world).unwrap();
    assert!(f.gateway.control().partition_status(world).is_err());

    f.gateway.control().shutdown(vec![]).unwrap();
    assert_eq!(f.gateway.runtime().state(), RuntimeState::Stopped);
    assert!(f.gateway.control().step(vec![], 1).is_err());
}

// ---------------------------------------------------------------- metrics

#[test]
fn metrics_count_connections_sessions_and_frames() {
    let mut f = fixture(Behaviour::Consumer, NetworkConfig::new());
    f.create_world(0);

    let (_, mut client1) = f.connect();
    f.join(&mut client1, "alice-token", 0);

    let (_, mut client2) = f.connect();
    f.handshake(&mut client2); // never authenticates
    f.send(&mut client2, ClientMessage::Ping { nonce: 1 });
    f.process();

    let metrics = f.gateway.metrics();
    assert_eq!(metrics.connections, 2);
    assert_eq!(metrics.sessions, 1);
    assert_eq!(metrics.attached, 1);
    assert_eq!(metrics.connections_per_world, vec![(world_id(0), 1)]);
    assert!(metrics.frames_received >= 5); // handshake+auth+attach+handshake+ping
    assert!(metrics.messages_outbound >= 4); // responses + pong

    // Client 2 (unauthenticated) still gets its pong.
    assert!(matches!(f.recv(&mut client2), ServerMessage::Pong { nonce: 1 }));
}

// ------------------------------------------------------- authorization policy

/// A policy that denies every attach.
struct DenyAttachPolicy;

impl GamePolicy for DenyAttachPolicy {
    fn authorize_attach(&self, _principal: &Principal, _world: WorldId) -> bool {
        false
    }
}

/// A policy that denies every input frame.
struct DenyInputPolicy;

impl GamePolicy for DenyInputPolicy {
    fn authorize_input(&self, _principal: &Principal, _world: WorldId, _frame: &InputFrame) -> bool {
        false
    }
}

/// A policy that denies every reducer call.
struct DenyReducerPolicy;

impl GamePolicy for DenyReducerPolicy {
    fn authorize_reducer(&self, _principal: &Principal, _world: WorldId, _reducer: &str) -> bool {
        false
    }
}

/// The default pass-through policy leaves every operation to the runtime.
#[test]
fn default_policy_preserves_phase_13_behavior() {
    let mut f = fixture(Behaviour::Consumer, NetworkConfig::new());
    f.create_world(0);
    let (_id, mut client) = f.connect();
    f.join(&mut client, "alice-token", 0);

    // Input flows without a custom policy.
    f.send(&mut client, input(0, 1, "spawn", Some(Value::U64(1))));
    f.process();
    assert_eq!(f.gateway.metrics().inputs_accepted, 1);
    // Reducer calls route into the world queue untouched by the policy; the
    // unknown name fails at execution and the error result is correlated
    // back.
    f.send(&mut client, call(1, "nope", no_args()));
    f.process();
    assert_eq!(f.gateway.metrics().policy_rejections, 0);
    assert_eq!(f.gateway.metrics().reducer_calls_accepted, 1);
    f.step();
    assert!(matches!(f.recv(&mut client), ServerMessage::TickUpdate { .. }));
    assert!(matches!(
        f.recv(&mut client),
        ServerMessage::ReducerResult { request_id: 1, ok: false, error: Some(ref e), .. }
            if e.contains("registered")
    ));
}

/// An installed policy can deny world attachment before any runtime access.
#[test]
fn policy_can_deny_attach() {
    let mut f = fixture_with(Behaviour::Consumer, NetworkConfig::new(), DenyAttachPolicy);
    f.create_world(0);
    let (id, mut client) = f.connect();
    f.handshake(&mut client);
    f.authenticate(&mut client, "alice-token");

    let answer = f.ask(&mut client, ClientMessage::AttachWorld { world: world_id(0) });
    assert!(matches!(
        answer,
        ServerMessage::AttachResult { ok: false, error: Some(ref e), .. }
            if e.contains("not authorized")
    ));
    assert_eq!(f.gateway.metrics().policy_rejections, 1);
    assert_eq!(f.gateway.session_of(id).unwrap().attached_world(), None);
}

/// An installed policy can deny input submission without touching the runtime.
#[test]
fn policy_can_deny_input() {
    let mut f = fixture_with(Behaviour::Consumer, NetworkConfig::new(), DenyInputPolicy);
    f.create_world(0);
    let (_id, mut client) = f.connect();
    f.join(&mut client, "alice-token", 0);

    let answer = f.ask(&mut client, input(0, 1, "spawn", Some(Value::U64(1))));
    assert!(matches!(answer, ServerMessage::Error { code: 18, .. }));
    assert_eq!(f.gateway.metrics().inputs_accepted, 0);
    assert_eq!(f.gateway.metrics().policy_rejections, 1);
}

/// A denied reducer call receives a correlated `ReducerResult` (request id
/// echoed) and is never submitted to the runtime.
#[test]
fn policy_denial_echoes_request_id() {
    let mut f = fixture_with(Behaviour::Consumer, NetworkConfig::new(), DenyReducerPolicy);
    f.create_world(0);
    let (_id, mut client) = f.connect();
    f.join(&mut client, "alice-token", 0);

    let answer = f.ask(&mut client, call(77, "bump", no_args()));
    assert!(matches!(
        answer,
        ServerMessage::ReducerResult { request_id: 77, ok: false, error: Some(ref e), .. }
            if e.contains("game policy")
    ));
    assert_eq!(f.gateway.metrics().policy_rejections, 1);
    assert_eq!(f.gateway.metrics().reducer_calls_accepted, 0);
}

/// Request ids with the server-reserved bit are rejected at the gateway.
#[test]
fn server_reserved_request_ids_are_rejected_from_clients() {
    let mut f = fixture(Behaviour::Reducers, NetworkConfig::new());
    f.create_world(0);
    let (_, mut client) = f.connect();
    f.join(&mut client, "alice-token", 0);

    let answer = f.ask(&mut client, call(SERVER_REQUEST_MSB | 5, "bump", no_args()));
    assert!(matches!(
        answer,
        ServerMessage::ReducerResult { request_id, ok: false, error: Some(ref e), .. }
            if request_id == SERVER_REQUEST_MSB | 5 && e.contains("reserved for server")
    ));
    assert_eq!(f.gateway.metrics().reducer_calls_accepted, 0);
    assert_eq!(f.gateway.metrics().reducer_calls_rejected, 1);
}

#[test]
fn reducer_calls_stamp_the_authenticated_caller_identity() {
    let mut f = fixture(Behaviour::Reducers, NetworkConfig::new());
    f.create_world(0);
    let (_, mut client) = f.connect();
    f.join(&mut client, "alice-token", 0);

    // The client attempts to forge identity through a reserved `__caller`
    // argument; the gateway must overwrite it with the authenticated
    // principal id before the call is queued.
    let request = 77;
    let args = no_args().insert("__caller", Value::U64(999)).insert("x", Value::U64(1));
    f.send(&mut client, call(request, "whoami", args));
    f.process();
    assert_eq!(f.gateway.metrics().reducer_calls_accepted, 1);
    f.step();
    assert!(matches!(f.recv(&mut client), ServerMessage::TickUpdate { .. }));
    match f.recv(&mut client) {
        ServerMessage::ReducerResult { request_id, ok: true, value, .. } => {
            assert_eq!(request_id, request);
            assert_eq!(
                value,
                Some(Value::U64(1)),
                "the reducer sees the authenticated caller, never the forged arg"
            );
        }
        other => panic!("expected a successful ReducerResult, got {other:?}"),
    }
    assert_eq!(f.gateway.metrics().reducer_calls_rejected, 0);
}

// ------------------------------------------------------------------ server

#[test]
fn a_server_steps_and_shuts_down() {
    let runtime = Runtime::new(RuntimeConfig::new()).unwrap();
    let config = NetworkConfig::new();
    let max = config.max_frame_payload();
    let mut server = NexumServer::new(runtime, config, test_authenticator()).unwrap();
    server.runtime_mut().create_world(world_id(0), world_setup(), log_setup()).unwrap();
    server.runtime_mut().start_world(world_id(0)).unwrap();
    let mut host = Host { behaviour: Behaviour::Writer, worlds: BTreeMap::new() };
    host.worlds.insert(
        0,
        ToyWorld {
            next_tick: 0,
            rows: Vec::new(),
            commits: 0,
            subscribers: Vec::new(),
            next_subscriber: 0,
        },
    );
    let (end, mut client) = MemoryTransport::connect(16, 16);
    server.gateway_mut().register_connection(end).unwrap();
    let ping = encode_client(&ClientMessage::Ping { nonce: 3 }, max).unwrap();
    client.try_send_frame(ping).unwrap();

    let inputs = server.begin_step(&mut host, 0).unwrap();
    let runs = inputs.into_iter().map(|input| host.tick(input)).collect();
    let report = server.step(&mut host, runs).unwrap();
    assert_eq!(report.worlds, 1);
    assert_eq!(recv_any(&mut client, max), Some(ServerMessage::Pong { nonce: 3 }));

    server.shutdown(vec![]);
    assert_eq!(server.gateway().connection_count(), 0);
    assert_eq!(server.runtime().state(), RuntimeState::Stopped);
    assert!(matches!(
        recv_any(&mut client, max),
        Some(ServerMessage::Disconnect { reason }) if reason == "server shutdown"
    ));
    assert!(matches!(
        server.begin_step(&mut host, 0),
        Err(NetworkError::Runtime(RuntimeError::Shutdown))
    ));
}

#[test]
fn an_invalid_configuration_makes_no_server() {
    let runtime = Runtime::new(RuntimeConfig::new()).unwrap();
    let config = NetworkConfig::new().with_max_connections(0);
    let server: Result<NexumServer<MemoryConnection, _, _>, NetworkError> =
        NexumServer::new(runtime, config, test_authenticator());
    assert!(matches!(server, Err(NetworkError::Core(Error::InvalidArgument(_)))));
}

// ------------------------------------------------------------------ promises

#[test]
fn connection_ids_are_never_reused() {
    let mut f = fixture(Behaviour::Writer, NetworkConfig::new());
    let (first, _a) = f.connect();
    f.gateway.disconnect(&mut f.host, first, "gone").unwrap();
    let (second, _b) = f.connect();
    assert!(second.as_u64() > first.as_u64());
    assert!(f.gateway.session_of(first).is_none());
    assert_eq!(f.gateway.connection_ids(), vec![second.as_u64()]);
}

#[test]
fn a_violation_touches_nobody_else() {
    let mut f = fixture(Behaviour::Reducers, NetworkConfig::new());
    f.create_world(0);
    let (_, mut a) = f.connect();
    f.join(&mut a, "alice-token", 0);
    let (b_id, mut b) = f.connect();
    f.join(&mut b, "bob-token", 0);
    f.send(&mut b, call(9, "whoami", no_args()));
    a.try_send_frame(vec![1, 2, 3]).unwrap();
    f.process();
    assert_eq!(f.gateway.connection_ids(), vec![b_id.as_u64()]);
    f.step();
    assert!(matches!(f.recv(&mut b), ServerMessage::TickUpdate { .. }));
    assert!(matches!(
        f.recv(&mut b),
        ServerMessage::ReducerResult { request_id: 9, ok: true, .. }
    ));
}

#[test]
fn detaching_releases_calls_and_subscriptions() {
    let mut f = fixture(Behaviour::Reducers, NetworkConfig::new());
    f.create_world(0);
    let (_, mut client) = f.connect();
    f.join(&mut client, "alice-token", 0);
    f.subscribe_players(&mut client);
    f.send(&mut client, call(4, "whoami", no_args()));
    f.process();
    assert_eq!(f.gateway.metrics().subscriptions, 1);
    // The call that waited is answered: with one failure under its own id.
    assert!(matches!(
        f.ask(&mut client, ClientMessage::DetachWorld),
        ServerMessage::ReducerResult { request_id: 4, ok: false, value: None, error: Some(_) }
    ));
    assert!(matches!(
        f.recv(&mut client),
        ServerMessage::DetachResult { ok: true, error: None }
    ));
    assert!(nothing(&mut client));
    assert_eq!(f.gateway.metrics().reducer_results_sent, 1);
    assert_eq!(f.gateway.metrics().subscriptions, 0);
    assert_eq!(f.host.worlds[&0].subscribers.len(), 0);
    f.step();
    assert!(nothing(&mut client));
    // The request id is free again.
    f.attach(&mut client, world_id(0));
    f.send(&mut client, call(4, "whoami", no_args()));
    f.process();
    assert_eq!(f.gateway.metrics().reducer_calls_accepted, 2);
}

#[test]
fn detaching_answers_every_waiting_call_in_order() {
    let mut f = fixture(Behaviour::Reducers, NetworkConfig::new());
    f.create_world(0);
    let (_, mut client) = f.connect();
    f.join(&mut client, "alice-token", 0);
    for id in [30, 10, 20] {
        f.send(&mut client, call(id, "whoami", no_args()));
    }
    f.process();
    f.send(&mut client, ClientMessage::DetachWorld);
    f.process();
    for id in [10, 20, 30] {
        match f.recv(&mut client) {
            ServerMessage::ReducerResult { request_id, ok, error, .. } => {
                assert_eq!((request_id, ok), (id, false));
                let text = "detached from the world before the call was answered";
                assert_eq!(error, Some(text.to_string()));
            }
            other => panic!("expected ReducerResult, got {other:?}"),
        }
    }
    assert!(matches!(f.recv(&mut client), ServerMessage::DetachResult { ok: true, .. }));
    // The world still runs the calls; nobody is told of them any more.
    f.step();
    assert!(nothing(&mut client));
}

#[test]
fn a_rate_limited_call_is_answered_under_its_own_id() {
    let limits = RateLimitConfig::new().with_reducer_per_sec(1);
    let mut f = fixture(Behaviour::Reducers, NetworkConfig::new().with_rate_limits(limits));
    f.create_world(0);
    let (_, mut client) = f.connect();
    f.join(&mut client, "alice-token", 0);
    f.send(&mut client, call(1, "whoami", no_args()));
    f.send(&mut client, call(2, "whoami", no_args()));
    f.process();
    match f.recv(&mut client) {
        ServerMessage::ReducerResult { request_id, ok, value, error } => {
            assert_eq!((request_id, ok, value), (2, false, None));
            assert_eq!(error, Some("rate limit exceeded".to_string()));
        }
        other => panic!("expected ReducerResult, got {other:?}"),
    }
    assert!(nothing(&mut client));
    assert_eq!(f.gateway.metrics().rate_limited, 1);
    assert_eq!(f.gateway.metrics().reducer_calls_rejected, 1);
    assert_eq!(f.gateway.metrics().reducer_calls_accepted, 1);
}

#[test]
fn every_connection_lost_in_a_pass_is_counted() {
    let mut f = fixture(Behaviour::Writer, NetworkConfig::new());
    let (_, mut foreign) = f.connect();
    let (_, mut broken) = f.connect();
    let (_, mut fine) = f.connect();
    f.send(&mut foreign, ClientMessage::Handshake { version: 99, name: "old".into() });
    broken.try_send_frame(vec![1, 2, 3]).unwrap();
    f.send(&mut fine, ClientMessage::Ping { nonce: 1 });
    let report = f.gateway.process_inbound(&mut f.host, 0);
    assert_eq!(report.frames_received, 3);
    assert_eq!(report.dispatched, 2);
    assert_eq!(report.rejected, 1);
    assert_eq!(report.disconnected, 2);
    assert_eq!(f.gateway.connection_count(), 1);
}

#[test]
fn disconnecting_ends_subscriptions_at_once() {
    let mut f = fixture(Behaviour::Writer, NetworkConfig::new());
    f.create_world(0);
    let (conn, mut client) = f.connect();
    f.join(&mut client, "alice-token", 0);
    f.subscribe_players(&mut client);
    assert_eq!(f.host.worlds[&0].subscribers.len(), 1);
    f.gateway.disconnect(&mut f.host, conn, "gone").unwrap();
    assert_eq!(f.host.worlds[&0].subscribers.len(), 0);
    assert!(matches!(f.recv(&mut client), ServerMessage::Disconnect { .. }));
    assert_eq!(client.try_send_frame(vec![1]), Err(TransportError::Closed));
    f.gateway.flush_outbound(&mut f.host).unwrap();
    assert_eq!(f.gateway.connection_count(), 0);
}

/// Allows or denies reducer calls.
struct Switch(bool);

impl GamePolicy for Switch {
    fn authorize_reducer(&self, _principal: &Principal, _world: WorldId, _reducer: &str) -> bool {
        self.0
    }
}

#[test]
fn a_new_policy_decides_from_its_installation_on() {
    let mut f = fixture_with(Behaviour::Reducers, NetworkConfig::new(), Switch(true));
    f.create_world(0);
    let (_, mut client) = f.connect();
    f.join(&mut client, "alice-token", 0);
    f.send(&mut client, call(1, "whoami", no_args()));
    f.process();
    assert_eq!(f.gateway.metrics().reducer_calls_accepted, 1);
    f.gateway.set_policy(Switch(false));
    f.send(&mut client, call(2, "whoami", no_args()));
    f.process();
    assert_eq!(f.gateway.metrics().reducer_calls_accepted, 1);
    assert_eq!(f.gateway.metrics().policy_rejections, 1);
}

#[test]
fn peers_are_named_by_their_transport() {
    let mut f = fixture(Behaviour::Writer, NetworkConfig::new());
    let (id, _client) = f.connect();
    assert_eq!(f.gateway.connection_peer(id).unwrap(), "memory:server");
}

#[test]
fn a_stale_session_is_told_which_subscriptions_to_resync() {
    let config = NetworkConfig::new().with_max_queued_outbound_frames(1);
    let mut f = fixture(Behaviour::Writer, config);
    f.create_world(0);
    let (_, mut client) = f.connect();
    f.join(&mut client, "alice-token", 0);
    let sub = f.subscribe_players(&mut client);
    f.step();
    f.step();
    assert!(matches!(f.recv(&mut client), ServerMessage::TickUpdate { .. }));
    // Room again: the next thing sent lets the waiting notification through.
    f.step();
    assert!(matches!(
        f.recv(&mut client),
        ServerMessage::StaleNotification { subscription, .. } if subscription == sub
    ));
    let events = f.gateway.drain_events();
    assert!(events.iter().any(|e| matches!(e, NetworkEvent::SessionStale { .. })));
}

#[test]
fn fanning_out_ends_the_subscriptions_of_lost_connections() {
    let config = NetworkConfig::new()
        .with_max_queued_outbound_frames(1)
        .with_overflow_policy(OutboundOverflowPolicy::Disconnect);
    let mut f = fixture(Behaviour::Writer, config);
    f.create_world(0);
    let (_, mut client) = f.connect();
    f.join(&mut client, "alice-token", 0);
    f.subscribe_players(&mut client);
    assert_eq!(f.host.worlds[&0].subscribers.len(), 1);

    let runs = f.runs();
    let results = f.gateway.runtime_mut().step_detailed(runs).unwrap();
    // The broadcast fills the queue, the delta finds it full.
    f.gateway.fan_out_results(&mut f.host, &results);
    assert_eq!(f.gateway.connection_count(), 0);
    assert_eq!(f.host.worlds[&0].subscribers.len(), 0);
}

#[test]
fn fanning_out_settles_every_pending_call_once() {
    let mut f = fixture(Behaviour::Reducers, NetworkConfig::new());
    f.create_world(0);
    let (_, mut client) = f.connect();
    f.join(&mut client, "alice-token", 0);
    f.send(&mut client, call(7, "bump", no_args()));
    f.process();

    // No result, and the world runs: the call stays pending.
    f.gateway.fan_out_results(&mut f.host, &vec![]);
    assert!(nothing(&mut client));

    // No result, and the world no longer runs: one failure.
    f.gateway.control().stop_partition(world_id(0)).unwrap();
    f.gateway.fan_out_results(&mut f.host, &vec![]);
    match f.recv(&mut client) {
        ServerMessage::ReducerResult { request_id: 7, ok: false, error: Some(error), .. } => {
            assert_eq!(error, "world 0 is no longer running; the call could not commit")
        }
        other => panic!("expected ReducerResult, got {other:?}"),
    }
    f.gateway.fan_out_results(&mut f.host, &vec![]);
    assert!(nothing(&mut client));
}

#[test]
fn a_call_the_runtime_refuses_is_answered_once() {
    let mut f = fixture(Behaviour::Reducers, NetworkConfig::new());
    f.create_world(0);
    let (_, mut client) = f.connect();
    f.join(&mut client, "alice-token", 0);
    f.gateway.control().stop_partition(world_id(0)).unwrap();

    let answer = f.ask(&mut client, call(4, "bump", no_args()));
    assert!(matches!(
        answer,
        ServerMessage::ReducerResult { request_id: 4, ok: false, value: None, error: Some(_) }
    ));
    assert!(nothing(&mut client));
    assert_eq!(f.gateway.metrics().reducer_calls_rejected, 1);
    // Nothing waits: a restarted world runs no such call.
    f.gateway.control().start_partition(world_id(0)).unwrap();
    f.step();
    assert_eq!(f.gateway.metrics().reducer_results_sent, 0);
}
