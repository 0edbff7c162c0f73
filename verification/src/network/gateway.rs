//! The [`NetworkGateway`]: the realtime adapter around the runtime.
//!
//! The gateway owns the runtime and adapts it to clients. Every authoritative
//! operation flows through the runtime's own boundary. Each connection's
//! transport queue is bounded; an outbound overflow applies the configured
//! policy and never blocks the simulation or other clients.

use std::collections::VecDeque;
use vstd::prelude::*;
use vstd::string::*;

use crate::base::error::{Error, ErrorView};
use crate::base::ids::{ConnectionId, SubscriptionId, WorldId};
use crate::base::log::EventLog;
use crate::base::table::{ascending, is_ascending, put_back, IdSet, Table};
use crate::base::text::number;
use crate::network::auth::Authenticator;
use crate::network::config::{
    NetworkConfig, NetworkConfigView, NetworkEvent, OutboundOverflowPolicy,
};
use crate::network::control::ControlPlane;
use crate::network::error::{NetworkError, NetworkErrorView, TransportError};
use crate::network::gateway_laws::{
    dropping_keeps_valid, extends_transitive, marking_keeps_valid, rescheduling_keeps_valid,
};
use crate::network::gateway_model::{
    calls_valid, connections_valid, ended_of, error_code_of, error_reply, passes_stale,
    runtime_error_code_of, without_calls, ConnectionView, GatewayView, PendingView,
};
use crate::network::host::{
    borne_out, extends, goes_on, host_part_grows, message_offered, notice_offered,
    notices_offered,
    record_borne_out, recording_bears_out, stale_notice, Attempt, Exchange, Offer,
};
use crate::network::metrics::NetworkCounters;
use crate::network::policy::{AllowAllPolicy, GamePolicy};
use crate::network::protocol::{encode_server, server_encodable, server_payload, ServerMessage};
use crate::network::rate::{RateBucket, RateLimiter};
use crate::network::session::Session;
use crate::network::transport::{direct_contact, Connection, Contact};
use crate::runtime::coordinator::Runtime;
use crate::runtime::error::RuntimeError;
use crate::runtime::metrics::count;
use crate::runtime::model::RuntimeView;

verus! {

broadcast use {put_back, host_part_grows};

/// The top bit of a reducer-call request id is reserved for server-originated
/// calls: client ids with this bit set are rejected, so the two never
/// collide.
pub const SERVER_REQUEST_MSB: u64 = 0x8000_0000_0000_0000;

/// The reserved reducer-argument key under which the gateway stamps the
/// authenticated caller's principal id on every client reducer call. Any
/// client value for the key is overwritten, so identity cannot be forged.
pub const CALLER_SOURCE_ARG: &'static str = "__caller";

/// What the gateway keeps of a connection.
pub struct ConnectionEntry<C> {
    pub(crate) transport: C,
    pub(crate) session: Option<Session>,
    pub(crate) subscriptions: Table<WorldId>,
    pub(crate) pending_ids: IdSet,
    pub(crate) stale: bool,
    pub(crate) pending_stale: VecDeque<u64>,
    pub(crate) rate: RateLimiter,
}

impl<C: Connection> View for ConnectionEntry<C> {
    type V = ConnectionView;

    open(crate) spec fn view(&self) -> ConnectionView {
        ConnectionView {
            session: match self.session {
                Some(session) => Some(session@),
                None => None,
            },
            subscriptions: self.subscriptions@,
            pending_ids: self.pending_ids@,
            stale: self.stale,
            pending_stale: self.pending_stale@,
            rate: self.rate,
            contacts: self.transport.contacts(),
        }
    }
}

/// A pending client reducer call, kept under a request id of the gateway's
/// own: client ids are unique per connection only.
#[derive(Clone, Copy, Debug, PartialEq, Eq, Structural)]
pub struct PendingCall {
    pub(crate) world: WorldId,
    pub(crate) connection: ConnectionId,
    pub(crate) client_request_id: u64,
}

impl View for PendingCall {
    type V = PendingView;

    open(crate) spec fn view(&self) -> PendingView {
        PendingView {
            world: self.world,
            connection: self.connection,
            client_request_id: self.client_request_id,
        }
    }
}

/// The realtime gateway: owns the runtime and adapts it to clients.
pub struct NetworkGateway<C, A, P> {
    pub(crate) runtime: Runtime,
    pub(crate) config: NetworkConfig,
    pub(crate) authenticator: A,
    pub(crate) policy: P,
    pub(crate) server_name: String,
    pub(crate) connections: Table<ConnectionEntry<C>>,
    pub(crate) next_connection: u64,
    pub(crate) next_session: u64,
    pub(crate) pending: Table<PendingCall>,
    pub(crate) next_gateway_request: u64,
    pub(crate) ended: Vec<(WorldId, SubscriptionId)>,
    pub(crate) events: EventLog<NetworkEvent>,
    pub(crate) counters: NetworkCounters,
    pub(crate) history: Ghost<Seq<Exchange>>,
    pub(crate) retired: Ghost<Map<u64, C>>,
    pub(crate) policy_since: Ghost<nat>,
}

impl<C: Connection, A, P> View for NetworkGateway<C, A, P> {
    type V = GatewayView;

    open(crate) spec fn view(&self) -> GatewayView {
        GatewayView {
            runtime: self.runtime@,
            config: self.config@,
            server_name: self.server_name@,
            connections: self.connections@,
            next_connection: self.next_connection,
            next_session: self.next_session,
            pending: self.pending@,
            next_gateway_request: self.next_gateway_request,
            ended: self.ended@,
            events: self.events@,
            counters: self.counters,
            history: self.history@,
            retired: self.retired@.map_values(|transport: C| transport.contacts()),
        }
    }
}

/// The content of a network answer.
pub open spec fn net_answer<T>(result: Result<T, NetworkError>) -> Result<T, NetworkErrorView> {
    match result {
        Ok(x) => Ok(x),
        Err(e) => Err(e@),
    }
}

impl GatewayView {
    /// A gateway before any operation.
    pub open spec fn initial(runtime: RuntimeView, config: NetworkConfigView) -> GatewayView {
        GatewayView {
            runtime,
            config,
            server_name: "nexum"@,
            connections: Map::empty(),
            next_connection: 0,
            next_session: 0,
            pending: Map::empty(),
            next_gateway_request: 1,
            ended: Seq::empty(),
            events: Seq::empty(),
            counters: NetworkCounters::zero(),
            history: Seq::empty(),
            retired: Map::empty(),
        }
    }
}

impl<C: Connection, A: Authenticator, P: GamePolicy> NetworkGateway<C, A, P> {
    /// The authenticator.
    pub open(crate) spec fn authenticator(&self) -> A {
        self.authenticator
    }

    /// The authorization policy that decides from here on.
    pub open(crate) spec fn policy_in_force(&self) -> P {
        self.policy
    }

    /// How long the record was when that policy was installed.
    pub open(crate) spec fn policy_since(&self) -> nat {
        self.policy_since@
    }

    /// Whether authenticator and policy are those of an earlier moment.
    pub open spec fn judged_as(&self, before: Self) -> bool {
        &&& self.authenticator() == before.authenticator()
        &&& self.policy_in_force() == before.policy_in_force()
        &&& self.policy_since() == before.policy_since()
    }

    /// The transport of a registered connection.
    pub open(crate) spec fn transport_of(&self, connection: ConnectionId) -> C {
        self.connections.things()[connection.0].transport
    }

    /// The logs keep what the configuration says, and the record is borne out
    /// by the authenticator, the policy and the transports' logs.
    pub open spec fn sized(&self) -> bool {
        &&& self.logs_sized()
        &&& record_borne_out(
            self@.history,
            self.authenticator(),
            self.policy_in_force(),
            self.policy_since(),
            self@.config.max_frame_payload,
        )
    }

    /// The logs keep what the configuration says.
    pub open(crate) spec fn logs_sized(&self) -> bool {
        self.events.limit() == self.config@.event_log_limit && self.runtime.log_sized()
    }

    /// Records an exchange.
    pub(crate) fn record(&mut self, exchange: Ghost<Exchange>)
        requires
            old(self).wf(),
            borne_out(
                exchange@,
                old(self).authenticator(),
                old(self).policy_in_force(),
                true,
                old(self)@.config.max_frame_payload,
            ),
        ensures
            final(self).wf(),
            final(self).judged_as(*old(self)),
            final(self)@ == old(self)@.recorded(exchange@),
    {
        proof {
            recording_bears_out(
                self.history@,
                exchange@,
                self.authenticator,
                self.policy,
                self.policy_since@,
                self.config@.max_frame_payload,
            );
        }
        self.history = Ghost(self.history@.push(exchange@));
    }

    /// What every operation keeps.
    pub open spec fn wf(&self) -> bool {
        self@.valid() && self.sized()
    }

    /// Creates a gateway around a runtime, with an authorization policy.
    pub fn with_policy(runtime: Runtime, config: NetworkConfig, authenticator: A, policy: P) -> (gateway:
        Result<Self, NetworkError>)
        requires
            runtime.wf(),
        ensures
            match gateway {
                Ok(g) => config@.violation() is None && g@ == GatewayView::initial(
                    runtime@,
                    config@,
                ) && g.wf() && g.authenticator() == authenticator && g.policy_in_force()
                    == policy,
                Err(e) => config@.violation() is Some && e@ == NetworkErrorView::Core(
                    ErrorView::InvalidArgument(config@.violation()->0),
                ),
            },
    {
        if let Err(error) = config.validate() {
            return Err(NetworkError::Core(error));
        }
        let limit: usize = config.event_log_limit();
        let gateway = NetworkGateway {
            runtime,
            config,
            authenticator,
            policy,
            server_name: "nexum".to_owned(),
            connections: Table::new(),
            next_connection: 0,
            next_session: 0,
            pending: Table::new(),
            next_gateway_request: 1,
            ended: Vec::new(),
            events: EventLog::new(limit),
            counters: NetworkCounters::new(),
            history: Ghost(Seq::empty()),
            retired: Ghost(Map::empty()),
            policy_since: Ghost(0),
        };
        proof {
            reveal(record_borne_out);
            assert(gateway@.retired =~= Map::empty());
            reveal(connections_valid);
            reveal(calls_valid);
        }
        Ok(gateway)
    }

    /// The configuration.
    pub fn config(&self) -> (config: &NetworkConfig)
        ensures
            config@ == self@.config,
    {
        &self.config
    }

    /// The server name announced in the handshake.
    pub fn server_name(&self) -> (name: &str)
        ensures
            name@ == self@.server_name,
    {
        self.server_name.as_str()
    }

    /// Sets the server name announced in the handshake.
    pub fn set_server_name(&mut self, name: &str)
        requires
            old(self).wf(),
        ensures
            final(self).wf(),
            final(self).judged_as(*old(self)),
            final(self)@ == (GatewayView { server_name: name@, ..old(self)@ }),
    {
        self.server_name = name.to_owned();
    }

    /// The owned runtime.
    pub fn runtime(&self) -> (runtime: &Runtime)
        requires
            self.wf(),
        ensures
            runtime@ == self@.runtime,
            runtime.wf(),
    {
        &self.runtime
    }

    /// The owned runtime, for the control plane.
    pub fn runtime_mut(&mut self) -> (runtime: &mut Runtime)
        requires
            old(self).wf(),
        ensures
            runtime@ == old(self)@.runtime,
            runtime.wf(),
            final(self)@ == (GatewayView { runtime: final(runtime)@, ..old(self)@ }),
            final(runtime).wf() ==> final(self).wf(),
            final(self).judged_as(*old(self)),
    {
        &mut self.runtime
    }

    /// The control plane over the owned runtime.
    pub fn control(&mut self) -> (plane: ControlPlane<'_>)
        requires
            old(self).wf(),
        ensures
            plane.wf(),
            plane@ == old(self)@.runtime,
            final(self)@ == (GatewayView { runtime: final(plane.runtime)@, ..old(self)@ }),
            final(plane.runtime).wf() ==> final(self).wf(),
            final(self).judged_as(*old(self)),
    {
        ControlPlane::new(&mut self.runtime)
    }

    /// Installs the authorization policy. It decides from here on.
    pub fn set_policy(&mut self, policy: P)
        requires
            old(self).wf(),
        ensures
            final(self).wf(),
            final(self)@ == old(self)@,
            final(self).policy_in_force() == policy,
            final(self).policy_since() == old(self)@.history.len(),
            final(self).authenticator() == old(self).authenticator(),
    {
        proof {
            reveal(record_borne_out);
        }
        self.policy = policy;
        self.policy_since = Ghost(self.history@.len());
    }

    pub(crate) fn push_event(&mut self, event: NetworkEvent)
        requires
            old(self).wf(),
        ensures
            final(self).wf(),
            final(self).judged_as(*old(self)),
            final(self)@ == old(self)@.with_event(event@),
    {
        self.events.push(event);
    }

    // --------------------------------------------------------- connections

    /// Registers a transport connection, bounded by the configured maximum.
    pub fn register_connection(&mut self, transport: C) -> (id: Result<ConnectionId, NetworkError>)
        requires
            old(self).wf(),
        ensures
            final(self).wf(),
            final(self).judged_as(*old(self)),
            (final(self)@, net_answer(id)) == old(self)@.connection_registered(
                transport.contacts(),
            ),
    {
        if self.connections.len() >= self.config.max_connections() || self.next_connection
            == u64::MAX {
            return Err(NetworkError::ConnectionLimit);
        }
        let id = ConnectionId::from_u64(self.next_connection);
        let limits = self.config.rate_limits();
        let entry = ConnectionEntry {
            transport,
            session: None,
            subscriptions: Table::new(),
            pending_ids: IdSet::new(),
            stale: false,
            pending_stale: VecDeque::new(),
            rate: RateLimiter::new(&limits),
        };
        self.connections.insert(self.next_connection, entry);
        self.next_connection = self.next_connection + 1;
        proof {
            assert(self@.connections.dom() =~= old(self)@.connections.dom().insert(id.0));
            assert(self@.valid()) by {
                crate::network::gateway_laws::registering_keeps_valid(
                    old(self)@,
                    transport.contacts(),
                );
            }
        }
        self.push_event(NetworkEvent::ConnectionOpened { connection: id });
        Ok(id)
    }

    /// Removes a connection: closes its transport, ends its subscriptions,
    /// forgets its pending calls, and records the drop.
    pub(crate) fn drop_connection(&mut self, c: ConnectionId, reason: &str)
        requires
            old(self).wf(),
        ensures
            final(self).wf(),
            final(self).judged_as(*old(self)),
            final(self)@ == old(self)@.dropped(c, reason@),
    {
        let ghost before = self@;
        match self.connections.remove(c.as_u64()) {
            None => {
                assert(self.connections@ =~= old(self).connections@);
            },
            Some(mut entry) => {
                self.end_subscriptions(&entry.subscriptions);
                self.forget_calls(c);
                entry.transport.close();
                self.retired = Ghost(self.retired@.insert(c.0, entry.transport));
                self.counters.clients_dropped = count(self.counters.clients_dropped);
                self.events.push(
                    NetworkEvent::ConnectionClosed { connection: c, reason: reason.to_owned() },
                );
                proof {
                    assert(self@.retired =~= before.retired.insert(
                        c.0,
                        before.connections[c.0].contacts.push(Contact::Closed),
                    ));
                    dropping_keeps_valid(before, c, reason@);
                }
            },
        }
    }

    /// Notes that subscriptions have ended, in ascending order.
    pub(crate) fn end_subscriptions(&mut self, subscriptions: &Table<WorldId>)
        ensures
            final(self)@ == (GatewayView {
                ended: old(self)@.ended + ended_of(subscriptions@),
                ..old(self)@
            }),
            final(self).sized() == old(self).sized(),
            final(self).judged_as(*old(self)),
    {
        let ids = subscriptions.keys();
        let ghost all = ended_of(subscriptions@);
        let mut i: usize = 0;
        assert(self@.ended + all.take(0) =~= self@.ended);
        while i < ids.len()
            invariant
                i <= ids@.len(),
                ids@ == ascending(subscriptions@.dom()),
                ids@.to_set() == subscriptions@.dom(),
                all == ended_of(subscriptions@),
                self@ == (GatewayView {
                    ended: old(self)@.ended + all.take(i as int),
                    ..old(self)@
                }),
                self.sized() == old(self).sized(),
                self.judged_as(*old(self)),
            decreases ids@.len() - i,
        {
            proof {
                assert(ids@.to_set().contains(ids@[i as int]));
            }
            if let Some(world) = subscriptions.get(ids[i]) {
                self.ended.push((*world, SubscriptionId::from_u64(ids[i])));
                assert(self.ended@ =~= old(self)@.ended + all.take(i + 1));
            }
            i = i + 1;
        }
        assert(all.take(all.len() as int) =~= all);
    }

    /// Forgets the pending calls of a connection.
    pub(crate) fn forget_calls(&mut self, c: ConnectionId)
        ensures
            final(self)@ == (GatewayView {
                pending: without_calls(old(self)@.pending, c),
                ..old(self)@
            }),
            final(self).sized() == old(self).sized(),
            final(self).judged_as(*old(self)),
    {
        let ids = self.pending.keys();
        let ghost before = self.pending@;
        let mut i: usize = 0;
        while i < ids.len()
            invariant
                i <= ids@.len(),
                is_ascending(ids@),
                ids@.to_set() == before.dom(),
                forall|g: u64| #[trigger]
                    self.pending@.contains_key(g) ==> before.contains_key(g) && self.pending@[g]
                        == before[g],
                forall|j: int|
                    0 <= j < ids@.len() ==> (self.pending@.contains_key(#[trigger] ids@[j]) <==> j
                        >= i || before[ids@[j]].connection != c),
                (*self)@ == (GatewayView { pending: self.pending@, ..old(self)@ }),
                self.sized() == old(self).sized(),
                self.judged_as(*old(self)),
            decreases ids@.len() - i,
        {
            let id: u64 = ids[i];
            proof {
                assert(ids@.to_set().contains(id));
            }
            let mine = match self.pending.get(id) {
                Some(call) => call.connection == c,
                None => false,
            };
            if mine {
                self.pending.remove(id);
            }
            i = i + 1;
        }
        proof {
            assert forall|g: u64| self.pending@.contains_key(g) == without_calls(
                before,
                c,
            ).contains_key(g) by {
                if before.contains_key(g) {
                    assert(ids@.to_set().contains(g));
                    let j = choose|j: int| 0 <= j < ids@.len() && ids@[j] == g;
                    assert(self.pending@.contains_key(ids@[j]) <==> before[g].connection != c);
                }
            }
            assert(self.pending@ =~= without_calls(before, c));
        }
    }

    /// Tells a registered connection why it closes; whether its transport
    /// took that, and by which contacts with it.
    fn bid_farewell(&mut self, c: ConnectionId, reason: &str) -> (told: (bool, Ghost<Seq<Contact>>))
        requires
            old(self).wf(),
            old(self)@.connections.contains_key(c.0),
        ensures
            final(self).wf(),
            final(self).judged_as(*old(self)),
            final(self)@ == old(self)@.recorded(
                (Exchange::Farewell {
                    connection: c,
                    reason: reason@,
                    taken: told.0,
                    contacts: told.1@,
                }),
            ).contacted(c, told.1@),
    {
        let max_payload: u32 = self.config.max_frame_payload();
        let mut taken = false;
        let ghost mut contacts: Seq<Contact> = Seq::empty();
        let ghost before = self@.connections[c.0];
        if let Some(mut entry) = self.connections.remove(c.as_u64()) {
            let message = ServerMessage::Disconnect { reason: reason.to_owned() };
            if let Ok(frame) = encode_server(&message, max_payload) {
                let ghost bytes = frame@;
                let answer = entry.transport.try_send_frame(frame);
                taken = answer.is_ok();
                proof {
                    contacts = seq![Contact::Frame { frame: bytes, answer }];
                    assert(entry.transport.contacts() =~= before.contacts + contacts);
                }
            }
            let ghost so_far = contacts;
            let answer = entry.transport.flush_outbound();
            proof {
                contacts = so_far.push(Contact::Flushed { answer });
                assert(entry.transport.contacts() =~= before.contacts + contacts);
            }
            self.connections.insert(c.as_u64(), entry);
        }
        proof {
            rescheduling_keeps_valid(
                old(self)@,
                c,
                ConnectionView { contacts: before.contacts + contacts, ..before },
            );
        }
        assert(self@ == old(self)@.contacted(c, contacts));
        self.record(
            Ghost(Exchange::Farewell { connection: c, reason: reason@, taken, contacts }),
        );
        (taken, Ghost(contacts))
    }

    /// Closes a connection, telling it the reason if possible.
    pub(crate) fn part_with(&mut self, connection: ConnectionId, reason: &str)
        requires
            old(self).wf(),
        ensures
            final(self).wf(),
            final(self).judged_as(*old(self)),
            goes_on(old(self)@.history, final(self)@.history),
            forall|h: Seq<Exchange>| #[trigger]
                extends(final(self)@.history, h) ==> final(self)@ == old(self)@.disconnected(
                    connection,
                    reason@,
                    h,
                ),
    {
        proof {
            reveal(GatewayView::disconnected);
        }
        if self.connections.contains(connection.as_u64()) {
            let (taken, Ghost(contacts)) = self.bid_farewell(connection, reason);
            self.drop_connection(connection, reason);
            proof {
                let n = old(self)@.history.len() as int;
                assert(self@.history[n] == (Exchange::Farewell {
                    connection,
                    reason: reason@,
                    taken,
                    contacts,
                }));
            }
        }
    }

    /// The registered connections' ids, in ascending order.
    pub fn connection_ids(&self) -> (ids: Vec<u64>)
        ensures
            ids@ == ascending(self@.connections.dom()),
    {
        self.connections.keys()
    }

    /// The number of registered connections.
    pub fn connection_count(&self) -> (count: usize)
        ensures
            count == self@.connections.len(),
    {
        self.connections.len()
    }

    /// A connection's peer label.
    pub fn connection_peer(&self, connection: ConnectionId) -> (peer: Result<&str, NetworkError>)
        ensures
            peer is Ok <==> self@.connections.contains_key(connection.0),
            peer matches Err(e) ==> e@ == NetworkErrorView::UnknownConnection(connection),
            peer matches Ok(label) ==> call_ensures(
                C::peer,
                (&self.transport_of(connection),),
                label,
            ),
    {
        match self.connections.get(connection.as_u64()) {
            Some(entry) => Ok(entry.transport.peer()),
            None => Err(NetworkError::UnknownConnection(connection)),
        }
    }

    /// A connection's session, if authenticated.
    pub fn session_of(&self, connection: ConnectionId) -> (session: Option<&Session>)
        ensures
            match session {
                Some(s) => self@.connections.contains_key(connection.0)
                    && self@.connections[connection.0].session == Some(s@),
                None => !self@.connections.contains_key(connection.0)
                    || self@.connections[connection.0].session is None,
            },
    {
        match self.connections.get(connection.as_u64()) {
            Some(entry) => entry.session.as_ref(),
            None => None,
        }
    }

    // ------------------------------------------------------------ outbound

    /// Offers a message to a registered connection, after the stale
    /// notifications that wait. Yields what came of it, how many of those
    /// went out, and by which contacts with its transport.
    #[verifier::spinoff_prover]
    #[verifier::rlimit(40)]
    fn offer(&mut self, c: ConnectionId, message: &ServerMessage) -> (outcome: (
        Offer,
        Ghost<nat>,
        Ghost<Seq<Contact>>,
    ))
        requires
            old(self).wf(),
            old(self)@.connections.contains_key(c.0),
            server_encodable(message@),
        ensures
            final(self).wf(),
            final(self).judged_as(*old(self)),
            outcome.1@ <= old(self)@.connections[c.0].pending_stale.len(),
            outcome.0 is Withheld <==> old(self)@.connections[c.0].stale && !passes_stale(
                message@,
            ),
            outcome.0 is Oversized ==> server_payload(message@).len()
                > old(self)@.config.max_frame_payload,
            message_offered(
                message@,
                old(self)@.connections[c.0].pending_stale,
                old(self)@.config.max_frame_payload,
                outcome.1@,
                outcome.0,
                outcome.2@,
            ),
            final(self)@ == old(self)@.recorded(
                (Exchange::Offered {
                    connection: c,
                    message: message@,
                    waiting: old(self)@.connections[c.0].pending_stale,
                    flushed: outcome.1@,
                    offer: outcome.0,
                    contacts: outcome.2@,
                }),
            ).with_connection(
                c,
                (ConnectionView {
                    pending_stale: old(self)@.connections[c.0].pending_stale.skip(
                        outcome.1@ as int,
                    ),
                    contacts: old(self)@.connections[c.0].contacts + outcome.2@,
                    ..old(self)@.connections[c.0]
                }),
            ),
    {
        let max_payload: u32 = self.config.max_frame_payload();
        let mut outcome = Offer::Broken;
        let ghost mut flushed: nat = 0;
        let ghost mut contacts: Seq<Contact> = Seq::empty();
        let ghost before = self@.connections[c.0];
        if let Some(mut entry) = self.connections.remove(c.as_u64()) {
            let (told, Ghost(count), Ghost(made)) = offer_to(&mut entry, message, max_payload);
            outcome = told;
            proof {
                flushed = count;
                contacts = made;
            }
            self.connections.insert(c.as_u64(), entry);
        }
        proof {
            rescheduling_keeps_valid(
                old(self)@,
                c,
                ConnectionView {
                    pending_stale: before.pending_stale.skip(flushed as int),
                    contacts: before.contacts + contacts,
                    ..before
                },
            );
        }
        self.record(
            Ghost(
                Exchange::Offered {
                    connection: c,
                    message: message@,
                    waiting: before.pending_stale,
                    flushed,
                    offer: outcome,
                    contacts,
                },
            ),
        );
        (outcome, Ghost(flushed), Ghost(contacts))
    }

    /// Marks a registered connection's session stale; a notification waits
    /// for each of its subscriptions.
    fn mark_stale(&mut self, c: ConnectionId)
        requires
            old(self).wf(),
            old(self)@.connections.contains_key(c.0),
        ensures
            final(self).wf(),
            final(self).judged_as(*old(self)),
            final(self)@ == old(self)@.marked_stale(c),
    {
        if let Some(mut entry) = self.connections.remove(c.as_u64()) {
            let ghost queued = entry.pending_stale@;
            entry.stale = true;
            if self.config.max_frame_payload() >= 16 {
                let ids = entry.subscriptions.keys();
                let mut i: usize = 0;
                assert(queued + ids@.take(0) =~= queued);
                while i < ids.len()
                    invariant
                        i <= ids@.len(),
                        entry@ == (ConnectionView {
                            stale: true,
                            pending_stale: queued + ids@.take(i as int),
                            ..old(self)@.connections[c.0]
                        }),
                    decreases ids@.len() - i,
                {
                    entry.pending_stale.push_back(ids[i]);
                    assert(entry.pending_stale@ =~= queued + ids@.take(i + 1));
                    i = i + 1;
                }
                assert(ids@.take(ids@.len() as int) =~= ids@);
            } else {
                assert(queued + Seq::<u64>::empty() =~= queued);
            }
            self.connections.insert(c.as_u64(), entry);
        }
        self.events.push(NetworkEvent::SessionStale { connection: c });
        proof {
            marking_keeps_valid(old(self)@, c);
        }
    }

    /// Sends a message to a connection. Yields whether the transport took it;
    /// a message can be withheld or dropped by the stale and overflow policy,
    /// and a broken transport drops the connection.
    #[verifier::spinoff_prover]
    #[verifier::rlimit(40)]
    pub(crate) fn send(&mut self, c: ConnectionId, message: &ServerMessage) -> (taken: Result<
        bool,
        NetworkError,
    >)
        requires
            old(self).wf(),
            server_encodable(message@),
        ensures
            final(self).wf(),
            final(self).judged_as(*old(self)),
            goes_on(old(self)@.history, final(self)@.history),
            forall|h: Seq<Exchange>| #[trigger]
                extends(final(self)@.history, h) ==> (final(self)@, net_answer(taken)) == old(
                    self,
                )@.sent(c, message@, h),
            old(self)@.connections.contains_key(c.0) ==> (final(self)@.history[old(
                self,
            )@.history.len() as int] matches Exchange::Offered { flushed, offer, contacts, .. }
                && flushed <= old(self)@.connections[c.0].pending_stale.len() && (offer is Oversized
                ==> server_payload(message@).len() > old(self)@.config.max_frame_payload)
                && message_offered(
                message@,
                old(self)@.connections[c.0].pending_stale,
                old(self)@.config.max_frame_payload,
                flushed,
                offer,
                contacts,
            )),
    {
        proof {
            reveal(GatewayView::sent);
        }
        if !self.connections.contains(c.as_u64()) {
            return Err(NetworkError::UnknownConnection(c));
        }
        let ghost n = self@.history.len() as int;
        let was_stale = match self.connections.get(c.as_u64()) {
            Some(entry) => entry.stale,
            None => false,
        };
        let (outcome, Ghost(flushed), Ghost(contacts)) = self.offer(c, message);
        let ghost exchange = self@.history[n];
        let ghost offered = self@;
        assert(exchange == (Exchange::Offered {
            connection: c,
            message: message@,
            waiting: old(self)@.connections[c.0].pending_stale,
            flushed,
            offer: outcome,
            contacts,
        }));
        let taken = match outcome {
            Offer::Withheld => {
                self.counters.messages_dropped = count(self.counters.messages_dropped);
                Ok(false)
            },
            Offer::Taken => {
                self.counters.messages_outbound = count(self.counters.messages_outbound);
                Ok(true)
            },
            Offer::Oversized => {
                match encode_server(message, self.config.max_frame_payload()) {
                    Err(error) => Err(error),
                    Ok(_) => Ok(false),
                }
            },
            Offer::Full => {
                self.counters.messages_dropped = count(self.counters.messages_dropped);
                match self.config.overflow_policy() {
                    OutboundOverflowPolicy::Stale => {
                        if !was_stale {
                            self.mark_stale(c);
                        }
                    },
                    OutboundOverflowPolicy::Disconnect => {
                        self.part_with(c, "slow consumer (outbound queue full)");
                    },
                }
                Ok(false)
            },
            Offer::Broken => {
                self.drop_connection(c, "transport failure");
                Ok(false)
            },
        };
        assert forall|h: Seq<Exchange>| #[trigger] extends(self@.history, h) implies (
            self@,
            net_answer(taken),
        ) == old(self)@.sent(c, message@, h) by {
            assert(extends(offered.history, h)) by {
                extends_transitive(offered.history, self@.history, h);
            }
            assert(offered.history[n] == h[n]);
        }
        taken
    }

    /// Sends a reply and leaves it at that.
    pub(crate) fn reply(&mut self, c: ConnectionId, message: &ServerMessage)
        requires
            old(self).wf(),
            server_encodable(message@),
        ensures
            final(self).wf(),
            final(self).judged_as(*old(self)),
            goes_on(old(self)@.history, final(self)@.history),
            forall|h: Seq<Exchange>| #[trigger]
                extends(final(self)@.history, h) ==> final(self)@ == old(self)@.replied(
                    c,
                    message@,
                    h,
                ),
    {
        proof {
            reveal(GatewayView::replied);
        }
        let _ = self.send(c, message);
    }

    /// Sends an error message that names a request (0 for none).
    pub(crate) fn send_error(&mut self, c: ConnectionId, code: u16, message: &str, request_id: u64)
        requires
            old(self).wf(),
        ensures
            final(self).wf(),
            final(self).judged_as(*old(self)),
            goes_on(old(self)@.history, final(self)@.history),
            forall|h: Seq<Exchange>| #[trigger]
                extends(final(self)@.history, h) ==> final(self)@ == old(self)@.replied(
                    c,
                    error_reply(code, message@, request_id),
                    h,
                ),
    {
        proof {
            reveal(GatewayView::replied);
        }
        self.reply(c, &ServerMessage::Error { code, message: message.to_owned(), request_id });
    }

    /// Takes a slot of a registered connection's rate bucket; over the limit
    /// that is counted.
    pub(crate) fn take_rate(&mut self, c: ConnectionId, bucket: RateBucket, now: u64) -> (allowed:
        bool)
        requires
            old(self).wf(),
            old(self)@.connections.contains_key(c.0),
        ensures
            final(self).wf(),
            final(self).judged_as(*old(self)),
            (final(self)@, allowed) == old(self)@.rate_taken(c, bucket, now),
    {
        let mut allowed = false;
        let ghost before = self@.connections[c.0];
        if let Some(mut entry) = self.connections.remove(c.as_u64()) {
            allowed = entry.rate.try_take(bucket, now);
            self.connections.insert(c.as_u64(), entry);
        }
        proof {
            rescheduling_keeps_valid(
                old(self)@,
                c,
                ConnectionView { rate: before.rate.taken(bucket, now), ..before },
            );
        }
        if !allowed {
            self.counters.rate_limited = count(self.counters.rate_limited);
        }
        allowed
    }

    /// Takes a slot of a registered connection's rate bucket; over the limit
    /// the operation is answered with an error.
    pub(crate) fn check_rate(&mut self, c: ConnectionId, bucket: RateBucket, request_id: u64, now: u64) -> (allowed:
        bool)
        requires
            old(self).wf(),
            old(self)@.connections.contains_key(c.0),
        ensures
            final(self).wf(),
            final(self).judged_as(*old(self)),
            goes_on(old(self)@.history, final(self)@.history),
            allowed ==> final(self)@.connections.contains_key(c.0) && final(self)@.history == old(
                self,
            )@.history,
            forall|h: Seq<Exchange>| #[trigger]
                extends(final(self)@.history, h) ==> (final(self)@, allowed) == old(
                    self,
                )@.rate_checked(c, bucket, request_id, now, h),
    {
        let allowed = self.take_rate(c, bucket, now);
        if !allowed {
            self.send_error(c, 19, "rate limit exceeded", request_id);
        }
        allowed
    }
}

impl<C: Connection, A: Authenticator> NetworkGateway<C, A, AllowAllPolicy> {
    /// Creates a gateway around a runtime that authorizes everything.
    pub fn new(runtime: Runtime, config: NetworkConfig, authenticator: A) -> (gateway: Result<
        Self,
        NetworkError,
    >)
        requires
            runtime.wf(),
        ensures
            match gateway {
                Ok(g) => config@.violation() is None && g@ == GatewayView::initial(
                    runtime@,
                    config@,
                ) && g.wf() && g.authenticator() == authenticator && g.policy_in_force()
                    == AllowAllPolicy,
                Err(e) => config@.violation() is Some && e@ == NetworkErrorView::Core(
                    ErrorView::InvalidArgument(config@.violation()->0),
                ),
            },
    {
        Self::with_policy(runtime, config, authenticator, AllowAllPolicy)
    }
}

/// Whether a message must pass through even while the session is stale.
fn is_stale_signal(message: &ServerMessage) -> (signal: bool)
    ensures
        signal == passes_stale(message@),
{
    match message {
        ServerMessage::StaleNotification { .. } => true,
        ServerMessage::Disconnect { .. } => true,
        ServerMessage::Error { .. } => true,
        _ => false,
    }
}

/// Sends the stale notifications that wait until the transport refuses one.
/// Yields how many went out, and by which contacts with it.
fn flush_stale<C: Connection>(entry: &mut ConnectionEntry<C>, max_payload: u32) -> (told: (
    Ghost<nat>,
    Ghost<Seq<Contact>>,
))
    ensures
        notices_offered(old(entry)@.pending_stale, max_payload, told.0@, told.1@),
        final(entry)@ == (ConnectionView {
            pending_stale: old(entry)@.pending_stale.skip(told.0@ as int),
            contacts: old(entry)@.contacts + told.1@,
            ..old(entry)@
        }),
{
    let ghost waiting = entry@.pending_stale;
    let ghost mut flushed: nat = 0;
    let ghost mut contacts: Seq<Contact> = Seq::empty();
    assert(waiting.skip(0) =~= waiting);
    assert(entry@.contacts + contacts =~= entry@.contacts);
    let mut open = true;
    while open && entry.pending_stale.len() > 0
        invariant
            waiting == old(entry)@.pending_stale,
            flushed <= waiting.len(),
            entry@ == (ConnectionView {
                pending_stale: waiting.skip(flushed as int),
                contacts: old(entry)@.contacts + contacts,
                ..old(entry)@
            }),
            open ==> contacts.len() == flushed,
            contacts.len() >= flushed,
            forall|i: int|
                0 <= i < flushed ==> notice_offered(
                    #[trigger] contacts[i],
                    waiting[i],
                    max_payload,
                    true,
                ),
            !open ==> notices_offered(waiting, max_payload, flushed, contacts),
        decreases entry.pending_stale@.len(), open as int,
    {
        let subscription = SubscriptionId::from_u64(entry.pending_stale[0]);
        let notice = ServerMessage::StaleNotification { subscription, seq: 0 };
        let ghost so_far = contacts;
        assert(notice@ == stale_notice(waiting[flushed as int]));
        let sent = match encode_server(&notice, max_payload) {
            Ok(frame) => {
                let ghost bytes = frame@;
                let answer = entry.transport.try_send_frame(frame);
                proof {
                    contacts = so_far.push(Contact::Frame { frame: bytes, answer });
                    assert(entry@.contacts =~= old(entry)@.contacts + contacts);
                }
                answer.is_ok()
            },
            Err(_) => false,
        };
        if sent {
            entry.pending_stale.pop_front();
            proof {
                assert(entry.pending_stale@ =~= waiting.skip((flushed + 1) as int));
                flushed = flushed + 1;
            }
        } else {
            open = false;
        }
    }
    (Ghost(flushed), Ghost(contacts))
}

/// Offers a message to a connection, after the stale notifications that
/// wait. Yields what came of it, how many of those went out, and by which
/// contacts with its transport.
#[verifier::spinoff_prover]
#[verifier::rlimit(40)]
fn offer_to<C: Connection>(
    entry: &mut ConnectionEntry<C>,
    message: &ServerMessage,
    max_payload: u32,
) -> (outcome: (Offer, Ghost<nat>, Ghost<Seq<Contact>>))
    requires
        server_encodable(message@),
    ensures
        outcome.1@ <= old(entry)@.pending_stale.len(),
        outcome.0 is Withheld <==> old(entry)@.stale && !passes_stale(message@),
        outcome.0 is Oversized ==> server_payload(message@).len() > max_payload,
        message_offered(
            message@,
            old(entry)@.pending_stale,
            max_payload,
            outcome.1@,
            outcome.0,
            outcome.2@,
        ),
        final(entry)@ == (ConnectionView {
            pending_stale: old(entry)@.pending_stale.skip(outcome.1@ as int),
            contacts: old(entry)@.contacts + outcome.2@,
            ..old(entry)@
        }),
{
    let ghost waiting = entry@.pending_stale;
    let ghost start = entry@.contacts;
    let signal = is_stale_signal(message);
    let (Ghost(early), Ghost(first)) = flush_stale(entry, max_payload);
    if entry.stale && !signal {
        return (Offer::Withheld, Ghost(early), Ghost(first));
    }
    let direct = entry.transport.try_send_direct(message, max_payload);
    let ghost begun = first + direct_contact(message@, max_payload, direct);
    assert(entry@.contacts =~= start + begun);
    let ghost mut attempt = Attempt {
        first,
        early,
        direct,
        second: Seq::empty(),
        framed: Ok(()),
    };
    if direct.is_ok() {
        assert(attempt.went(message@, waiting, max_payload, early, Offer::Taken, begun));
        return (Offer::Taken, Ghost(early), Ghost(begun));
    }
    match encode_server(message, max_payload) {
        Err(_) => {
            assert(attempt.went(message@, waiting, max_payload, early, Offer::Oversized, begun));
            (Offer::Oversized, Ghost(early), Ghost(begun))
        },
        Ok(frame) => {
            let ghost bytes = frame@;
            let (Ghost(late), Ghost(second)) = flush_stale(entry, max_payload);
            let framed = entry.transport.try_send_frame(frame);
            let outcome = match framed {
                Ok(_) => Offer::Taken,
                Err(TransportError::Full) => Offer::Full,
                Err(_) => Offer::Broken,
            };
            let ghost contacts = begun + second.push(Contact::Frame { frame: bytes, answer: framed });
            proof {
                attempt = Attempt { first, early, direct, second, framed };
                assert(waiting.skip(early as int).skip(late as int) =~= waiting.skip(
                    (early + late) as int,
                ));
                assert(entry@.contacts =~= start + contacts);
                assert(attempt.went(
                    message@,
                    waiting,
                    max_payload,
                    (early + late) as nat,
                    outcome,
                    contacts,
                ));
            }
            (outcome, Ghost((early + late) as nat), Ghost(contacts))
        },
    }
}

/// Maps a core error to a stable wire error code.
pub fn error_code(error: &Error) -> (code: u16)
    ensures
        code == error_code_of(error@),
{
    match error {
        Error::NotFound(_) => 10,
        Error::AlreadyExists(_) => 11,
        Error::InvalidArgument(_) => 12,
        Error::Conflict(_) => 13,
        Error::AlreadyCommitted(_) => 14,
        Error::AlreadyAborted(_) => 15,
        Error::InvalidTransaction(_) => 16,
        Error::Capacity(_) => 17,
        Error::Internal(_) => 18,
        Error::Unsupported(_) => 19,
    }
}

/// Maps a runtime error to a stable wire error code: that of the core error
/// it carries, or 30.
pub fn runtime_error_code(error: &RuntimeError) -> (code: u16)
    ensures
        code == runtime_error_code_of(error@),
{
    match error.core_error() {
        Some(core_error) => error_code(core_error),
        None => 30,
    }
}


} // verus!
