//! The mathematical model of the gateway: its state, and each operation as a
//! transition of it under a record of exchanges.
//!
//! Every transition takes the whole record `h` and reads from it the answers
//! that come after those recorded in the state.

use vstd::prelude::*;
use vstd::utf8::*;

use crate::base::error::ErrorView;
use crate::base::ids::{ConnectionId, SessionId, SubscriptionId, WorldId};
use crate::base::input::{InputCommandView, InputFrameView};
use crate::base::log::logged;
use crate::base::message::{CallResultView, ReducerCallView, TickResultView};
use crate::base::query::QueryView;
use crate::base::subscription::SubscriptionUpdateView;
use crate::base::table::ascending;
use crate::base::text::decimal;
use crate::base::value::ValueView;
use crate::network::auth::PrincipalView;
use crate::network::config::{NetworkConfigView, NetworkEventView, OutboundOverflowPolicy};
use crate::network::error::{
    AuthErrorView, NetworkErrorView, ProtocolErrorView, TransportError,
};
use crate::network::frame::{over_limit_text, PROTOCOL_VERSION};
use crate::network::host::{Exchange, Offer, Operation, PendingUpdatesView};
use crate::network::transport::Contact;
use crate::network::metrics::NetworkCounters;
use crate::network::protocol::{
    client_decoded, server_payload, ClientMessageView, DeltaEntryView, DeltaKind, ServerMessageView,
};
use crate::network::rate::{RateBucket, RateLimiter};
use crate::network::session::SessionView;
use crate::reducer::args::{with_entry, Entries};
use crate::runtime::error::RuntimeErrorView;
use crate::runtime::metrics::counted;
use crate::runtime::model::RuntimeView;

verus! {

// ------------------------------------------------------------------- errors

/// The stable wire code of a core error.
pub open spec fn error_code_of(error: ErrorView) -> u16 {
    match error {
        ErrorView::NotFound(_) => 10,
        ErrorView::AlreadyExists(_) => 11,
        ErrorView::InvalidArgument(_) => 12,
        ErrorView::Conflict(_) => 13,
        ErrorView::AlreadyCommitted(_) => 14,
        ErrorView::AlreadyAborted(_) => 15,
        ErrorView::InvalidTransaction(_) => 16,
        ErrorView::Capacity(_) => 17,
        ErrorView::Internal(_) => 18,
        ErrorView::Unsupported(_) => 19,
    }
}

/// The stable wire code of a runtime error: that of the core error it
/// carries, or 30.
pub open spec fn runtime_error_code_of(error: RuntimeErrorView) -> u16 {
    match error.cause() {
        Some(core_error) => error_code_of(core_error),
        None => 30,
    }
}

/// An error message.
pub open spec fn error_reply(code: u16, message: Seq<char>, request_id: u64) -> ServerMessageView {
    ServerMessageView::Error { code, message, request_id }
}

/// The failure of a reducer call.
pub open spec fn call_failure(request_id: u64, message: Seq<char>) -> ServerMessageView {
    ServerMessageView::ReducerResult { request_id, ok: false, value: None, error: Some(message) }
}

/// Whether a message passes even while the session is stale.
pub open spec fn passes_stale(message: ServerMessageView) -> bool {
    message is StaleNotification || message is Disconnect || message is Error
}

// -------------------------------------------------------------- subscriptions

/// The message that tells one update of a subscription.
pub open spec fn update_message(
    subscription: SubscriptionId,
    request_id: u64,
    update: SubscriptionUpdateView,
) -> ServerMessageView {
    match update {
        SubscriptionUpdateView::Initial { seq, rows } => ServerMessageView::SubscriptionSnapshot {
            request_id,
            subscription,
            seq,
            rows,
        },
        SubscriptionUpdateView::Resync { seq, rows } => ServerMessageView::SubscriptionSnapshot {
            request_id: 0,
            subscription,
            seq,
            rows,
        },
        SubscriptionUpdateView::Insert { seq, row } => ServerMessageView::SubscriptionDelta {
            subscription,
            seq,
            kind: DeltaKind::Insert,
            row_id: row.row_id,
            row: Some(row),
        },
        SubscriptionUpdateView::Update { seq, row } => ServerMessageView::SubscriptionDelta {
            subscription,
            seq,
            kind: DeltaKind::Update,
            row_id: row.row_id,
            row: Some(row),
        },
        SubscriptionUpdateView::Delete { seq, row_id } => ServerMessageView::SubscriptionDelta {
            subscription,
            seq,
            kind: DeltaKind::Delete,
            row_id,
            row: None,
        },
        SubscriptionUpdateView::Stale { seq } => ServerMessageView::StaleNotification {
            subscription,
            seq,
        },
    }
}

/// The delta an update amounts to, if it changes one row.
pub open spec fn update_delta(update: SubscriptionUpdateView) -> Option<DeltaEntryView> {
    match update {
        SubscriptionUpdateView::Insert { seq, row } => Some(
            DeltaEntryView { seq, kind: DeltaKind::Insert, row_id: row.row_id, row: Some(row) },
        ),
        SubscriptionUpdateView::Update { seq, row } => Some(
            DeltaEntryView { seq, kind: DeltaKind::Update, row_id: row.row_id, row: Some(row) },
        ),
        SubscriptionUpdateView::Delete { seq, row_id } => Some(
            DeltaEntryView { seq, kind: DeltaKind::Delete, row_id, row: None },
        ),
        _ => None,
    }
}

/// The deltas among some updates, in order.
pub open spec fn deltas_of(updates: Seq<SubscriptionUpdateView>) -> Seq<DeltaEntryView>
    decreases updates.len(),
{
    if updates.len() == 0 {
        Seq::empty()
    } else {
        match update_delta(updates.last()) {
            Some(delta) => deltas_of(updates.drop_last()).push(delta),
            None => deltas_of(updates.drop_last()),
        }
    }
}

/// The messages of the updates among some that are no deltas, in order.
pub open spec fn whole_updates(
    subscription: SubscriptionId,
    request_id: u64,
    updates: Seq<SubscriptionUpdateView>,
) -> Seq<ServerMessageView>
    decreases updates.len(),
{
    if updates.len() == 0 {
        Seq::empty()
    } else {
        let earlier = whole_updates(subscription, request_id, updates.drop_last());
        match update_delta(updates.last()) {
            Some(_) => earlier,
            None => earlier.push(update_message(subscription, request_id, updates.last())),
        }
    }
}

/// The messages that tell several updates: one update goes alone, several
/// deltas go in one batch behind the updates that are none.
pub open spec fn update_messages(
    subscription: SubscriptionId,
    request_id: u64,
    updates: Seq<SubscriptionUpdateView>,
) -> Seq<ServerMessageView> {
    if updates.len() == 0 {
        Seq::empty()
    } else if updates.len() == 1 {
        seq![update_message(subscription, request_id, updates[0])]
    } else {
        let whole = whole_updates(subscription, request_id, updates);
        let deltas = deltas_of(updates);
        if deltas.len() == 0 {
            whole
        } else {
            whole.push(
                ServerMessageView::SubscriptionDeltaBatch { subscription, request_id, deltas },
            )
        }
    }
}

/// The last pending updates listed for a subscription, if any.
pub open spec fn updates_for(
    drained: Seq<PendingUpdatesView>,
    subscription: SubscriptionId,
) -> Option<Seq<SubscriptionUpdateView>>
    decreases drained.len(),
{
    if drained.len() == 0 {
        None
    } else if drained.last().subscription == subscription {
        Some(drained.last().updates)
    } else {
        updates_for(drained.drop_last(), subscription)
    }
}

/// A total advanced by as much as a counter went from one value to another.
/// Counters wrap.
pub open spec fn advanced(total: u64, earlier: u64, later: u64) -> u64 {
    ((total + later - earlier) % 0x1_0000_0000_0000_0000) as u64
}

// -------------------------------------------------------------------- state

/// What the gateway keeps of a connection.
pub struct ConnectionView {
    pub session: Option<SessionView>,
    pub subscriptions: Map<u64, WorldId>,
    pub pending_ids: Set<u64>,
    pub stale: bool,
    pub pending_stale: Seq<u64>,
    pub rate: RateLimiter,
    pub contacts: Seq<Contact>,
}

/// A client reducer call that waits for its result.
pub struct PendingView {
    pub world: WorldId,
    pub connection: ConnectionId,
    pub client_request_id: u64,
}

/// The mathematical content of a gateway.
pub struct GatewayView {
    pub runtime: RuntimeView,
    pub config: NetworkConfigView,
    pub server_name: Seq<char>,
    pub connections: Map<u64, ConnectionView>,
    pub next_connection: u64,
    pub next_session: u64,
    pub pending: Map<u64, PendingView>,
    pub next_gateway_request: u64,
    pub ended: Seq<(WorldId, SubscriptionId)>,
    pub events: Seq<NetworkEventView>,
    pub counters: NetworkCounters,
    pub history: Seq<Exchange>,
    pub retired: Map<u64, Seq<Contact>>,
}

/// The report of one pass over inbound frames.
#[derive(Clone, Copy, Debug, PartialEq, Eq, Structural)]
pub struct ProcessReport {
    /// Frames pulled from the transports.
    pub frames_received: u64,
    /// Frames decoded and dispatched.
    pub dispatched: u64,
    /// Frames rejected (protocol violations).
    pub rejected: u64,
    /// Connections dropped during the pass.
    pub disconnected: u64,
}

/// The report of one fan-out of tick results.
#[derive(Clone, Copy, Debug, PartialEq, Eq, Structural)]
pub struct StepReport {
    /// Worlds that committed a tick.
    pub worlds: u64,
    /// Tick update broadcasts enqueued to attached sessions.
    pub tick_updates_sent: u64,
    /// Subscription messages sent.
    pub subscription_messages_sent: u64,
    /// Messages dropped by the stale or overflow policy.
    pub messages_dropped: u64,
}

impl ConnectionView {
    /// A fresh connection over a transport with some log.
    pub open spec fn fresh(rate: RateLimiter, contacts: Seq<Contact>) -> ConnectionView {
        ConnectionView {
            session: None,
            subscriptions: Map::empty(),
            pending_ids: Set::empty(),
            stale: false,
            pending_stale: Seq::empty(),
            rate,
            contacts,
        }
    }

    /// The world the session is attached to, if any.
    pub open spec fn world(self) -> Option<WorldId> {
        match self.session {
            Some(session) => session.attached_world,
            None => None,
        }
    }
}

/// The subscriptions of a connection as they end, in ascending order.
pub open spec fn ended_of(subscriptions: Map<u64, WorldId>) -> Seq<(WorldId, SubscriptionId)> {
    let ids = ascending(subscriptions.dom());
    Seq::new(ids.len(), |i: int| (subscriptions[ids[i]], SubscriptionId(ids[i])))
}

/// The pending calls without those of a connection.
pub open spec fn without_calls(pending: Map<u64, PendingView>, connection: ConnectionId) -> Map<
    u64,
    PendingView,
> {
    Map::new(
        |g: u64| pending.contains_key(g) && pending[g].connection != connection,
        |g: u64| pending[g],
    )
}

/// A frame whose commands all come from one source.
pub open spec fn stamped(frame: InputFrameView, source: u64) -> InputFrameView {
    InputFrameView {
        tick: frame.tick,
        commands: Seq::new(
            frame.commands.len(),
            |i: int| InputCommandView { source, ..frame.commands[i] },
        ),
    }
}

/// Arguments that carry the caller's identity, whatever they carried before.
pub open spec fn with_caller(args: Entries, principal_id: u64) -> Entries {
    with_entry(args, "__caller"@, ValueView::U64(principal_id))
}

impl GatewayView {
    // ------------------------------------------------------------- helpers

    /// The next exchange of a record.
    pub open spec fn next(self, h: Seq<Exchange>) -> Exchange {
        h[self.history.len() as int]
    }

    /// The gateway after one more exchange was recorded.
    pub open spec fn recorded(self, exchange: Exchange) -> GatewayView {
        GatewayView { history: self.history.push(exchange), ..self }
    }

    /// The gateway after one more event.
    pub open spec fn with_event(self, event: NetworkEventView) -> GatewayView {
        GatewayView {
            events: logged(self.events, self.config.event_log_limit as nat, event),
            ..self
        }
    }

    /// The gateway with other counters.
    pub open spec fn with_counters(self, counters: NetworkCounters) -> GatewayView {
        GatewayView { counters, ..self }
    }

    /// The gateway with a connection's entry replaced.
    pub open spec fn with_connection(self, c: ConnectionId, entry: ConnectionView) -> GatewayView {
        GatewayView { connections: self.connections.insert(c.0, entry), ..self }
    }

    /// The gateway after some contacts with a connection's transport.
    pub open spec fn contacted(self, c: ConnectionId, contacts: Seq<Contact>) -> GatewayView {
        let entry = self.connections[c.0];
        self.with_connection(c, ConnectionView { contacts: entry.contacts + contacts, ..entry })
    }

    /// The gateway with a connection's session replaced.
    pub open spec fn with_session(self, c: ConnectionId, session: SessionView) -> GatewayView {
        self.with_connection(
            c,
            ConnectionView { session: Some(session), ..self.connections[c.0] },
        )
    }

    /// The gateway with a connection's subscriptions replaced.
    pub open spec fn with_subscriptions(
        self,
        c: ConnectionId,
        subscriptions: Map<u64, WorldId>,
    ) -> GatewayView {
        self.with_connection(c, ConnectionView { subscriptions, ..self.connections[c.0] })
    }

    // --------------------------------------------------------- connections

    /// Registering a connection over a transport with some log: it gets the
    /// next id, within the limit.
    pub open spec fn connection_registered(self, contacts: Seq<Contact>) -> (
        GatewayView,
        Result<ConnectionId, NetworkErrorView>,
    ) {
        if self.connections.len() >= self.config.max_connections || self.next_connection
            == u64::MAX {
            (self, Err(NetworkErrorView::ConnectionLimit))
        } else {
            let c = ConnectionId(self.next_connection);
            (
                GatewayView {
                    next_connection: (self.next_connection + 1) as u64,
                    ..self.with_connection(
                        c,
                        ConnectionView::fresh(
                            RateLimiter::fresh(self.config.rate_limits),
                            contacts,
                        ),
                    )
                }.with_event(NetworkEventView::ConnectionOpened { connection: c }),
                Ok(c),
            )
        }
    }

    /// Dropping a connection: its transport is closed, its subscriptions end,
    /// its pending calls are forgotten. An unknown connection is no error.
    pub open spec fn dropped(self, c: ConnectionId, reason: Seq<char>) -> GatewayView {
        if !self.connections.contains_key(c.0) {
            self
        } else {
            GatewayView {
                connections: self.connections.remove(c.0),
                ended: self.ended + ended_of(self.connections[c.0].subscriptions),
                pending: without_calls(self.pending, c),
                counters: NetworkCounters {
                    clients_dropped: counted(self.counters.clients_dropped),
                    ..self.counters
                },
                retired: self.retired.insert(
                    c.0,
                    self.connections[c.0].contacts.push(Contact::Closed),
                ),
                ..self
            }.with_event(NetworkEventView::ConnectionClosed { connection: c, reason })
        }
    }

    /// Closing a connection: it is told the reason if possible, then dropped.
    #[verifier::opaque]
    pub open spec fn disconnected(
        self,
        c: ConnectionId,
        reason: Seq<char>,
        h: Seq<Exchange>,
    ) -> GatewayView {
        if !self.connections.contains_key(c.0) {
            self
        } else {
            let (taken, contacts) = match self.next(h) {
                Exchange::Farewell { taken, contacts, .. } => (taken, contacts),
                _ => (false, Seq::empty()),
            };
            self.recorded(
                Exchange::Farewell { connection: c, reason, taken, contacts },
            ).contacted(c, contacts).dropped(c, reason)
        }
    }

    // ------------------------------------------------------------ outbound

    /// Marking a session stale: a notification waits for each subscription,
    /// in ascending order.
    pub open spec fn marked_stale(self, c: ConnectionId) -> GatewayView {
        let entry = self.connections[c.0];
        let notices = if self.config.max_frame_payload >= 16 {
            ascending(entry.subscriptions.dom())
        } else {
            Seq::empty()
        };
        self.with_connection(
            c,
            ConnectionView { stale: true, pending_stale: entry.pending_stale + notices, ..entry },
        ).with_event(NetworkEventView::SessionStale { connection: c })
    }

    /// What came of offering a message, as a record tells it: no more stale
    /// notifications go out than wait, a message is over the frame bound only
    /// if its payload is, and one is withheld from a stale session only.
    pub open spec fn offer(self, c: ConnectionId, message: ServerMessageView, h: Seq<Exchange>) -> (
        nat,
        Offer,
        Seq<Contact>,
    ) {
        let entry = self.connections[c.0];
        let (told, offer, contacts) = match self.next(h) {
            Exchange::Offered { flushed, offer, contacts, .. } => (flushed, offer, contacts),
            _ => (0, Offer::Broken, Seq::empty()),
        };
        let flushed = if told <= entry.pending_stale.len() {
            told
        } else {
            entry.pending_stale.len()
        };
        if entry.stale && !passes_stale(message) {
            (flushed, Offer::Withheld, contacts)
        } else {
            match offer {
                Offer::Withheld => (flushed, Offer::Broken, contacts),
                Offer::Oversized => if server_payload(message).len()
                    > self.config.max_frame_payload {
                    (flushed, Offer::Oversized, contacts)
                } else {
                    (flushed, Offer::Broken, contacts)
                },
                _ => (flushed, offer, contacts),
            }
        }
    }

    /// Sending a message to a connection. Stale notifications that wait go
    /// first. Yields whether the message was taken.
    #[verifier::opaque]
    pub open spec fn sent(self, c: ConnectionId, message: ServerMessageView, h: Seq<Exchange>) -> (
        GatewayView,
        Result<bool, NetworkErrorView>,
    ) {
        if !self.connections.contains_key(c.0) {
            (self, Err(NetworkErrorView::UnknownConnection(c)))
        } else {
            let (flushed, offer, contacts) = self.offer(c, message, h);
            let entry = self.connections[c.0];
            let offered = self.recorded(
                Exchange::Offered {
                    connection: c,
                    message,
                    waiting: entry.pending_stale,
                    flushed,
                    offer,
                    contacts,
                },
            ).with_connection(
                c,
                ConnectionView {
                    pending_stale: entry.pending_stale.skip(flushed as int),
                    contacts: entry.contacts + contacts,
                    ..entry
                },
            );
            let missed = NetworkCounters {
                messages_dropped: counted(self.counters.messages_dropped),
                ..self.counters
            };
            match offer {
                Offer::Withheld => (offered.with_counters(missed), Ok(false)),
                Offer::Taken => (
                    offered.with_counters(
                        NetworkCounters {
                            messages_outbound: counted(self.counters.messages_outbound),
                            ..self.counters
                        },
                    ),
                    Ok(true),
                ),
                Offer::Oversized => (
                    offered,
                    Err(
                        NetworkErrorView::Capacity(
                            over_limit_text(
                                server_payload(message).len(),
                                self.config.max_frame_payload,
                            ),
                        ),
                    ),
                ),
                Offer::Full => match self.config.overflow_policy {
                    OutboundOverflowPolicy::Stale => (
                        if entry.stale {
                            offered.with_counters(missed)
                        } else {
                            offered.with_counters(missed).marked_stale(c)
                        },
                        Ok(false),
                    ),
                    OutboundOverflowPolicy::Disconnect => (
                        offered.with_counters(missed).disconnected(
                            c,
                            "slow consumer (outbound queue full)"@,
                            h,
                        ),
                        Ok(false),
                    ),
                },
                Offer::Broken => (offered.dropped(c, "transport failure"@), Ok(false)),
            }
        }
    }

    /// The gateway after a reply was sent.
    #[verifier::opaque]
    pub open spec fn replied(
        self,
        c: ConnectionId,
        message: ServerMessageView,
        h: Seq<Exchange>,
    ) -> GatewayView {
        self.sent(c, message, h).0
    }

    /// Sending subscription messages in order; each one taken is counted.
    pub open spec fn updates_sent(
        self,
        c: ConnectionId,
        messages: Seq<ServerMessageView>,
        h: Seq<Exchange>,
    ) -> GatewayView
        decreases messages.len(),
    {
        if messages.len() == 0 {
            self
        } else {
            let (after, taken) = self.updates_sent(c, messages.drop_last(), h).sent(
                c,
                messages.last(),
                h,
            );
            if taken == Ok::<bool, NetworkErrorView>(true) {
                after.with_counters(
                    NetworkCounters {
                        subscription_messages_sent: counted(
                            after.counters.subscription_messages_sent,
                        ),
                        ..after.counters
                    },
                )
            } else {
                after
            }
        }
    }

    /// Asking every listed connection to write what it buffers. Yields those
    /// that failed, in order.
    pub open spec fn flush_asked(self, ids: Seq<u64>, h: Seq<Exchange>) -> (GatewayView, Seq<u64>)
        decreases ids.len(),
    {
        if ids.len() == 0 {
            (self, Seq::empty())
        } else {
            let (before, failed) = self.flush_asked(ids.drop_last(), h);
            let c = ConnectionId(ids.last());
            let answer = match before.next(h) {
                Exchange::Flushed { answer, .. } => answer,
                _ => Err(TransportError::Closed),
            };
            (
                before.recorded(Exchange::Flushed { connection: c, answer }).contacted(
                    c,
                    seq![Contact::Flushed { answer }],
                ),
                if answer is Ok {
                    failed
                } else {
                    failed.push(ids.last())
                },
            )
        }
    }

    /// Dropping several connections for the same reason.
    pub open spec fn all_dropped(self, ids: Seq<u64>, reason: Seq<char>) -> GatewayView
        decreases ids.len(),
    {
        if ids.len() == 0 {
            self
        } else {
            self.all_dropped(ids.drop_last(), reason).dropped(ConnectionId(ids.last()), reason)
        }
    }

    /// Flushing: every connection writes what it buffers, and those that
    /// cannot are dropped.
    #[verifier::opaque]
    pub open spec fn flushed(self, h: Seq<Exchange>) -> GatewayView {
        let (asked, failed) = self.flush_asked(ascending(self.connections.dom()), h);
        asked.all_dropped(failed, "transport write failure"@)
    }

    /// Taking a slot of a rate bucket; over the limit that is counted.
    pub open spec fn rate_taken(self, c: ConnectionId, bucket: RateBucket, now: u64) -> (
        GatewayView,
        bool,
    ) {
        let entry = self.connections[c.0];
        let taken = self.with_connection(
            c,
            ConnectionView { rate: entry.rate.taken(bucket, now), ..entry },
        );
        if entry.rate.window(bucket).allows(now) {
            (taken, true)
        } else {
            (
                taken.with_counters(
                    NetworkCounters {
                        rate_limited: counted(self.counters.rate_limited),
                        ..self.counters
                    },
                ),
                false,
            )
        }
    }

    /// Taking a slot of a rate bucket. Over the limit the operation is
    /// answered with an error that names the request.
    pub open spec fn rate_checked(
        self,
        c: ConnectionId,
        bucket: RateBucket,
        request_id: u64,
        now: u64,
        h: Seq<Exchange>,
    ) -> (GatewayView, bool) {
        let (s, allowed) = self.rate_taken(c, bucket, now);
        if allowed {
            (s, true)
        } else {
            (s.replied(c, error_reply(19, "rate limit exceeded"@, request_id), h), false)
        }
    }

    // ------------------------------------------------------------ handlers

    /// A handshake: another protocol version is refused and disconnected.
    #[verifier::opaque]
    pub open spec fn handshaken(self, c: ConnectionId, version: u16, h: Seq<Exchange>) -> GatewayView {
        if version != PROTOCOL_VERSION {
            self.replied(c, error_reply(2, "unsupported protocol version"@, 0), h).disconnected(
                c,
                "unsupported protocol version"@,
                h,
            )
        } else {
            self.replied(
                c,
                ServerMessageView::HandshakeResponse {
                    version: PROTOCOL_VERSION,
                    server_name: self.server_name,
                },
                h,
            )
        }
    }

    /// What became of credentials that were presented.
    #[verifier::opaque]
    pub open spec fn identified(
        self,
        c: ConnectionId,
        outcome: Result<PrincipalView, AuthErrorView>,
        h: Seq<Exchange>,
    ) -> GatewayView {
        match outcome {
            Ok(principal) => {
                let session = SessionView {
                    id: SessionId(self.next_session),
                    connection: c,
                    principal,
                    attached_world: None,
                };
                GatewayView {
                    next_session: counted(self.next_session),
                    ..self.with_session(c, session)
                }.with_event(
                    NetworkEventView::Authenticated { connection: c, principal_id: principal.id },
                ).replied(
                    c,
                    ServerMessageView::AuthResult {
                        ok: true,
                        principal: Some(principal),
                        error: None,
                    },
                    h,
                )
            },
            Err(error) => self.with_counters(
                NetworkCounters {
                    auth_failures: counted(self.counters.auth_failures),
                    ..self.counters
                },
            ).with_event(NetworkEventView::AuthFailed { connection: c }).replied(
                c,
                ServerMessageView::AuthResult {
                    ok: false,
                    principal: None,
                    error: Some(error.text()),
                },
                h,
            ),
        }
    }

    /// An authentication attempt.
    #[verifier::opaque]
    pub open spec fn authenticated(
        self,
        c: ConnectionId,
        credentials: Seq<char>,
        now: u64,
        h: Seq<Exchange>,
    ) -> GatewayView {
        let (s, allowed) = self.rate_checked(c, RateBucket::Auth, 0, now, h);
        if !allowed {
            s
        } else if s.connections[c.0].session is Some {
            s.replied(c, error_reply(20, "already authenticated"@, 0), h)
        } else {
            let outcome = match s.next(h) {
                Exchange::Authenticated { outcome, .. } => outcome,
                _ => Err(AuthErrorView::InvalidCredentials),
            };
            s.recorded(Exchange::Authenticated { credentials, outcome }).identified(c, outcome, h)
        }
    }

    /// What the policy decides on an operation, and the gateway after that was
    /// recorded.
    pub open spec fn authorized(
        self,
        principal: PrincipalView,
        operation: Operation,
        h: Seq<Exchange>,
    ) -> (GatewayView, bool) {
        let allowed = self.next(h) matches Exchange::Authorized { allowed: true, .. };
        (self.recorded(Exchange::Authorized { principal, operation, allowed }), allowed)
    }

    /// A successful or repeated attachment is confirmed.
    #[verifier::opaque]
    pub open spec fn attach_confirmed(self, c: ConnectionId, world: WorldId, h: Seq<Exchange>) -> GatewayView {
        self.replied(
            c,
            ServerMessageView::AttachResult { ok: true, world: Some(world), error: None },
            h,
        )
    }

    /// A failed attachment is answered with the reason.
    #[verifier::opaque]
    pub open spec fn attach_refused(self, c: ConnectionId, reason: Seq<char>, h: Seq<Exchange>) -> GatewayView {
        self.replied(
            c,
            ServerMessageView::AttachResult { ok: false, world: None, error: Some(reason) },
            h,
        )
    }

    /// Attaching a session to a world.
    #[verifier::opaque]
    pub open spec fn attached(self, c: ConnectionId, world: WorldId, h: Seq<Exchange>) -> GatewayView {
        let entry = self.connections[c.0];
        match entry.session {
            None => self.replied(c, error_reply(20, "authentication required"@, 0), h),
            Some(session) => match session.attached_world {
                Some(current) => if current == world {
                    self.attach_confirmed(c, world, h)
                } else {
                    self.replied(
                        c,
                        error_reply(
                            21,
                            "session is already attached to a different world"@,
                            0,
                        ),
                        h,
                    )
                },
                None => if !self.runtime.worlds.contains_key(world.0) {
                    self.attach_refused(c, "unknown world "@ + decimal(world.0 as nat), h)
                } else {
                    let (s, allowed) = self.authorized(
                        session.principal,
                        Operation::Attach { world },
                        h,
                    );
                    if !allowed {
                        s.with_counters(
                            NetworkCounters {
                                policy_rejections: counted(s.counters.policy_rejections),
                                ..s.counters
                            },
                        ).attach_refused(c, "not authorized to attach to this world"@, h)
                    } else {
                        s.with_session(
                            c,
                            SessionView { attached_world: Some(world), ..session },
                        ).with_event(
                            NetworkEventView::Attached { connection: c, world },
                        ).attach_confirmed(c, world, h)
                    }
                },
            },
        }
    }

    /// A rejected input is answered and counted.
    #[verifier::opaque]
    pub open spec fn input_refused(
        self,
        c: ConnectionId,
        code: u16,
        reason: Seq<char>,
        h: Seq<Exchange>,
    ) -> GatewayView {
        let after = self.replied(c, error_reply(code, reason, 0), h);
        after.with_counters(
            NetworkCounters {
                inputs_rejected: counted(after.counters.inputs_rejected),
                ..after.counters
            },
        )
    }

    /// Routing an input frame: every command is stamped with the
    /// authenticated principal, whatever source the client claimed.
    #[verifier::opaque]
    pub open spec fn input_handled(
        self,
        c: ConnectionId,
        frame: InputFrameView,
        h: Seq<Exchange>,
    ) -> GatewayView {
        match self.connections[c.0].session {
            None => self.input_refused(c, 20, "authentication required"@, h),
            Some(session) => match session.attached_world {
                None => self.input_refused(
                    c,
                    21,
                    "attach to a world before submitting input"@,
                    h,
                ),
                Some(world) => if frame.commands.len() > self.config.max_commands_per_frame {
                    self.input_refused(c, 17, "too many commands in frame"@, h)
                } else {
                    let frame = stamped(frame, session.principal.id);
                    let (s, allowed) = self.authorized(
                        session.principal,
                        Operation::Input { world, frame },
                        h,
                    );
                    if !allowed {
                        s.with_counters(
                            NetworkCounters {
                                policy_rejections: counted(s.counters.policy_rejections),
                                ..s.counters
                            },
                        ).input_refused(c, 18, "not authorized by game policy"@, h)
                    } else {
                        let (runtime, outcome) = s.runtime.input_submitted(world, frame);
                        let submitted = GatewayView { runtime, ..s };
                        match outcome {
                            Ok(_) => submitted.with_counters(
                                NetworkCounters {
                                    inputs_accepted: counted(s.counters.inputs_accepted),
                                    ..s.counters
                                },
                            ),
                            Err(error) => submitted.input_refused(
                                c,
                                runtime_error_code_of(error),
                                error.text(),
                                h,
                            ),
                        }
                    }
                },
            },
        }
    }

    /// Draining one subscription and telling its updates.
    #[verifier::opaque]
    pub open spec fn pumped(
        self,
        c: ConnectionId,
        world: WorldId,
        subscription: SubscriptionId,
        request_id: u64,
        h: Seq<Exchange>,
    ) -> GatewayView {
        match self.runtime.world_access(world) {
            Err(_) => self,
            Ok(_) => {
                let answer = match self.next(h) {
                    Exchange::Drained { answer, .. } => answer,
                    _ => Ok(Seq::empty()),
                };
                let drained = self.recorded(Exchange::Drained { world, subscription, answer });
                match answer {
                    Err(_) => drained,
                    Ok(updates) => drained.updates_sent(
                        c,
                        update_messages(subscription, request_id, updates),
                        h,
                    ),
                }
            },
        }
    }

    /// A failed subscription is answered with the runtime's error.
    #[verifier::opaque]
    pub open spec fn subscribe_failed(
        self,
        c: ConnectionId,
        error: RuntimeErrorView,
        request_id: u64,
        h: Seq<Exchange>,
    ) -> GatewayView {
        self.replied(c, error_reply(runtime_error_code_of(error), error.text(), request_id), h)
    }

    /// Establishing a subscription on the attached world: the initial
    /// snapshot and any rejection carry the client's request id.
    #[verifier::opaque]
    pub open spec fn subscribe_handled(
        self,
        c: ConnectionId,
        request_id: u64,
        query: QueryView,
        now: u64,
        h: Seq<Exchange>,
    ) -> GatewayView {
        let (s, allowed) = self.rate_checked(c, RateBucket::Subscribe, request_id, now, h);
        if allowed {
            s.subscribe_admitted(c, request_id, query, h)
        } else {
            s
        }
    }

    /// Establishing a subscription once the rate limit has been passed.
    #[verifier::opaque]
    pub open spec fn subscribe_admitted(
        self,
        c: ConnectionId,
        request_id: u64,
        query: QueryView,
        h: Seq<Exchange>,
    ) -> GatewayView {
        let entry = self.connections[c.0];
        match entry.session {
            None => self.replied(c, error_reply(20, "authentication required"@, request_id), h),
            Some(session) => match session.attached_world {
                None => self.replied(
                    c,
                    error_reply(21, "attach to a world before subscribing"@, request_id),
                    h,
                ),
                Some(world) => if entry.subscriptions.len()
                    >= self.config.max_subscriptions_per_session {
                    self.replied(
                        c,
                        error_reply(17, "subscription limit reached"@, request_id),
                        h,
                    )
                } else {
                    match self.runtime.world_access(world) {
                        Err(error) => self.subscribe_failed(c, error, request_id, h),
                        Ok(_) => {
                            let answer = match self.next(h) {
                                Exchange::Subscribed { answer, .. } => answer,
                                _ => Err(ErrorView::Internal(Seq::empty())),
                            };
                            let asked = self.recorded(
                                Exchange::Subscribed { world, query, answer },
                            );
                            let (runtime, outcome) = self.runtime.subscribed(world, answer);
                            let noted = GatewayView { runtime, ..asked };
                            match outcome {
                                Err(error) => noted.subscribe_failed(c, error, request_id, h),
                                Ok(subscription) => noted.with_subscriptions(
                                    c,
                                    entry.subscriptions.insert(subscription.0, world),
                                ).pumped(c, world, subscription, request_id, h),
                            }
                        },
                    }
                },
            },
        }
    }

    /// Ending a subscription.
    #[verifier::opaque]
    pub open spec fn unsubscribe_handled(
        self,
        c: ConnectionId,
        subscription: SubscriptionId,
        h: Seq<Exchange>,
    ) -> GatewayView {
        let entry = self.connections[c.0];
        if !entry.subscriptions.contains_key(subscription.0) {
            self.replied(c, error_reply(22, "unknown subscription"@, 0), h)
        } else {
            GatewayView {
                ended: self.ended.push((entry.subscriptions[subscription.0], subscription)),
                ..self.with_subscriptions(c, entry.subscriptions.remove(subscription.0))
            }
        }
    }

    /// Regenerating a subscription's view: the session is no longer stale.
    #[verifier::opaque]
    pub open spec fn resync_handled(
        self,
        c: ConnectionId,
        subscription: SubscriptionId,
        now: u64,
        h: Seq<Exchange>,
    ) -> GatewayView {
        let (s, allowed) = self.rate_checked(c, RateBucket::Resync, 0, now, h);
        if allowed {
            s.resync_admitted(c, subscription, h)
        } else {
            s
        }
    }

    /// Regenerating a view once the rate limit has been passed.
    #[verifier::opaque]
    pub open spec fn resync_admitted(
        self,
        c: ConnectionId,
        subscription: SubscriptionId,
        h: Seq<Exchange>,
    ) -> GatewayView {
        let entry = self.connections[c.0];
        if !entry.subscriptions.contains_key(subscription.0) {
            self.replied(c, error_reply(22, "unknown subscription"@, 0), h)
        } else {
            let world = entry.subscriptions[subscription.0];
            let cleared = self.with_connection(
                c,
                ConnectionView { stale: false, pending_stale: Seq::empty(), ..entry },
            );
            match self.runtime.world_access(world) {
                Err(error) => cleared.subscribe_failed(c, error, 0, h),
                Ok(_) => {
                    let answer = match self.next(h) {
                        Exchange::Resynced { answer, .. } => answer,
                        _ => Err(ErrorView::Internal(Seq::empty())),
                    };
                    let asked = cleared.recorded(
                        Exchange::Resynced { world, subscription, answer },
                    );
                    match answer {
                        Err(error) => asked.subscribe_failed(
                            c,
                            RuntimeErrorView::Core(error),
                            0,
                            h,
                        ),
                        Ok(_) => asked.pumped(c, world, subscription, 0, h),
                    }
                },
            }
        }
    }

    /// The gateway with a session's attachment, its subscriptions and its
    /// pending calls ended.
    pub open spec fn released(self, c: ConnectionId) -> GatewayView {
        let entry = self.connections[c.0];
        GatewayView {
            ended: self.ended + ended_of(entry.subscriptions),
            pending: without_calls(self.pending, c),
            ..self.with_connection(
                c,
                ConnectionView {
                    session: Some(SessionView { attached_world: None, ..entry.session->0 }),
                    subscriptions: Map::empty(),
                    pending_ids: Set::empty(),
                    ..entry
                },
            )
        }
    }

    /// Answering a connection's calls, in order, whose results it will not get.
    pub open spec fn calls_failed(
        self,
        c: ConnectionId,
        ids: Seq<u64>,
        reason: Seq<char>,
        h: Seq<Exchange>,
    ) -> GatewayView
        decreases ids.len(),
    {
        if ids.len() == 0 {
            self
        } else {
            let (after, taken) = self.calls_failed(c, ids.drop_last(), reason, h).sent(
                c,
                call_failure(ids.last(), reason),
                h,
            );
            if taken == Ok::<bool, NetworkErrorView>(true) {
                after.with_counters(
                    NetworkCounters {
                        reducer_results_sent: counted(after.counters.reducer_results_sent),
                        ..after.counters
                    },
                )
            } else {
                after
            }
        }
    }

    /// Ending a session's attachment, its subscriptions and its pending calls.
    /// Each of those calls is answered with a failure.
    #[verifier::opaque]
    pub open spec fn detached(self, c: ConnectionId, h: Seq<Exchange>) -> GatewayView {
        let entry = self.connections[c.0];
        match entry.session {
            None => self.replied(c, error_reply(20, "authentication required"@, 0), h),
            Some(session) => if session.attached_world is None {
                self.replied(c, error_reply(21, "session is not attached to a world"@, 0), h)
            } else {
                self.released(c).with_event(
                    NetworkEventView::Detached { connection: c },
                ).calls_failed(
                    c,
                    ascending(entry.pending_ids),
                    "detached from the world before the call was answered"@,
                    h,
                ).replied(c, ServerMessageView::DetachResult { ok: true, error: None }, h)
            },
        }
    }

    /// A rejected reducer call is answered with its request id and counted.
    #[verifier::opaque]
    pub open spec fn call_refused(
        self,
        c: ConnectionId,
        request_id: u64,
        reason: Seq<char>,
        h: Seq<Exchange>,
    ) -> GatewayView {
        let after = self.replied(c, call_failure(request_id, reason), h);
        after.with_counters(
            NetworkCounters {
                reducer_calls_rejected: counted(after.counters.reducer_calls_rejected),
                ..after.counters
            },
        )
    }

    /// Why a reducer call is refused before the policy is asked, if it is.
    pub open spec fn call_refusal(
        self,
        c: ConnectionId,
        request_id: u64,
        reducer: Seq<char>,
        args: Entries,
    ) -> Option<Seq<char>> {
        let entry = self.connections[c.0];
        if request_id >= 0x8000_0000_0000_0000 {
            Some("request id reserved for server use"@)
        } else if entry.session is None {
            Some("authentication required"@)
        } else if entry.world() is None {
            Some("attach to a world before calling a reducer"@)
        } else if encode_utf8(reducer).len() > self.config.max_reducer_name_len {
            Some("reducer name too long"@)
        } else if args.len() > self.config.max_reducer_args {
            Some("too many reducer arguments"@)
        } else if entry.pending_ids.len() >= self.config.max_pending_calls_per_connection {
            Some("too many pending reducer calls"@)
        } else if entry.pending_ids.contains(request_id) {
            Some("request id already pending"@)
        } else if self.next_gateway_request == u64::MAX {
            Some("request ids exhausted"@)
        } else {
            None
        }
    }

    /// The gateway with a call of a connection noted as pending under the next
    /// request id of the gateway's own.
    pub open spec fn call_noted(self, c: ConnectionId, request_id: u64) -> GatewayView {
        let entry = self.connections[c.0];
        GatewayView {
            next_gateway_request: (self.next_gateway_request + 1) as u64,
            pending: self.pending.insert(
                self.next_gateway_request,
                PendingView {
                    world: entry.world()->0,
                    connection: c,
                    client_request_id: request_id,
                },
            ),
            ..self.with_connection(
                c,
                ConnectionView { pending_ids: entry.pending_ids.insert(request_id), ..entry },
            )
        }
    }

    /// Queueing an authorized reducer call under a request id of the
    /// gateway's own, with the caller's identity stamped into its arguments.
    #[verifier::opaque]
    pub open spec fn call_queued(
        self,
        c: ConnectionId,
        request_id: u64,
        reducer: Seq<char>,
        args: Entries,
        h: Seq<Exchange>,
    ) -> GatewayView {
        let entry = self.connections[c.0];
        let world = entry.world()->0;
        let gateway_id = self.next_gateway_request;
        let call = ReducerCallView {
            request_id: gateway_id,
            reducer,
            args: with_caller(args, entry.session->0.principal.id),
        };
        let (runtime, outcome) = self.runtime.call_submitted(world, call);
        let submitted = GatewayView { runtime, ..self };
        match outcome {
            Ok(_) => submitted.call_noted(c, request_id).with_counters(
                NetworkCounters {
                    reducer_calls_accepted: counted(self.counters.reducer_calls_accepted),
                    ..self.counters
                },
            ),
            Err(error) => GatewayView {
                next_gateway_request: (gateway_id + 1) as u64,
                ..submitted
            }.call_refused(c, request_id, error.text(), h),
        }
    }

    /// Routing a reducer call to the attached world.
    #[verifier::opaque]
    pub open spec fn call_handled(
        self,
        c: ConnectionId,
        request_id: u64,
        reducer: Seq<char>,
        args: Entries,
        now: u64,
        h: Seq<Exchange>,
    ) -> GatewayView {
        let (s, allowed) = self.rate_taken(c, RateBucket::Reducer, now);
        if allowed {
            s.call_admitted(c, request_id, reducer, args, h)
        } else {
            s.call_refused(c, request_id, "rate limit exceeded"@, h)
        }
    }

    /// Routing a reducer call once the rate limit has been passed.
    #[verifier::opaque]
    pub open spec fn call_admitted(
        self,
        c: ConnectionId,
        request_id: u64,
        reducer: Seq<char>,
        args: Entries,
        h: Seq<Exchange>,
    ) -> GatewayView {
        match self.call_refusal(c, request_id, reducer, args) {
            Some(reason) => self.call_refused(c, request_id, reason, h),
            None => {
                let entry = self.connections[c.0];
                let (s, allowed) = self.authorized(
                    entry.session->0.principal,
                    Operation::Call { world: entry.world()->0, reducer },
                    h,
                );
                if !allowed {
                    s.with_counters(
                        NetworkCounters {
                            policy_rejections: counted(s.counters.policy_rejections),
                            ..s.counters
                        },
                    ).call_refused(c, request_id, "not authorized by game policy"@, h)
                } else {
                    s.call_queued(c, request_id, reducer, args, h)
                }
            },
        }
    }

    /// Dispatching one decoded client message.
    #[verifier::opaque]
    pub open spec fn dispatched(
        self,
        c: ConnectionId,
        message: ClientMessageView,
        now: u64,
        h: Seq<Exchange>,
    ) -> GatewayView {
        match message {
            ClientMessageView::Handshake { version, .. } => self.handshaken(c, version, h),
            ClientMessageView::Authenticate { credentials } => self.authenticated(
                c,
                credentials,
                now,
                h,
            ),
            ClientMessageView::AttachWorld { world } => self.attached(c, world, h),
            ClientMessageView::InputFrame { frame } => {
                let (s, allowed) = self.rate_checked(c, RateBucket::Input, 0, now, h);
                if allowed {
                    s.input_handled(c, frame, h)
                } else {
                    s
                }
            },
            ClientMessageView::Subscribe { request_id, query } => self.subscribe_handled(
                c,
                request_id,
                query,
                now,
                h,
            ),
            ClientMessageView::Unsubscribe { subscription } => self.unsubscribe_handled(
                c,
                subscription,
                h,
            ),
            ClientMessageView::Resync { subscription } => self.resync_handled(
                c,
                subscription,
                now,
                h,
            ),
            ClientMessageView::DetachWorld => self.detached(c, h),
            ClientMessageView::CallReducer { request_id, reducer, args } => self.call_handled(
                c,
                request_id,
                reducer,
                args,
                now,
                h,
            ),
            ClientMessageView::Ping { nonce } => self.replied(
                c,
                ServerMessageView::Pong { nonce },
                h,
            ),
        }
    }

    // ------------------------------------------------------------- inbound

    /// A protocol violation: it is counted, logged and answered, and the
    /// connection is dropped.
    #[verifier::opaque]
    pub open spec fn violated(self, c: ConnectionId, error: ProtocolErrorView, h: Seq<Exchange>) -> GatewayView {
        self.with_counters(
            NetworkCounters {
                frames_rejected: counted(self.counters.frames_rejected),
                protocol_errors: counted(self.counters.protocol_errors),
                ..self.counters
            },
        ).with_event(NetworkEventView::ProtocolError { connection: c }).replied(
            c,
            error_reply(error.code(), error.text(), 0),
            h,
        ).dropped(c, "protocol violation: "@ + error.text())
    }

    /// Taking frames from a connection, at most `budget`, until it has none,
    /// breaks, or violates the protocol; each frame is decoded and
    /// dispatched, and the subscriptions it ended leave their registries.
    pub open spec fn frames_taken(
        self,
        c: ConnectionId,
        report: ProcessReport,
        budget: u64,
        now: u64,
        h: Seq<Exchange>,
    ) -> (GatewayView, ProcessReport)
        decreases budget,
    {
        if budget == 0 || !self.connections.contains_key(c.0) {
            (self, report)
        } else {
            let answer = match self.next(h) {
                Exchange::Received { answer, .. } => answer,
                _ => Ok(None),
            };
            let s = self.recorded(Exchange::Received { connection: c, answer }).contacted(
                c,
                seq![Contact::Asked { answer }],
            );
            match answer {
                Err(_) => (s.dropped(c, "transport closed"@), report),
                Ok(None) => (s, report),
                Ok(Some(bytes)) => {
                    let s = s.with_counters(
                        NetworkCounters {
                            frames_received: counted(s.counters.frames_received),
                            ..s.counters
                        },
                    );
                    let report = ProcessReport {
                        frames_received: counted(report.frames_received),
                        ..report
                    };
                    match client_decoded(bytes, s.config.max_frame_payload) {
                        Ok(message) => s.dispatched(c, message, now, h).ended_settled(
                            h,
                        ).frames_taken(
                            c,
                            ProcessReport { dispatched: counted(report.dispatched), ..report },
                            (budget - 1) as u64,
                            now,
                            h,
                        ),
                        Err(error) => (
                            s.violated(c, error, h),
                            ProcessReport { rejected: counted(report.rejected), ..report },
                        ),
                    }
                },
            }
        }
    }

    /// Taking the frames of several connections, in order.
    pub open spec fn all_frames_taken(self, ids: Seq<u64>, now: u64, h: Seq<Exchange>) -> (
        GatewayView,
        ProcessReport,
    )
        decreases ids.len(),
    {
        if ids.len() == 0 {
            (
                self,
                ProcessReport { frames_received: 0, dispatched: 0, rejected: 0, disconnected: 0 },
            )
        } else {
            let (before, report) = self.all_frames_taken(ids.drop_last(), now, h);
            before.frames_taken(ConnectionId(ids.last()), report, u64::MAX, now, h)
        }
    }

    /// Telling the worlds' registries, in order, of subscriptions that have
    /// ended.
    pub open spec fn all_ended(
        self,
        ended: Seq<(WorldId, SubscriptionId)>,
        h: Seq<Exchange>,
    ) -> GatewayView
        decreases ended.len(),
    {
        if ended.len() == 0 {
            self
        } else {
            let before = self.all_ended(ended.drop_last(), h);
            let (world, subscription) = ended.last();
            match before.runtime.world_access(world) {
                Err(_) => before,
                Ok(_) => {
                    let answer = match before.next(h) {
                        Exchange::Unsubscribed { answer, .. } => answer,
                        _ => Ok(()),
                    };
                    GatewayView {
                        runtime: before.runtime.unsubscribed(world, subscription, answer).0,
                        ..before.recorded(Exchange::Unsubscribed { world, subscription, answer })
                    }
                },
            }
        }
    }

    /// Every subscription that has ended leaves its world's registry.
    #[verifier::opaque]
    pub open spec fn ended_settled(self, h: Seq<Exchange>) -> GatewayView {
        GatewayView { ended: Seq::empty(), ..self }.all_ended(self.ended, h)
    }

    /// One pass over the inbound frames of every connection, in ascending
    /// order, followed by a flush. The connections that are gone at its end
    /// were dropped in it.
    #[verifier::opaque]
    pub open spec fn inbound_processed(self, now: u64, h: Seq<Exchange>) -> (
        GatewayView,
        ProcessReport,
    ) {
        let (taken, report) = self.all_frames_taken(ascending(self.connections.dom()), now, h);
        let after = taken.flushed(h).ended_settled(h);
        (
            after,
            ProcessReport {
                disconnected: (self.connections.len() - after.connections.len()) as u64,
                ..report
            },
        )
    }

    // ------------------------------------------------------------- fan-out

    /// The connections attached to a world.
    pub open spec fn attached_to(self, world: WorldId) -> Set<u64> {
        Set::new(
            |c: u64| self.connections.contains_key(c) && self.connections[c].world() == Some(world),
        )
    }

    /// Whether a committed tick is broadcast.
    pub open spec fn broadcasts(self, result: TickResultView) -> bool {
        ||| (self.config.tick_update_changes && result.changes.len() > 0)
        ||| result.events.len() > 0
        ||| !self.config.skip_empty_broadcast
    }

    /// The broadcast of a committed tick.
    pub open spec fn tick_update(self, world: WorldId, result: TickResultView) -> ServerMessageView {
        ServerMessageView::TickUpdate {
            world,
            tick: result.tick,
            tx_id: result.tx_id,
            changes: if self.config.tick_update_changes {
                result.changes
            } else {
                Seq::empty()
            },
            events: result.events,
        }
    }

    /// Broadcasting a message to several connections, in order.
    pub open spec fn broadcast(
        self,
        ids: Seq<u64>,
        message: ServerMessageView,
        report: StepReport,
        h: Seq<Exchange>,
    ) -> (GatewayView, StepReport)
        decreases ids.len(),
    {
        if ids.len() == 0 {
            (self, report)
        } else {
            let (before, report) = self.broadcast(ids.drop_last(), message, report, h);
            let (after, taken) = before.sent(ConnectionId(ids.last()), message, h);
            if taken == Ok::<bool, NetworkErrorView>(true) {
                (
                    after.with_counters(
                        NetworkCounters {
                            tick_updates_sent: counted(after.counters.tick_updates_sent),
                            ..after.counters
                        },
                    ),
                    StepReport { tick_updates_sent: counted(report.tick_updates_sent), ..report },
                )
            } else {
                (
                    after,
                    StepReport { messages_dropped: counted(report.messages_dropped), ..report },
                )
            }
        }
    }

    /// Telling a connection's subscriptions, in order, what was drained.
    pub open spec fn subscriptions_told(
        self,
        c: ConnectionId,
        ids: Seq<u64>,
        drained: Seq<PendingUpdatesView>,
        h: Seq<Exchange>,
    ) -> GatewayView
        decreases ids.len(),
    {
        if ids.len() == 0 {
            self
        } else {
            let before = self.subscriptions_told(c, ids.drop_last(), drained, h);
            let subscription = SubscriptionId(ids.last());
            match updates_for(drained, subscription) {
                None => before,
                Some(updates) => before.updates_sent(
                    c,
                    update_messages(subscription, 0, updates),
                    h,
                ),
            }
        }
    }

    /// The subscriptions a connection has on a world.
    pub open spec fn subscriptions_on(self, c: u64, world: WorldId) -> Set<u64> {
        let entry = self.connections[c];
        Set::new(
            |s: u64|
                self.connections.contains_key(c) && entry.subscriptions.contains_key(s)
                    && entry.subscriptions[s] == world,
        )
    }

    /// Telling several connections, in order, what was drained of a world.
    pub open spec fn connections_told(
        self,
        ids: Seq<u64>,
        world: WorldId,
        drained: Seq<PendingUpdatesView>,
        h: Seq<Exchange>,
    ) -> GatewayView
        decreases ids.len(),
    {
        if ids.len() == 0 {
            self
        } else {
            let before = self.connections_told(ids.drop_last(), world, drained, h);
            before.subscriptions_told(
                ConnectionId(ids.last()),
                ascending(before.subscriptions_on(ids.last(), world)),
                drained,
                h,
            )
        }
    }

    /// Whether any connection has a subscription on a world.
    pub open spec fn watched(self, world: WorldId) -> bool {
        exists|c: u64, s: u64| #[trigger] self.subscriptions_on(c, world).contains(s)
    }

    /// Delivering the pending subscription updates of a watched world,
    /// connections ascending, then subscriptions ascending.
    #[verifier::opaque]
    pub open spec fn deltas_delivered(self, world: WorldId, h: Seq<Exchange>) -> GatewayView {
        if !self.watched(world) || self.runtime.world_access(world) is Err {
            self
        } else {
            let answer = match self.next(h) {
                Exchange::DrainedAll { answer, .. } => answer,
                _ => Ok(Seq::empty()),
            };
            let drained = self.recorded(Exchange::DrainedAll { world, answer });
            match answer {
                Err(_) => drained,
                Ok(updates) => drained.connections_told(
                    ascending(self.connections.dom()),
                    world,
                    updates,
                    h,
                ),
            }
        }
    }

    /// The answer to a reducer call.
    pub open spec fn call_reply(
        client_request_id: u64,
        outcome: Result<ValueView, ErrorView>,
    ) -> ServerMessageView {
        match outcome {
            Ok(value) => ServerMessageView::ReducerResult {
                request_id: client_request_id,
                ok: true,
                value: Some(value),
                error: None,
            },
            Err(error) => call_failure(client_request_id, error.text()),
        }
    }

    /// The gateway with a pending call forgotten.
    pub open spec fn call_forgotten(self, gateway_id: u64, call: PendingView) -> GatewayView {
        let c = call.connection;
        GatewayView {
            pending: self.pending.remove(gateway_id),
            connections: if self.connections.contains_key(c.0) {
                let entry = self.connections[c.0];
                self.connections.insert(
                    c.0,
                    ConnectionView {
                        pending_ids: entry.pending_ids.remove(call.client_request_id),
                        ..entry
                    },
                )
            } else {
                self.connections
            },
            ..self
        }
    }

    /// A pending call is forgotten and answered.
    #[verifier::opaque]
    pub open spec fn call_answered(
        self,
        gateway_id: u64,
        call: PendingView,
        reply: ServerMessageView,
        h: Seq<Exchange>,
    ) -> GatewayView {
        let c = call.connection;
        let forgotten = self.call_forgotten(gateway_id, call);
        let (after, taken) = forgotten.sent(c, reply, h);
        if taken == Ok::<bool, NetworkErrorView>(true) {
            after.with_counters(
                NetworkCounters {
                    reducer_results_sent: counted(after.counters.reducer_results_sent),
                    ..after.counters
                },
            )
        } else {
            after
        }
    }

    /// Routing the results of a world's reducer calls, in call order, to the
    /// connections that wait for them.
    pub open spec fn results_routed(
        self,
        world: WorldId,
        results: Seq<CallResultView>,
        h: Seq<Exchange>,
    ) -> GatewayView
        decreases results.len(),
    {
        if results.len() == 0 {
            self
        } else {
            let before = self.results_routed(world, results.drop_last(), h);
            let result = results.last();
            let id = result.request_id;
            if before.pending.contains_key(id) && before.pending[id].world == world {
                before.call_answered(
                    id,
                    before.pending[id],
                    Self::call_reply(before.pending[id].client_request_id, result.outcome),
                    h,
                )
            } else {
                before
            }
        }
    }

    /// Telling the attached sessions of a committed tick.
    #[verifier::opaque]
    pub open spec fn tick_told(
        self,
        world: WorldId,
        result: TickResultView,
        report: StepReport,
        h: Seq<Exchange>,
    ) -> (GatewayView, StepReport) {
        if self.broadcasts(result) {
            self.broadcast(
                ascending(self.attached_to(world)),
                self.tick_update(world, result),
                report,
                h,
            )
        } else {
            (self, report)
        }
    }

    /// Fanning one committed tick out.
    #[verifier::opaque]
    pub open spec fn world_fanned_out(
        self,
        world: WorldId,
        result: TickResultView,
        report: StepReport,
        h: Seq<Exchange>,
    ) -> (GatewayView, StepReport) {
        let (told, report) = self.tick_told(
            world,
            result,
            StepReport { worlds: counted(report.worlds), ..report },
            h,
        );
        let delivered = if result.changes.len() > 0 {
            told.deltas_delivered(world, h)
        } else {
            told
        };
        (
            delivered.results_routed(world, result.reducer_results, h),
            StepReport {
                subscription_messages_sent: advanced(
                    report.subscription_messages_sent,
                    told.counters.subscription_messages_sent,
                    delivered.counters.subscription_messages_sent,
                ),
                ..report
            },
        )
    }

    /// Fanning several committed ticks out, in order.
    pub open spec fn worlds_fanned_out(
        self,
        results: Seq<(WorldId, TickResultView)>,
        h: Seq<Exchange>,
    ) -> (GatewayView, StepReport)
        decreases results.len(),
    {
        if results.len() == 0 {
            (
                self,
                StepReport {
                    worlds: 0,
                    tick_updates_sent: 0,
                    subscription_messages_sent: 0,
                    messages_dropped: 0,
                },
            )
        } else {
            let (before, report) = self.worlds_fanned_out(results.drop_last(), h);
            before.world_fanned_out(results.last().0, results.last().1, report, h)
        }
    }

    /// The pending calls whose world can produce no result any more.
    pub open spec fn unresolved(self) -> Set<u64> {
        Set::new(
            |g: u64|
                self.pending.contains_key(g) && !self.runtime.ticks(self.pending[g].world.0),
        )
    }

    /// The message of a call whose world no longer runs.
    pub open spec fn not_running_text(world: WorldId) -> Seq<char> {
        "world "@ + decimal(world.0 as nat)
            + " is no longer running; the call could not commit"@
    }

    /// Answering calls of worlds that no longer run, in order.
    pub open spec fn calls_abandoned(
        self,
        ids: Seq<u64>,
        calls: Map<u64, PendingView>,
        h: Seq<Exchange>,
    ) -> GatewayView
        decreases ids.len(),
    {
        if ids.len() == 0 {
            self
        } else {
            let call = calls[ids.last()];
            self.calls_abandoned(ids.drop_last(), calls, h).call_answered(
                ids.last(),
                call,
                call_failure(call.client_request_id, Self::not_running_text(call.world)),
                h,
            )
        }
    }

    /// Fanning the results of one step out: per committed tick a broadcast,
    /// subscription deltas and reducer results; then every pending call whose
    /// world no longer runs is answered with a failure, and the subscriptions
    /// of connections lost on the way end.
    #[verifier::opaque]
    pub open spec fn fanned_out(
        self,
        results: Seq<(WorldId, TickResultView)>,
        h: Seq<Exchange>,
    ) -> (GatewayView, StepReport) {
        let (after, report) = self.worlds_fanned_out(results, h);
        let answered = after.calls_abandoned(ascending(after.unresolved()), after.pending, h);
        (answered.ended_settled(h), report)
    }

    /// Stepping every running world: the results are fanned out, and what is
    /// buffered is written.
    #[verifier::opaque]
    pub open spec fn stepped(
        self,
        results: Seq<(WorldId, TickResultView)>,
        h: Seq<Exchange>,
    ) -> (GatewayView, StepReport) {
        let (after, report) = self.fanned_out(results, h);
        (after.flushed(h).ended_settled(h), report)
    }

    /// The subscriptions of several connections, in order, each connection's
    /// in ascending order.
    pub open spec fn subscriptions_of(self, ids: Seq<u64>) -> Seq<
        (ConnectionId, WorldId, SubscriptionId),
    >
        decreases ids.len(),
    {
        if ids.len() == 0 {
            Seq::empty()
        } else {
            let own = ended_of(self.connections[ids.last()].subscriptions);
            self.subscriptions_of(ids.drop_last()) + Seq::new(
                own.len(),
                |i: int| (ConnectionId(ids.last()), own[i].0, own[i].1),
            )
        }
    }

    /// Pumping several subscriptions, in order.
    pub open spec fn all_pumped(
        self,
        list: Seq<(ConnectionId, WorldId, SubscriptionId)>,
        h: Seq<Exchange>,
    ) -> GatewayView
        decreases list.len(),
    {
        if list.len() == 0 {
            self
        } else {
            let (c, world, subscription) = list.last();
            self.all_pumped(list.drop_last(), h).pumped(c, world, subscription, 0, h)
        }
    }

    /// Pumping every subscription, connections ascending, then subscriptions
    /// ascending, followed by a flush. Yields the number of messages sent.
    #[verifier::opaque]
    pub open spec fn subscriptions_pumped(self, h: Seq<Exchange>) -> (GatewayView, u64) {
        let pumped = self.all_pumped(
            self.subscriptions_of(ascending(self.connections.dom())),
            h,
        );
        (
            pumped.flushed(h).ended_settled(h),
            advanced(
                0,
                self.counters.subscription_messages_sent,
                pumped.counters.subscription_messages_sent,
            ),
        )
    }

    // ---------------------------------------------------------- invariants

    /// What every operation keeps.
    pub open spec fn valid(self) -> bool {
        &&& self.config.violation() is None
        &&& self.runtime.valid()
        &&& self.events.len() <= self.config.event_log_limit
        &&& connections_valid(self.connections, self.next_connection, self.config)
        &&& calls_valid(self.connections, self.pending, self.next_gateway_request)
    }
}

/// Connection ids are those given out so far, within the limit; each session
/// belongs to its connection; the subscriptions of a connection are on the
/// world its session is attached to; subscriptions and pending calls are
/// within their limits.
#[verifier::opaque]
pub open spec fn connections_valid(
    connections: Map<u64, ConnectionView>,
    next_connection: u64,
    config: NetworkConfigView,
) -> bool {
    &&& connections.dom().finite()
    &&& connections.len() <= config.max_connections
    &&& forall|c: u64| #[trigger]
        connections.contains_key(c) ==> {
            let entry = connections[c];
            &&& c < next_connection
            &&& entry.session matches Some(session) ==> session.connection.0 == c
            &&& entry.subscriptions.dom().finite()
            &&& entry.pending_ids.finite()
            &&& entry.subscriptions.len() <= config.max_subscriptions_per_session
            &&& entry.pending_ids.len() <= config.max_pending_calls_per_connection
            &&& forall|s: u64| #[trigger]
                entry.subscriptions.contains_key(s) ==> entry.world() == Some(
                    entry.subscriptions[s],
                )
        }
}

/// Every pending call belongs to a registered connection whose session is
/// attached to the call's world, and is noted there under the client's
/// request id; the ids noted are exactly those of its pending calls, and no
/// two of them are the same.
#[verifier::opaque]
pub open spec fn calls_valid(
    connections: Map<u64, ConnectionView>,
    pending: Map<u64, PendingView>,
    next_request: u64,
) -> bool {
    &&& next_request > 0
    &&& pending.dom().finite()
    &&& forall|g: u64| #[trigger]
        pending.contains_key(g) ==> {
            let call = pending[g];
            &&& g < next_request
            &&& connections.contains_key(call.connection.0)
            &&& connections[call.connection.0].world() == Some(call.world)
            &&& connections[call.connection.0].pending_ids.contains(call.client_request_id)
        }
    &&& forall|c: u64, id: u64|
        #![trigger connections[c].pending_ids.contains(id)]
        connections.contains_key(c) && connections[c].pending_ids.contains(id)
            ==> exists|g: u64| #[trigger]
            pending.contains_key(g) && pending[g].connection.0 == c
                && pending[g].client_request_id == id
    &&& forall|g1: u64, g2: u64|
        #![trigger pending.contains_key(g1), pending.contains_key(g2)]
        pending.contains_key(g1) && pending.contains_key(g2) && pending[g1].connection
            == pending[g2].connection && pending[g1].client_request_id
            == pending[g2].client_request_id ==> g1 == g2
}

} // verus!
