//! Laws of the gateway's operations: what each client message does, to whom it
//! is answered and how, and what it leaves alone.

use vstd::prelude::*;
use vstd::utf8::*;

use crate::base::error::ErrorView;
use crate::base::ids::{ConnectionId, SessionId, SubscriptionId, WorldId};
use crate::base::input::InputFrameView;
use crate::base::query::QueryView;
use crate::base::table::{ascending, ascending_lists};
use crate::base::text::decimal;
use crate::base::value::ValueView;
use crate::network::answers::{
    accepted_calls_wait, call_rejection, offered, sending_offers_one_message,
};
use crate::network::auth::PrincipalView;
use crate::network::config::{NetworkEventView, OutboundOverflowPolicy};
use crate::network::delivery::{learnt, pumping_tells_what_was_drained, telling_extends, told};
use crate::network::error::{AuthErrorView, NetworkErrorView, ProtocolErrorView};
use crate::network::gateway_model::{
    call_failure, connections_valid, error_code_of, error_reply, runtime_error_code_of, stamped,
    update_messages, ConnectionView, GatewayView, PendingView,
};
use crate::network::host::{extends, Exchange, Operation};
use crate::network::metrics::NetworkCounters;
use crate::network::protocol::{ClientMessageView, ServerMessageView};
use crate::network::rate::{RateBucket, RateWindow};
use crate::network::session::SessionView;
use crate::network::transport::Contact;
use crate::reducer::args::{entry_of, in_name_order, reading_a_set_entry, Entries};
use crate::runtime::error::RuntimeErrorView;
use crate::runtime::metrics::counted;
use crate::runtime::model::RuntimeState;
use crate::runtime::operations::one_more;
use crate::runtime::world::WorldLifecycle;

verus! {

/// Nothing of the other connections, of their calls, or of the gateway's setup
/// differs.
pub open spec fn others_untouched(a: GatewayView, b: GatewayView, c: ConnectionId) -> bool {
    &&& b.config == a.config
    &&& b.server_name == a.server_name
    &&& b.next_connection == a.next_connection
    &&& forall|d: u64|
        d != c.0 ==> (#[trigger] b.connections.contains_key(d) <==> a.connections.contains_key(d))
    &&& forall|d: u64| d != c.0 ==> #[trigger] b.connections[d] == a.connections[d]
    &&& forall|g: u64| #[trigger]
        a.pending.contains_key(g) && a.pending[g].connection != c ==> b.pending.contains_key(g)
            && b.pending[g] == a.pending[g]
    &&& forall|g: u64| #[trigger]
        b.pending.contains_key(g) && b.pending[g].connection != c ==> a.pending.contains_key(g)
            && b.pending[g] == a.pending[g]
}

/// A connection that is still registered has the session, the subscriptions and
/// the calls that it had.
pub open spec fn stands_as_before(a: GatewayView, b: GatewayView, c: ConnectionId) -> bool {
    b.connections.contains_key(c.0) ==> {
        let x = a.connections[c.0];
        let y = b.connections[c.0];
        &&& a.connections.contains_key(c.0)
        &&& y.session == x.session
        &&& y.subscriptions == x.subscriptions
        &&& y.pending_ids == x.pending_ids
    }
}

/// All that happened is that a connection was sent one message: no other
/// message went out, nothing reached the runtime, and no other connection was
/// touched.
pub open spec fn only_answered(
    a: GatewayView,
    b: GatewayView,
    c: ConnectionId,
    message: ServerMessageView,
) -> bool {
    &&& offered(b.history) == offered(a.history).push((c, message))
    &&& b.runtime == a.runtime
    &&& b.next_session == a.next_session
    &&& others_untouched(a, b, c)
    &&& stands_as_before(a, b, c)
    &&& forall|g: u64| #[trigger]
        b.pending.contains_key(g) ==> a.pending.contains_key(g) && b.pending[g] == a.pending[g]
    &&& b.connections.contains_key(c.0) ==> forall|g: u64| #[trigger]
        a.pending.contains_key(g) ==> b.pending.contains_key(g)
}

/// Sending a message touches the addressee alone.
pub proof fn answering_touches_the_addressee(
    gateway: GatewayView,
    c: ConnectionId,
    message: ServerMessageView,
    h: Seq<Exchange>,
)
    requires
        gateway.connections.contains_key(c.0),
    ensures
        only_answered(gateway, gateway.sent(c, message, h).0, c, message),
        gateway.replied(c, message, h) == gateway.sent(c, message, h).0,
        ({
            let after = gateway.sent(c, message, h).0;
            &&& after.connections.contains_key(c.0) ==> after.connections[c.0].rate
                == gateway.connections[c.0].rate
            &&& after.counters.auth_failures == gateway.counters.auth_failures
            &&& after.counters.inputs_accepted == gateway.counters.inputs_accepted
            &&& after.counters.inputs_rejected == gateway.counters.inputs_rejected
            &&& after.counters.policy_rejections == gateway.counters.policy_rejections
            &&& after.counters.rate_limited == gateway.counters.rate_limited
        }),
{
    sending_offers_one_message(gateway, c, message, h);
    reveal(GatewayView::replied);
    reveal(GatewayView::sent);
    reveal(GatewayView::disconnected);
}

proof fn untouched_throughout(a: GatewayView, b: GatewayView, z: GatewayView, c: ConnectionId)
    requires
        others_untouched(a, b, c),
        others_untouched(b, z, c),
    ensures
        others_untouched(a, z, c),
{
    assert forall|d: u64| d != c.0 implies (#[trigger] z.connections.contains_key(d)
        <==> a.connections.contains_key(d)) by {
        assert(b.connections.contains_key(d) <==> a.connections.contains_key(d));
    }
    assert forall|d: u64| d != c.0 implies #[trigger] z.connections[d] == a.connections[d] by {
        assert(b.connections[d] == a.connections[d]);
    }
    assert forall|g: u64| #[trigger]
        a.pending.contains_key(g) && a.pending[g].connection != c implies z.pending.contains_key(g)
        && z.pending[g] == a.pending[g] by {
        assert(b.pending.contains_key(g));
    }
    assert forall|g: u64| #[trigger]
        z.pending.contains_key(g) && z.pending[g].connection != c implies a.pending.contains_key(g)
        && z.pending[g] == a.pending[g] by {
        assert(b.pending.contains_key(g));
    }
}

proof fn answered_since(
    earlier: GatewayView,
    before: GatewayView,
    after: GatewayView,
    c: ConnectionId,
    message: ServerMessageView,
)
    requires
        only_answered(before, after, c, message),
        offered(before.history) == offered(earlier.history),
        before.runtime == earlier.runtime,
        before.next_session == earlier.next_session,
        before.pending == earlier.pending,
        others_untouched(earlier, before, c),
        stands_as_before(earlier, before, c),
        before.connections.contains_key(c.0),
    ensures
        only_answered(earlier, after, c, message),
{
    untouched_throughout(earlier, before, after, c);
}

proof fn limits_are_their_own(gateway: GatewayView, c: ConnectionId, bucket: RateBucket, now: u64)
    requires
        gateway.connections.contains_key(c.0),
    ensures
        ({
            let (taken, allowed) = gateway.rate_taken(c, bucket, now);
            &&& others_untouched(gateway, taken, c)
            &&& stands_as_before(gateway, taken, c)
            &&& taken.connections.contains_key(c.0)
            &&& taken.history == gateway.history
            &&& taken.runtime == gateway.runtime
            &&& taken.pending == gateway.pending
            &&& taken.next_session == gateway.next_session
            &&& taken.connections[c.0] == (ConnectionView {
                rate: taken.connections[c.0].rate,
                ..gateway.connections[c.0]
            })
            &&& allowed ==> taken == (GatewayView { connections: taken.connections, ..gateway })
            &&& !allowed ==> taken.counters.rate_limited == one_more(gateway.counters.rate_limited)
        }),
{
}

/// An operation over its limit: it is answered with code 19 and counted, and
/// nothing else happens.
pub open spec fn refused_for_rate(
    a: GatewayView,
    b: GatewayView,
    c: ConnectionId,
    request_id: u64,
) -> bool {
    &&& only_answered(a, b, c, error_reply_of(19, request_id, "rate limit exceeded"@))
    &&& b.counters.rate_limited == one_more(a.counters.rate_limited)
}

/// An error with a code, on a request.
pub open spec fn error_reply_of(code: u16, request_id: u64, message: Seq<char>) -> ServerMessageView {
    ServerMessageView::Error { code, message, request_id }
}

// ----------------------------------------------------------- ping, handshake

/// A ping is answered with the same nonce, and with nothing else.
pub proof fn pings_are_echoed(
    gateway: GatewayView,
    c: ConnectionId,
    nonce: u64,
    now: u64,
    h: Seq<Exchange>,
)
    requires
        gateway.connections.contains_key(c.0),
    ensures
        only_answered(
            gateway,
            gateway.dispatched(c, ClientMessageView::Ping { nonce }, now, h),
            c,
            ServerMessageView::Pong { nonce },
        ),
{
    reveal(GatewayView::dispatched);
    answering_touches_the_addressee(gateway, c, ServerMessageView::Pong { nonce }, h);
}

/// A handshake in the gateway's own protocol version is answered with that
/// version and the server's name; any other is refused with code 2 and ends the
/// connection. Nothing else is touched.
pub proof fn handshakes_agree_on_the_version(
    gateway: GatewayView,
    c: ConnectionId,
    version: u16,
    name: Seq<char>,
    now: u64,
    h: Seq<Exchange>,
)
    requires
        gateway.connections.contains_key(c.0),
    ensures
        ({
            let after = gateway.dispatched(
                c,
                ClientMessageView::Handshake { version, name },
                now,
                h,
            );
            &&& version == 2 ==> only_answered(
                gateway,
                after,
                c,
                ServerMessageView::HandshakeResponse {
                    version: 2,
                    server_name: gateway.server_name,
                },
            )
            &&& version != 2 ==> {
                &&& offered(after.history) == offered(gateway.history).push(
                    (c, error_reply_of(2, 0, "unsupported protocol version"@)),
                )
                &&& !after.connections.contains_key(c.0)
                &&& others_untouched(gateway, after, c)
                &&& after.runtime == gateway.runtime
            }
        }),
{
    reveal(GatewayView::dispatched);
    reveal(GatewayView::handshaken);
    let fine = ServerMessageView::HandshakeResponse {
        version: 2,
        server_name: gateway.server_name,
    };
    let bad = error_reply_of(2, 0, "unsupported protocol version"@);
    answering_touches_the_addressee(gateway, c, fine, h);
    answering_touches_the_addressee(gateway, c, bad, h);
    let told = gateway.replied(c, bad, h);
    parting_touches_one(told, c, "unsupported protocol version"@, h);
}

/// Closing a connection offers it no message but the farewell, takes it away,
/// and touches no other.
pub proof fn parting_touches_one(
    gateway: GatewayView,
    c: ConnectionId,
    reason: Seq<char>,
    h: Seq<Exchange>,
)
    ensures
        ({
            let after = gateway.disconnected(c, reason, h);
            &&& offered(after.history) == offered(gateway.history)
            &&& !after.connections.contains_key(c.0)
            &&& others_untouched(gateway, after, c)
            &&& after.runtime == gateway.runtime
            &&& forall|g: u64| #[trigger]
                after.pending.contains_key(g) ==> gateway.pending.contains_key(g)
                    && after.pending[g] == gateway.pending[g]
            &&& gateway.connections.contains_key(c.0) ==> after.history.len()
                == gateway.history.len() + 1 && (after.history.last() matches Exchange::Farewell {
                connection,
                reason: told,
                ..
            } && connection == c && told == reason) && after.counters.clients_dropped == one_more(
                gateway.counters.clients_dropped,
            ) && after.events.len() > 0 && after.events.last() == (
            NetworkEventView::ConnectionClosed { connection: c, reason })
        }),
{
    reveal(GatewayView::disconnected);
    if gateway.connections.contains_key(c.0) {
        let after = gateway.disconnected(c, reason, h);
        assert(after.history.drop_last() =~= gateway.history);
    }
}

// ----------------------------------------------------------- authentication

/// An authentication attempt within its limit, on a connection without a
/// session, presents the client's credentials to the authenticator, once. A
/// principal makes a new session, attached to nothing, and is told; a refusal
/// makes none, is told and is counted. A connection that has a session keeps it
/// and is answered with code 20; an attempt over the limit with code 19.
pub proof fn authentication_makes_sessions(
    gateway: GatewayView,
    c: ConnectionId,
    credentials: Seq<char>,
    now: u64,
    h: Seq<Exchange>,
)
    requires
        gateway.connections.contains_key(c.0),
    ensures
        ({
            let entry = gateway.connections[c.0];
            let after = gateway.dispatched(
                c,
                ClientMessageView::Authenticate { credentials },
                now,
                h,
            );
            let n = gateway.history.len() as int;
            let allowed = entry.rate.auth.allows(now);
            &&& !allowed ==> refused_for_rate(gateway, after, c, 0)
            &&& allowed && entry.session is Some ==> only_answered(
                gateway,
                after,
                c,
                error_reply_of(20, 0, "already authenticated"@),
            )
            &&& allowed && entry.session is None ==> {
                let outcome = after.history[n]->Authenticated_outcome;
                let y = after.connections[c.0];
                &&& after.history.len() > n
                &&& after.history[n] is Authenticated
                &&& after.history[n]->Authenticated_credentials == credentials
                &&& h[n] is Authenticated ==> outcome == h[n]->Authenticated_outcome
                &&& offered(after.history) == offered(gateway.history).push(
                    (
                        c,
                        match outcome {
                            Ok(principal) => ServerMessageView::AuthResult {
                                ok: true,
                                principal: Some(principal),
                                error: None,
                            },
                            Err(error) => ServerMessageView::AuthResult {
                                ok: false,
                                principal: None,
                                error: Some(error.text()),
                            },
                        },
                    ),
                )
                &&& others_untouched(gateway, after, c)
                &&& after.runtime == gateway.runtime
                &&& outcome matches Ok(principal) ==> {
                    &&& after.next_session == one_more(gateway.next_session)
                    &&& after.counters.auth_failures == gateway.counters.auth_failures
                    &&& after.connections.contains_key(c.0) ==> y.session == Some(
                        SessionView {
                            id: SessionId(gateway.next_session),
                            connection: c,
                            principal,
                            attached_world: None,
                        },
                    ) && y.subscriptions == entry.subscriptions && y.pending_ids
                        == entry.pending_ids
                }
                &&& outcome is Err ==> {
                    &&& after.next_session == gateway.next_session
                    &&& stands_as_before(gateway, after, c)
                    &&& after.counters.auth_failures == one_more(gateway.counters.auth_failures)
                }
            }
        }),
{
    reveal(GatewayView::dispatched);
    reveal(GatewayView::authenticated);
    reveal(GatewayView::identified);
    let entry = gateway.connections[c.0];
    let after = gateway.dispatched(c, ClientMessageView::Authenticate { credentials }, now, h);
    let (taken, allowed) = gateway.rate_taken(c, RateBucket::Auth, now);
    limits_are_their_own(gateway, c, RateBucket::Auth, now);
    if !allowed {
        let answer = error_reply(19, "rate limit exceeded"@, 0);
        answering_touches_the_addressee(taken, c, answer, h);
        answered_since(gateway, taken, after, c, answer);
    } else if entry.session is Some {
        let answer = error_reply(20, "already authenticated"@, 0);
        answering_touches_the_addressee(taken, c, answer, h);
        answered_since(gateway, taken, after, c, answer);
    } else {
        let outcome = match taken.next(h) {
            Exchange::Authenticated { outcome, .. } => outcome,
            _ => Err(AuthErrorView::InvalidCredentials),
        };
        let exchange = Exchange::Authenticated { credentials, outcome };
        let asked = taken.recorded(exchange);
        silent_exchange(taken.history, exchange);
        match outcome {
            Ok(principal) => {
                let session = SessionView {
                    id: SessionId(gateway.next_session),
                    connection: c,
                    principal,
                    attached_world: None,
                };
                let known = GatewayView {
                    next_session: counted(asked.next_session),
                    ..asked.with_session(c, session)
                }.with_event(
                    NetworkEventView::Authenticated { connection: c, principal_id: principal.id },
                );
                let answer = ServerMessageView::AuthResult {
                    ok: true,
                    principal: Some(principal),
                    error: None,
                };
                answering_touches_the_addressee(known, c, answer, h);
                answers_come_behind(known, c, answer, h);
                assert(others_untouched(gateway, known, c));
                untouched_throughout(gateway, known, after, c);
                assert(after.history[gateway.history.len() as int] == exchange);
            },
            Err(error) => {
                let noted = asked.with_counters(
                    NetworkCounters {
                        auth_failures: counted(asked.counters.auth_failures),
                        ..asked.counters
                    },
                ).with_event(NetworkEventView::AuthFailed { connection: c });
                let answer = ServerMessageView::AuthResult {
                    ok: false,
                    principal: None,
                    error: Some(error.text()),
                };
                answering_touches_the_addressee(noted, c, answer, h);
                answers_come_behind(noted, c, answer, h);
                assert(others_untouched(gateway, noted, c));
                untouched_throughout(gateway, noted, after, c);
                assert(after.history[gateway.history.len() as int] == exchange);
            },
        }
    }
}

proof fn silent_exchange(history: Seq<Exchange>, exchange: Exchange)
    requires
        !(exchange is Offered),
    ensures
        offered(history.push(exchange)) == offered(history),
{
    assert(history.push(exchange).drop_last() =~= history);
}

proof fn answers_come_behind(
    gateway: GatewayView,
    c: ConnectionId,
    message: ServerMessageView,
    h: Seq<Exchange>,
)
    ensures
        ({
            let after = gateway.sent(c, message, h).0.history;
            &&& after.len() >= gateway.history.len()
            &&& forall|i: int|
                0 <= i < gateway.history.len() ==> #[trigger] after[i] == gateway.history[i]
        }),
{
    reveal(GatewayView::sent);
    reveal(GatewayView::disconnected);
}

// --------------------------------------------------------------- attachment

/// A session that is attached to nothing is attached to the world it asks for
/// exactly if that is registered and the policy, asked about this principal and
/// this world, allows it; the client is told either way. One that is attached
/// stays where it is: asking for the same world is confirmed, asking for
/// another is answered with code 21. Without a session the answer is code 20.
pub proof fn attaching_asks_the_policy(
    gateway: GatewayView,
    c: ConnectionId,
    world: WorldId,
    now: u64,
    h: Seq<Exchange>,
)
    requires
        gateway.connections.contains_key(c.0),
    ensures
        ({
            let entry = gateway.connections[c.0];
            let after = gateway.dispatched(c, ClientMessageView::AttachWorld { world }, now, h);
            let n = gateway.history.len() as int;
            let yes = ServerMessageView::AttachResult {
                ok: true,
                world: Some(world),
                error: None,
            };
            &&& entry.session is None ==> only_answered(
                gateway,
                after,
                c,
                error_reply_of(20, 0, "authentication required"@),
            )
            &&& entry.session matches Some(session) ==> {
                let asked = session.attached_world is None
                    && gateway.runtime.worlds.contains_key(world.0);
                &&& session.attached_world == Some(world) ==> only_answered(gateway, after, c, yes)
                &&& (session.attached_world matches Some(other) && other != world)
                    ==> only_answered(
                    gateway,
                    after,
                    c,
                    error_reply_of(21, 0, "session is already attached to a different world"@),
                )
                &&& session.attached_world is None && !asked ==> exists|reason: Seq<char>|
                    only_answered(
                        gateway,
                        after,
                        c,
                        #[trigger] attach_refusal(reason),
                    )
                &&& asked ==> {
                    let allowed = h[n] matches Exchange::Authorized { allowed: true, .. };
                    &&& after.history.len() > n
                    &&& after.history[n] == (Exchange::Authorized {
                        principal: session.principal,
                        operation: Operation::Attach { world },
                        allowed,
                    })
                    &&& others_untouched(gateway, after, c)
                    &&& after.runtime == gateway.runtime
                    &&& allowed ==> offered(after.history) == offered(gateway.history).push(
                        (c, yes),
                    ) && (after.connections.contains_key(c.0)
                        ==> after.connections[c.0].session == Some(
                        SessionView { attached_world: Some(world), ..session },
                    ))
                    &&& !allowed ==> offered(after.history) == offered(gateway.history).push(
                        (c, attach_refusal("not authorized to attach to this world"@)),
                    ) && stands_as_before(gateway, after, c) && after.counters.policy_rejections
                        == one_more(gateway.counters.policy_rejections)
                }
            }
        }),
{
    reveal(GatewayView::dispatched);
    reveal(GatewayView::attached);
    reveal(GatewayView::attach_confirmed);
    reveal(GatewayView::attach_refused);
    let entry = gateway.connections[c.0];
    let after = gateway.dispatched(c, ClientMessageView::AttachWorld { world }, now, h);
    let yes = ServerMessageView::AttachResult { ok: true, world: Some(world), error: None };
    match entry.session {
        None => {
            answering_touches_the_addressee(
                gateway,
                c,
                error_reply(20, "authentication required"@, 0),
                h,
            );
        },
        Some(session) => match session.attached_world {
            Some(current) => {
                answering_touches_the_addressee(gateway, c, yes, h);
                answering_touches_the_addressee(
                    gateway,
                    c,
                    error_reply(21, "session is already attached to a different world"@, 0),
                    h,
                );
            },
            None => if !gateway.runtime.worlds.contains_key(world.0) {
                let reason = "unknown world "@ + decimal(world.0 as nat);
                answering_touches_the_addressee(gateway, c, attach_refusal(reason), h);
                assert(only_answered(gateway, after, c, attach_refusal(reason)));
            } else {
                let (asked, allowed) = gateway.authorized(
                    session.principal,
                    Operation::Attach { world },
                    h,
                );
                let exchange = asked.history.last();
                silent_exchange(gateway.history, exchange);
                if allowed {
                    let moved = asked.with_session(
                        c,
                        SessionView { attached_world: Some(world), ..session },
                    ).with_event(NetworkEventView::Attached { connection: c, world });
                    answering_touches_the_addressee(moved, c, yes, h);
                    answers_come_behind(moved, c, yes, h);
                    assert(others_untouched(gateway, moved, c));
                    untouched_throughout(gateway, moved, after, c);
                    assert(after.history[gateway.history.len() as int] == exchange);
                } else {
                    let counted_denial = asked.with_counters(
                        NetworkCounters {
                            policy_rejections: counted(asked.counters.policy_rejections),
                            ..asked.counters
                        },
                    );
                    let no = attach_refusal("not authorized to attach to this world"@);
                    answering_touches_the_addressee(counted_denial, c, no, h);
                    answers_come_behind(counted_denial, c, no, h);
                    assert(others_untouched(gateway, counted_denial, c));
                    untouched_throughout(gateway, counted_denial, after, c);
                    assert(after.history[gateway.history.len() as int] == exchange);
                }
            },
        },
    }
}

/// The answer to an attachment that is refused.
pub open spec fn attach_refusal(reason: Seq<char>) -> ServerMessageView {
    ServerMessageView::AttachResult { ok: false, world: None, error: Some(reason) }
}

// ------------------------------------------------------------------- inputs

/// The frame that a world is given for one that a client sent: the same tick
/// and the same commands, each from the client's principal.
pub open spec fn given_for(
    given: InputFrameView,
    sent: InputFrameView,
    principal: PrincipalView,
) -> bool {
    &&& given.tick == sent.tick
    &&& given.commands.len() == sent.commands.len()
    &&& forall|i: int|
        0 <= i < given.commands.len() ==> (#[trigger] given.commands[i]).source == principal.id
            && given.commands[i].kind == sent.commands[i].kind && given.commands[i].payload
            == sent.commands[i].payload
}

/// An input frame over its limit, without a session, without an attachment, or
/// with more commands than allowed is answered with an error and does not reach
/// any world.
#[verifier::spinoff_prover]
pub proof fn unfit_inputs_go_nowhere(
    gateway: GatewayView,
    c: ConnectionId,
    frame: InputFrameView,
    now: u64,
    h: Seq<Exchange>,
)
    requires
        gateway.connections.contains_key(c.0),
    ensures
        ({
            let entry = gateway.connections[c.0];
            let after = gateway.dispatched(c, ClientMessageView::InputFrame { frame }, now, h);
            let within = entry.rate.input.allows(now);
            let world = entry.session->0.attached_world;
            &&& !within ==> refused_for_rate(gateway, after, c, 0)
            &&& within && entry.session is None ==> only_answered(
                gateway,
                after,
                c,
                error_reply_of(20, 0, "authentication required"@),
            )
            &&& within && entry.session is Some && world is None ==> only_answered(
                gateway,
                after,
                c,
                error_reply_of(21, 0, "attach to a world before submitting input"@),
            )
            &&& within && entry.session is Some && world is Some && frame.commands.len()
                > gateway.config.max_commands_per_frame ==> only_answered(
                gateway,
                after,
                c,
                error_reply_of(17, 0, "too many commands in frame"@),
            )
            &&& within && !(entry.session is Some && world is Some && frame.commands.len()
                <= gateway.config.max_commands_per_frame) ==> after.counters.inputs_rejected
                == one_more(gateway.counters.inputs_rejected)
        }),
{
    reveal(GatewayView::dispatched);
    reveal(GatewayView::input_handled);
    let entry = gateway.connections[c.0];
    let after = gateway.dispatched(c, ClientMessageView::InputFrame { frame }, now, h);
    let (taken, allowed) = gateway.rate_taken(c, RateBucket::Input, now);
    limits_are_their_own(gateway, c, RateBucket::Input, now);
    if !allowed {
        let answer = error_reply(19, "rate limit exceeded"@, 0);
        answering_touches_the_addressee(taken, c, answer, h);
        answered_since(gateway, taken, after, c, answer);
    } else if entry.session is None || entry.session->0.attached_world is None
        || frame.commands.len() > gateway.config.max_commands_per_frame {
        let (code, reason) = if entry.session is None {
            (20u16, "authentication required"@)
        } else if entry.session->0.attached_world is None {
            (21u16, "attach to a world before submitting input"@)
        } else {
            (17u16, "too many commands in frame"@)
        };
        assert(after == taken.input_refused(c, code, reason, h));
        refused_inputs_are_counted(taken, c, code, reason, h);
        answered_since(gateway, taken, after, c, error_reply_of(code, 0, reason));
    }
}

proof fn refused_inputs_are_counted(
    gateway: GatewayView,
    c: ConnectionId,
    code: u16,
    reason: Seq<char>,
    h: Seq<Exchange>,
)
    requires
        gateway.connections.contains_key(c.0),
    ensures
        only_answered(
            gateway,
            gateway.input_refused(c, code, reason, h),
            c,
            error_reply_of(code, 0, reason),
        ),
        gateway.input_refused(c, code, reason, h).counters.inputs_rejected == one_more(
            gateway.counters.inputs_rejected,
        ),
{
    reveal(GatewayView::input_refused);
    let answer = error_reply_of(code, 0, reason);
    answering_touches_the_addressee(gateway, c, answer, h);
    let told = gateway.replied(c, answer, h);
    let after = gateway.input_refused(c, code, reason, h);
    assert(after == (GatewayView { counters: after.counters, ..told }));
}

/// An input frame within its limit, from a session attached to a world and with
/// no more commands than allowed, is shown to the policy as the world would be
/// given it, and goes to that world, exactly if the policy allows it. What is
/// accepted is counted and not answered; what is not is answered with an error
/// and counted as rejected.
#[verifier::spinoff_prover]
#[verifier::rlimit(40)]
pub proof fn inputs_go_to_the_attached_world(
    gateway: GatewayView,
    c: ConnectionId,
    frame: InputFrameView,
    now: u64,
    h: Seq<Exchange>,
)
    requires
        gateway.connections.contains_key(c.0),
        gateway.connections[c.0].rate.input.allows(now),
        gateway.connections[c.0].session is Some,
        gateway.connections[c.0].session->0.attached_world is Some,
        frame.commands.len() <= gateway.config.max_commands_per_frame,
    ensures
        ({
            let session = gateway.connections[c.0].session->0;
            let world = session.attached_world->0;
            let after = gateway.dispatched(c, ClientMessageView::InputFrame { frame }, now, h);
            let n = gateway.history.len() as int;
            let allowed = h[n] matches Exchange::Authorized { allowed: true, .. };
            let operation = after.history[n]->Authorized_operation;
            let given = operation->Input_frame;
            let (runtime, outcome) = gateway.runtime.input_submitted(world, given);
            &&& others_untouched(gateway, after, c)
            &&& stands_as_before(gateway, after, c)
            &&& after.history.len() > n
            &&& after.history[n] == (Exchange::Authorized {
                principal: session.principal,
                operation,
                allowed,
            })
            &&& operation == (Operation::Input { world, frame: given })
            &&& given_for(given, frame, session.principal)
            &&& !allowed ==> after.runtime == gateway.runtime && offered(after.history) == offered(
                gateway.history,
            ).push((c, error_reply_of(18, 0, "not authorized by game policy"@)))
                && after.counters.inputs_rejected == one_more(gateway.counters.inputs_rejected)
                && after.counters.policy_rejections == one_more(
                gateway.counters.policy_rejections,
            )
            &&& allowed ==> after.runtime == runtime
            &&& allowed && outcome is Ok ==> offered(after.history) == offered(gateway.history)
                && after.counters.inputs_accepted == one_more(gateway.counters.inputs_accepted)
                && after.counters.inputs_rejected == gateway.counters.inputs_rejected
            &&& allowed && outcome is Err ==> after.counters.inputs_rejected == one_more(
                gateway.counters.inputs_rejected,
            ) && offered(after.history) == offered(gateway.history).push(
                (
                    c,
                    error_reply_of(
                        runtime_error_code_of(outcome->Err_0),
                        0,
                        outcome->Err_0.text(),
                    ),
                ),
            )
        }),
{
    reveal(GatewayView::dispatched);
    reveal(GatewayView::input_handled);
    reveal(GatewayView::input_refused);
    let session = gateway.connections[c.0].session->0;
    let world = session.attached_world->0;
    let after = gateway.dispatched(c, ClientMessageView::InputFrame { frame }, now, h);
    let taken = gateway.rate_taken(c, RateBucket::Input, now).0;
    limits_are_their_own(gateway, c, RateBucket::Input, now);
    let given = stamped(frame, session.principal.id);
    let operation = Operation::Input { world, frame: given };
    let (asked, granted) = taken.authorized(session.principal, operation, h);
    let exchange = asked.history.last();
    let n = gateway.history.len() as int;
    silent_exchange(taken.history, exchange);
    if !granted {
        let noted = asked.with_counters(
            NetworkCounters {
                policy_rejections: counted(asked.counters.policy_rejections),
                ..asked.counters
            },
        );
        let answer = error_reply(18, "not authorized by game policy"@, 0);
        answering_touches_the_addressee(noted, c, answer, h);
        answers_come_behind(noted, c, answer, h);
        let told = noted.replied(c, answer, h);
        assert(others_untouched(gateway, noted, c));
        untouched_throughout(gateway, noted, told, c);
        assert(after.history == told.history);
        assert(told.history[n] == noted.history[n]);
        assert(after.connections == told.connections && after.pending == told.pending);
    } else {
        let (runtime, outcome) = asked.runtime.input_submitted(world, given);
        let submitted = GatewayView { runtime, ..asked };
        assert(others_untouched(gateway, submitted, c));
        if let Err(error) = outcome {
            let answer = error_reply(runtime_error_code_of(error), error.text(), 0);
            answering_touches_the_addressee(submitted, c, answer, h);
            answers_come_behind(submitted, c, answer, h);
            let told = submitted.replied(c, answer, h);
            untouched_throughout(gateway, submitted, told, c);
            assert(after.history == told.history);
            assert(told.history[n] == submitted.history[n]);
            assert(after.connections == told.connections && after.pending == told.pending);
        }
    }
}

// ------------------------------------------------------------ subscriptions

proof fn telling_touches_the_addressee(
    gateway: GatewayView,
    c: ConnectionId,
    messages: Seq<ServerMessageView>,
    h: Seq<Exchange>,
)
    ensures
        others_untouched(gateway, gateway.updates_sent(c, messages, h), c),
        stands_as_before(gateway, gateway.updates_sent(c, messages, h), c),
        gateway.updates_sent(c, messages, h).runtime == gateway.runtime,
        gateway.updates_sent(c, messages, h).ended == gateway.ended || !gateway.updates_sent(
            c,
            messages,
            h,
        ).connections.contains_key(c.0),
    decreases messages.len(),
{
    if messages.len() > 0 {
        telling_touches_the_addressee(gateway, c, messages.drop_last(), h);
        let before = gateway.updates_sent(c, messages.drop_last(), h);
        let sent = before.sent(c, messages.last(), h).0;
        if before.connections.contains_key(c.0) {
            answering_touches_the_addressee(before, c, messages.last(), h);
        } else {
            reveal(GatewayView::sent);
        }
        untouched_throughout(gateway, before, sent, c);
        reveal(GatewayView::sent);
        reveal(GatewayView::disconnected);
    }
}

proof fn pumping_touches_the_addressee(
    gateway: GatewayView,
    c: ConnectionId,
    world: WorldId,
    subscription: SubscriptionId,
    request_id: u64,
    h: Seq<Exchange>,
)
    ensures
        others_untouched(gateway, gateway.pumped(c, world, subscription, request_id, h), c),
        stands_as_before(gateway, gateway.pumped(c, world, subscription, request_id, h), c),
        gateway.pumped(c, world, subscription, request_id, h).runtime == gateway.runtime,
{
    reveal(GatewayView::pumped);
    let answer = match gateway.next(h) {
        Exchange::Drained { answer, .. } => answer,
        _ => Ok(Seq::empty()),
    };
    let asked = gateway.recorded(Exchange::Drained { world, subscription, answer });
    if let Ok(updates) = answer {
        let messages = update_messages(subscription, request_id, updates);
        telling_touches_the_addressee(asked, c, messages, h);
        untouched_throughout(gateway, asked, asked.updates_sent(c, messages, h), c);
    }
}

/// A subscription that is refused before any registry is asked, because of the
/// limit on such requests, for want of a session or of an attachment, or
/// because the session has as many as it may, is answered with an error under
/// the client's request id, and nothing else happens.
#[verifier::spinoff_prover]
pub proof fn unfit_subscriptions_go_nowhere(
    gateway: GatewayView,
    c: ConnectionId,
    request_id: u64,
    query: QueryView,
    now: u64,
    h: Seq<Exchange>,
)
    requires
        gateway.connections.contains_key(c.0),
    ensures
        ({
            let entry = gateway.connections[c.0];
            let after = gateway.dispatched(
                c,
                ClientMessageView::Subscribe { request_id, query },
                now,
                h,
            );
            let within = entry.rate.subscribe.allows(now);
            let world = entry.session->0.attached_world;
            &&& !within ==> refused_for_rate(gateway, after, c, request_id)
            &&& within && entry.session is None ==> only_answered(
                gateway,
                after,
                c,
                error_reply_of(20, request_id, "authentication required"@),
            )
            &&& within && entry.session is Some && world is None ==> only_answered(
                gateway,
                after,
                c,
                error_reply_of(21, request_id, "attach to a world before subscribing"@),
            )
            &&& within && entry.session is Some && world is Some && entry.subscriptions.len()
                >= gateway.config.max_subscriptions_per_session ==> only_answered(
                gateway,
                after,
                c,
                error_reply_of(17, request_id, "subscription limit reached"@),
            )
        }),
{
    reveal(GatewayView::dispatched);
    reveal(GatewayView::subscribe_handled);
    reveal(GatewayView::subscribe_admitted);
    let entry = gateway.connections[c.0];
    let after = gateway.dispatched(c, ClientMessageView::Subscribe { request_id, query }, now, h);
    let (taken, allowed) = gateway.rate_taken(c, RateBucket::Subscribe, now);
    limits_are_their_own(gateway, c, RateBucket::Subscribe, now);
    if !allowed {
        let answer = error_reply(19, "rate limit exceeded"@, request_id);
        answering_touches_the_addressee(taken, c, answer, h);
        answered_since(gateway, taken, after, c, answer);
    } else if entry.session is None || entry.session->0.attached_world is None
        || entry.subscriptions.len() >= gateway.config.max_subscriptions_per_session {
        let answer = if entry.session is None {
            error_reply(20, "authentication required"@, request_id)
        } else if entry.session->0.attached_world is None {
            error_reply(21, "attach to a world before subscribing"@, request_id)
        } else {
            error_reply(17, "subscription limit reached"@, request_id)
        };
        assert(after == taken.replied(c, answer, h));
        answering_touches_the_addressee(taken, c, answer, h);
        answered_since(gateway, taken, after, c, answer);
    }
}

/// A subscription of an attached session within its limits asks the registry of
/// the session's world with the client's own query. If the registry takes it,
/// the connection has that subscription, on that world, besides those it had,
/// the world has it too, and the client is told what the registry has pending,
/// the first rows under the client's request id. If it does not, the client is
/// answered with an error under that id, and has what it had.
#[verifier::spinoff_prover]
#[verifier::rlimit(40)]
pub proof fn subscriptions_show_the_first_rows(
    gateway: GatewayView,
    c: ConnectionId,
    request_id: u64,
    query: QueryView,
    now: u64,
    h: Seq<Exchange>,
)
    requires
        gateway.connections.contains_key(c.0),
        gateway.connections[c.0].rate.subscribe.allows(now),
        gateway.connections[c.0].session is Some,
        gateway.connections[c.0].session->0.attached_world is Some,
        gateway.connections[c.0].subscriptions.len()
            < gateway.config.max_subscriptions_per_session,
        gateway.runtime.state == RuntimeState::Running,
        gateway.runtime.worlds.contains_key(
            (gateway.connections[c.0].session->0.attached_world->0).0,
        ),
    ensures
        ({
            let entry = gateway.connections[c.0];
            let world = entry.session->0.attached_world->0;
            let after = gateway.dispatched(
                c,
                ClientMessageView::Subscribe { request_id, query },
                now,
                h,
            );
            let n = gateway.history.len() as int;
            let answer = after.history[n]->Subscribed_answer;
            let y = after.connections[c.0];
            &&& after.history.len() > n
            &&& after.history[n] == (Exchange::Subscribed { world, query, answer })
            &&& h[n] is Subscribed ==> answer == h[n]->Subscribed_answer
            &&& others_untouched(gateway, after, c)
            &&& answer matches Err(error) ==> {
                &&& after.runtime == gateway.runtime
                &&& stands_as_before(gateway, after, c)
                &&& offered(after.history) == offered(gateway.history).push(
                    (
                        c,
                        error_reply_of(
                            runtime_error_code_of(RuntimeErrorView::Core(error)),
                            request_id,
                            RuntimeErrorView::Core(error).text(),
                        ),
                    ),
                )
            }
            &&& answer matches Ok(id) ==> {
                let drained = after.history[n + 1]->Drained_answer;
                &&& after.history.len() > n + 1
                &&& after.history[n + 1] == (Exchange::Drained {
                    world,
                    subscription: id,
                    answer: drained,
                })
                &&& after.runtime == gateway.runtime.subscribed(world, answer).0
                &&& after.connections.contains_key(c.0) ==> y.session == entry.session
                    && y.subscriptions == entry.subscriptions.insert(id.0, world) && y.pending_ids
                    == entry.pending_ids
                &&& after.connections.contains_key(c.0) && drained is Ok ==> told(after, c, id)
                    == told(gateway, c, id) + learnt(drained->Ok_0, request_id)
            }
        }),
{
    reveal(GatewayView::dispatched);
    reveal(GatewayView::subscribe_handled);
    reveal(GatewayView::subscribe_admitted);
    reveal(GatewayView::subscribe_failed);
    let entry = gateway.connections[c.0];
    let world = entry.session->0.attached_world->0;
    let after = gateway.dispatched(c, ClientMessageView::Subscribe { request_id, query }, now, h);
    let n = gateway.history.len() as int;
    let taken = gateway.rate_taken(c, RateBucket::Subscribe, now).0;
    limits_are_their_own(gateway, c, RateBucket::Subscribe, now);
    let answer = match taken.next(h) {
        Exchange::Subscribed { answer, .. } => answer,
        _ => Err(ErrorView::Internal(Seq::empty())),
    };
    let exchange = Exchange::Subscribed { world, query, answer };
    let asked = taken.recorded(exchange);
    let noted = GatewayView { runtime: taken.runtime.subscribed(world, answer).0, ..asked };
    silent_exchange(taken.history, exchange);
    match answer {
        Err(error) => {
            let failure = RuntimeErrorView::Core(error);
            let reply = error_reply(runtime_error_code_of(failure), failure.text(), request_id);
            answering_touches_the_addressee(noted, c, reply, h);
            answers_come_behind(noted, c, reply, h);
            assert(others_untouched(gateway, noted, c));
            untouched_throughout(gateway, noted, after, c);
            assert(after.history[n] == noted.history[n]);
        },
        Ok(id) => {
            let held = noted.with_subscriptions(c, entry.subscriptions.insert(id.0, world));
            assert(others_untouched(gateway, held, c));
            assert(after == held.pumped(c, world, id, request_id, h));
            pumping_touches_the_addressee(held, c, world, id, request_id, h);
            pumping_tells_what_was_drained(held, c, world, id, request_id, h);
            pumping_comes_behind(held, c, world, id, request_id, h);
            untouched_throughout(gateway, held, after, c);
            assert(after.history[n] == held.history[n]);
            assert(told(held, c, id) == told(gateway, c, id));
        },
    }
}

proof fn pumping_comes_behind(
    gateway: GatewayView,
    c: ConnectionId,
    world: WorldId,
    subscription: SubscriptionId,
    request_id: u64,
    h: Seq<Exchange>,
)
    ensures
        extends(
            gateway.history,
            gateway.pumped(c, world, subscription, request_id, h).history,
        ),
{
    reveal(GatewayView::pumped);
    let answer = match gateway.next(h) {
        Exchange::Drained { answer, .. } => answer,
        _ => Ok(Seq::empty()),
    };
    let asked = gateway.recorded(Exchange::Drained { world, subscription, answer });
    if let Ok(updates) = answer {
        telling_extends(asked, c, update_messages(subscription, request_id, updates), h);
    }
}

/// Ending a subscription that a connection has takes it, and only it, from the
/// connection, and notes it to be told to its world's registry; nothing is
/// answered. Ending one that it does not have is answered with code 22.
pub proof fn unsubscribing_ends_one_subscription(
    gateway: GatewayView,
    c: ConnectionId,
    subscription: SubscriptionId,
    now: u64,
    h: Seq<Exchange>,
)
    requires
        gateway.connections.contains_key(c.0),
    ensures
        ({
            let entry = gateway.connections[c.0];
            let after = gateway.dispatched(
                c,
                ClientMessageView::Unsubscribe { subscription },
                now,
                h,
            );
            let y = after.connections[c.0];
            let had = entry.subscriptions.contains_key(subscription.0);
            &&& !had ==> only_answered(
                gateway,
                after,
                c,
                error_reply_of(22, 0, "unknown subscription"@),
            )
            &&& had ==> {
                &&& after.history == gateway.history
                &&& after.runtime == gateway.runtime
                &&& after.pending == gateway.pending
                &&& others_untouched(gateway, after, c)
                &&& after.connections.contains_key(c.0)
                &&& y == (ConnectionView { subscriptions: y.subscriptions, ..entry })
                &&& y.subscriptions == entry.subscriptions.remove(subscription.0)
                &&& after.ended == gateway.ended.push(
                    (entry.subscriptions[subscription.0], subscription),
                )
            }
        }),
{
    reveal(GatewayView::dispatched);
    reveal(GatewayView::unsubscribe_handled);
    answering_touches_the_addressee(
        gateway,
        c,
        error_reply(22, "unknown subscription"@, 0),
        h,
    );
}

/// The subscriptions that registries were asked to end, in order.
pub open spec fn ends_asked(history: Seq<Exchange>) -> Seq<(WorldId, SubscriptionId)>
    decreases history.len(),
{
    if history.len() == 0 {
        Seq::empty()
    } else {
        let earlier = ends_asked(history.drop_last());
        match history.last() {
            Exchange::Unsubscribed { world, subscription, .. } => earlier.push(
                (world, subscription),
            ),
            _ => earlier,
        }
    }
}

/// Every subscription that was noted as ended is told to its world's registry,
/// in order, as long as the runtime runs and the world is registered; none is
/// left noted.
pub proof fn ended_subscriptions_are_told(gateway: GatewayView, h: Seq<Exchange>)
    ensures
        ({
            let after = gateway.ended_settled(h);
            &&& after.ended.len() == 0
            &&& ends_asked(after.history) == ends_asked(gateway.history) + gateway.ended.filter(
                |e: (WorldId, SubscriptionId)|
                    gateway.runtime.state == RuntimeState::Running
                        && gateway.runtime.worlds.contains_key(e.0.0),
            )
            &&& offered(after.history) == offered(gateway.history)
        }),
{
    reveal(GatewayView::ended_settled);
    let cleared = GatewayView { ended: Seq::empty(), ..gateway };
    ends_are_asked(cleared, gateway.ended, h);
}

proof fn ends_are_asked(
    gateway: GatewayView,
    ended: Seq<(WorldId, SubscriptionId)>,
    h: Seq<Exchange>,
)
    ensures
        ({
            let after = gateway.all_ended(ended, h);
            &&& after.ended == gateway.ended
            &&& after.runtime.state == gateway.runtime.state
            &&& forall|w: u64| #[trigger]
                after.runtime.worlds.contains_key(w) <==> gateway.runtime.worlds.contains_key(w)
            &&& ends_asked(after.history) == ends_asked(gateway.history) + ended.filter(
                |e: (WorldId, SubscriptionId)|
                    gateway.runtime.state == RuntimeState::Running
                        && gateway.runtime.worlds.contains_key(e.0.0),
            )
            &&& offered(after.history) == offered(gateway.history)
        }),
    decreases ended.len(),
{
    reveal(Seq::filter);
    let reachable = |e: (WorldId, SubscriptionId)|
        gateway.runtime.state == RuntimeState::Running && gateway.runtime.worlds.contains_key(
            e.0.0,
        );
    if ended.len() == 0 {
        assert(ends_asked(gateway.history) + ended.filter(reachable) =~= ends_asked(
            gateway.history,
        ));
    } else {
        let earlier = ended.drop_last();
        ends_are_asked(gateway, earlier, h);
        let before = gateway.all_ended(earlier, h);
        let after = gateway.all_ended(ended, h);
        let (world, subscription) = ended.last();
        assert(before.runtime.worlds.contains_key(world.0)
            <==> gateway.runtime.worlds.contains_key(world.0));
        if reachable(ended.last()) {
            let exchange = after.history.last();
            assert(after.history.drop_last() =~= before.history);
            silent_exchange(before.history, exchange);
            assert((ends_asked(gateway.history) + earlier.filter(reachable)).push(
                (world, subscription),
            ) =~= ends_asked(gateway.history) + ended.filter(reachable));
        }
        assert forall|w: u64| #[trigger]
            after.runtime.worlds.contains_key(w) <==> gateway.runtime.worlds.contains_key(w) by {
            assert(before.runtime.worlds.contains_key(w)
                <==> gateway.runtime.worlds.contains_key(w));
        }
    }
}

/// A resync within its limit, of a subscription that the connection has, makes
/// the session current again, asks the registry of the subscription's world to
/// show the rows anew, and tells the client what the registry then has pending.
/// Of one that it does not have the answer is code 22; over the limit 19.
#[verifier::spinoff_prover]
#[verifier::rlimit(40)]
pub proof fn resyncs_show_the_rows_anew(
    gateway: GatewayView,
    c: ConnectionId,
    subscription: SubscriptionId,
    now: u64,
    h: Seq<Exchange>,
)
    requires
        gateway.connections.contains_key(c.0),
    ensures
        ({
            let entry = gateway.connections[c.0];
            let after = gateway.dispatched(c, ClientMessageView::Resync { subscription }, now, h);
            let n = gateway.history.len() as int;
            let within = entry.rate.resync.allows(now);
            let had = entry.subscriptions.contains_key(subscription.0);
            let world = entry.subscriptions[subscription.0];
            let reachable = gateway.runtime.state == RuntimeState::Running
                && gateway.runtime.worlds.contains_key(world.0);
            &&& !within ==> refused_for_rate(gateway, after, c, 0)
            &&& within && !had ==> only_answered(
                gateway,
                after,
                c,
                error_reply_of(22, 0, "unknown subscription"@),
            )
            &&& within && had && reachable ==> {
                let answer = after.history[n]->Resynced_answer;
                &&& after.history.len() > n
                &&& after.history[n] == (Exchange::Resynced { world, subscription, answer })
                &&& h[n] is Resynced ==> answer == h[n]->Resynced_answer
                &&& others_untouched(gateway, after, c)
                &&& stands_as_before(gateway, after, c)
                &&& after.runtime == gateway.runtime
                &&& answer matches Err(error) ==> offered(after.history) == offered(
                    gateway.history,
                ).push(
                    (
                        c,
                        error_reply_of(
                            runtime_error_code_of(RuntimeErrorView::Core(error)),
                            0,
                            RuntimeErrorView::Core(error).text(),
                        ),
                    ),
                )
                &&& answer is Ok ==> {
                    let drained = after.history[n + 1]->Drained_answer;
                    &&& after.history.len() > n + 1
                    &&& after.history[n + 1] == (Exchange::Drained {
                        world,
                        subscription,
                        answer: drained,
                    })
                    &&& after.connections.contains_key(c.0) && drained is Ok ==> told(
                        after,
                        c,
                        subscription,
                    ) == told(gateway, c, subscription) + learnt(drained->Ok_0, 0)
                    &&& after.connections.contains_key(c.0) && drained is Err
                        ==> !after.connections[c.0].stale
                        && after.connections[c.0].pending_stale.len() == 0
                }
            }
        }),
{
    reveal(GatewayView::dispatched);
    reveal(GatewayView::resync_handled);
    reveal(GatewayView::resync_admitted);
    reveal(GatewayView::subscribe_failed);
    let entry = gateway.connections[c.0];
    let after = gateway.dispatched(c, ClientMessageView::Resync { subscription }, now, h);
    let n = gateway.history.len() as int;
    let (taken, allowed) = gateway.rate_taken(c, RateBucket::Resync, now);
    limits_are_their_own(gateway, c, RateBucket::Resync, now);
    let world = entry.subscriptions[subscription.0];
    let had = entry.subscriptions.contains_key(subscription.0);
    if !allowed {
        let answer = error_reply(19, "rate limit exceeded"@, 0);
        answering_touches_the_addressee(taken, c, answer, h);
        answered_since(gateway, taken, after, c, answer);
    } else if !had {
        let answer = error_reply(22, "unknown subscription"@, 0);
        answering_touches_the_addressee(taken, c, answer, h);
        answered_since(gateway, taken, after, c, answer);
    } else if gateway.runtime.state == RuntimeState::Running && gateway.runtime.worlds.contains_key(
        world.0,
    ) {
        let cleared = taken.with_connection(
            c,
            ConnectionView {
                stale: false,
                pending_stale: Seq::empty(),
                ..taken.connections[c.0]
            },
        );
        let answer = match taken.next(h) {
            Exchange::Resynced { answer, .. } => answer,
            _ => Err(ErrorView::Internal(Seq::empty())),
        };
        let exchange = Exchange::Resynced { world, subscription, answer };
        let asked = cleared.recorded(exchange);
        silent_exchange(cleared.history, exchange);
        assert(others_untouched(gateway, asked, c));
        match answer {
            Err(error) => {
                let failure = RuntimeErrorView::Core(error);
                let reply = error_reply(runtime_error_code_of(failure), failure.text(), 0);
                answering_touches_the_addressee(asked, c, reply, h);
                answers_come_behind(asked, c, reply, h);
                untouched_throughout(gateway, asked, after, c);
                assert(after.history[n] == asked.history[n]);
            },
            Ok(_) => {
                assert(after == asked.pumped(c, world, subscription, 0, h));
                pumping_touches_the_addressee(asked, c, world, subscription, 0, h);
                pumping_tells_what_was_drained(asked, c, world, subscription, 0, h);
                pumping_comes_behind(asked, c, world, subscription, 0, h);
                untouched_throughout(gateway, asked, after, c);
                assert(after.history[n] == asked.history[n]);
                assert(told(asked, c, subscription) == told(gateway, c, subscription));
                reveal(GatewayView::pumped);
            },
        }
    }
}

// -------------------------------------------------------------------- calls

/// A reducer call goes to the caller's world exactly if it is within its limit,
/// its request id is not kept for the server and not in use on the connection,
/// the session is attached, its name and its arguments are within their bounds,
/// no more calls wait than may, the policy allows the principal to make it on
/// that world, and the world runs and has room for it.
pub proof fn calls_are_let_through_by_all(
    gateway: GatewayView,
    c: ConnectionId,
    request_id: u64,
    reducer: Seq<char>,
    args: Entries,
    now: u64,
    h: Seq<Exchange>,
)
    requires
        gateway.connections.contains_key(c.0),
    ensures
        ({
            let entry = gateway.connections[c.0];
            let session = entry.session->0;
            let world = session.attached_world->0;
            let target = gateway.runtime.worlds[world.0];
            call_rejection(gateway, c, request_id, reducer, args, now, h) is None <==> {
                &&& entry.rate.reducer.allows(now)
                &&& request_id < 0x8000_0000_0000_0000
                &&& entry.session is Some
                &&& session.attached_world is Some
                &&& encode_utf8(reducer).len() <= gateway.config.max_reducer_name_len
                &&& args.len() <= gateway.config.max_reducer_args
                &&& entry.pending_ids.len() < gateway.config.max_pending_calls_per_connection
                &&& !entry.pending_ids.contains(request_id)
                &&& gateway.next_gateway_request < u64::MAX
                &&& h[gateway.history.len() as int] matches Exchange::Authorized {
                    allowed: true,
                    ..
                }
                &&& gateway.runtime.state == RuntimeState::Running
                &&& gateway.runtime.worlds.contains_key(world.0)
                &&& target.state == WorldLifecycle::Running
                &&& reducer.len() > 0
                &&& target.calls.len() < gateway.runtime.config.max_queued_reducer_calls
            }
        }),
{
    limits_are_their_own(gateway, c, RateBucket::Reducer, now);
}

/// A call that is let through was shown to the policy as the principal's own on
/// the session's world, and reaches the world with the client's arguments, but
/// for the caller's identity, which is the principal's whatever the client put
/// there.
pub proof fn calls_carry_the_principal(
    gateway: GatewayView,
    c: ConnectionId,
    request_id: u64,
    reducer: Seq<char>,
    args: Entries,
    now: u64,
    h: Seq<Exchange>,
    name: Seq<char>,
)
    requires
        gateway.connections.contains_key(c.0),
        in_name_order(args),
        call_rejection(gateway, c, request_id, reducer, args, now, h) is None,
    ensures
        ({
            let session = gateway.connections[c.0].session->0;
            let world = session.attached_world->0;
            let after = gateway.dispatched(
                c,
                ClientMessageView::CallReducer { request_id, reducer, args },
                now,
                h,
            );
            let queue = after.runtime.worlds[world.0].calls;
            let call = queue.last();
            &&& after.history == gateway.history.push(
                Exchange::Authorized {
                    principal: session.principal,
                    operation: Operation::Call { world, reducer },
                    allowed: true,
                },
            )
            &&& queue == gateway.runtime.worlds[world.0].calls.push(call)
            &&& call.reducer == reducer
            &&& call.request_id == gateway.next_gateway_request
            &&& entry_of(call.args, "__caller"@) == Some(ValueView::U64(session.principal.id))
            &&& name != "__caller"@ ==> entry_of(call.args, name) == entry_of(args, name)
            &&& after.pending == gateway.pending.insert(
                gateway.next_gateway_request,
                PendingView { world, connection: c, client_request_id: request_id },
            )
            &&& after.next_gateway_request == gateway.next_gateway_request + 1
            &&& after.connections[c.0].pending_ids
                == gateway.connections[c.0].pending_ids.insert(request_id)
            &&& after.counters.reducer_calls_accepted == one_more(
                gateway.counters.reducer_calls_accepted,
            )
        }),
{
    reveal(GatewayView::dispatched);
    reveal(GatewayView::call_handled);
    reveal(GatewayView::call_admitted);
    reveal(GatewayView::call_queued);
    accepted_calls_wait(gateway, c, request_id, reducer, args, now, h);
    let id = gateway.connections[c.0].session->0.principal.id;
    reading_a_set_entry(args, "__caller"@, ValueView::U64(id), "__caller"@);
    reading_a_set_entry(args, "__caller"@, ValueView::U64(id), name);
}

/// The answer to a call tells what came of it: the value, and no error, if the
/// reducer gave one, and otherwise the error's text and no value; under the
/// request id given.
pub proof fn answers_tell_the_outcome(id: u64, outcome: Result<ValueView, ErrorView>)
    ensures
        GatewayView::call_reply(id, outcome) == match outcome {
            Ok(value) => ServerMessageView::ReducerResult {
                request_id: id,
                ok: true,
                value: Some(value),
                error: None,
            },
            Err(error) => ServerMessageView::ReducerResult {
                request_id: id,
                ok: false,
                value: None,
                error: Some(error.text()),
            },
        },
{
}

/// Detaching needs a session (code 20 without one) and an attachment (code 21
/// without one). It ends the attachment and keeps the principal; every
/// subscription of the connection is noted to be told to its registry, and no
/// call of it waits any more.
pub proof fn detaching_ends_the_attachment(
    gateway: GatewayView,
    c: ConnectionId,
    now: u64,
    h: Seq<Exchange>,
)
    requires
        gateway.connections.contains_key(c.0),
        gateway.connections[c.0].subscriptions.dom().finite(),
    ensures
        ({
            let entry = gateway.connections[c.0];
            let after = gateway.dispatched(c, ClientMessageView::DetachWorld, now, h);
            let y = after.connections[c.0];
            &&& entry.session is None ==> only_answered(
                gateway,
                after,
                c,
                error_reply_of(20, 0, "authentication required"@),
            )
            &&& entry.session is Some && entry.session->0.attached_world is None ==> only_answered(
                gateway,
                after,
                c,
                error_reply_of(21, 0, "session is not attached to a world"@),
            )
            &&& entry.session is Some && entry.session->0.attached_world is Some ==> {
                &&& after.connections.contains_key(c.0) ==> {
                    &&& y.session == Some(
                        SessionView { attached_world: None, ..entry.session->0 },
                    )
                    &&& y.subscriptions == Map::<u64, WorldId>::empty()
                    &&& y.pending_ids == Set::<u64>::empty()
                    &&& after.ended.len() == gateway.ended.len() + entry.subscriptions.len()
                    &&& forall|s: u64| #[trigger]
                        entry.subscriptions.contains_key(s) ==> after.ended.contains(
                            (entry.subscriptions[s], SubscriptionId(s)),
                        )
                }
                &&& forall|g: u64| #[trigger]
                    after.pending.contains_key(g) ==> after.pending[g].connection != c
                &&& others_untouched(gateway, after, c)
                &&& after.runtime == gateway.runtime
            }
        }),
{
    reveal(GatewayView::dispatched);
    reveal(GatewayView::detached);
    let entry = gateway.connections[c.0];
    let after = gateway.dispatched(c, ClientMessageView::DetachWorld, now, h);
    if entry.session is None {
        answering_touches_the_addressee(
            gateway,
            c,
            error_reply(20, "authentication required"@, 0),
            h,
        );
    } else if entry.session->0.attached_world is None {
        answering_touches_the_addressee(
            gateway,
            c,
            error_reply(21, "session is not attached to a world"@, 0),
            h,
        );
    } else {
        let noted = gateway.released(c).with_event(NetworkEventView::Detached { connection: c });
        let ids = ascending(entry.pending_ids);
        let reason = "detached from the world before the call was answered"@;
        let failed = noted.calls_failed(c, ids, reason, h);
        let message = ServerMessageView::DetachResult { ok: true, error: None };
        assert(others_untouched(gateway, noted, c));
        failing_touches_the_addressee(noted, c, ids, reason, h);
        untouched_throughout(gateway, noted, failed, c);
        if failed.connections.contains_key(c.0) {
            answering_touches_the_addressee(failed, c, message, h);
        } else {
            reveal(GatewayView::replied);
            reveal(GatewayView::sent);
        }
        untouched_throughout(gateway, failed, after, c);
        survivors_end_nothing(failed, c, message, h);
        let subscriptions = ascending(entry.subscriptions.dom());
        ascending_lists(entry.subscriptions.dom());
        assert forall|s: u64| #[trigger]
            entry.subscriptions.contains_key(s) implies noted.ended.contains(
            (entry.subscriptions[s], SubscriptionId(s)),
        ) by {
            assert(subscriptions.to_set().contains(s));
            let i = subscriptions.index_of(s);
            assert(noted.ended[gateway.ended.len() + i] == (
                entry.subscriptions[s],
                SubscriptionId(s),
            ));
        }
    }
}

proof fn survivors_end_nothing(
    gateway: GatewayView,
    c: ConnectionId,
    message: ServerMessageView,
    h: Seq<Exchange>,
)
    ensures
        ({
            let after = gateway.sent(c, message, h).0;
            after.connections.contains_key(c.0) ==> after.ended == gateway.ended
        }),
        gateway.replied(c, message, h) == gateway.sent(c, message, h).0,
        forall|g: u64| #[trigger]
            gateway.sent(c, message, h).0.pending.contains_key(g) ==> gateway.pending.contains_key(
                g,
            ) && gateway.sent(c, message, h).0.pending[g] == gateway.pending[g],
{
    reveal(GatewayView::replied);
    reveal(GatewayView::sent);
    reveal(GatewayView::disconnected);
}

proof fn failing_touches_the_addressee(
    gateway: GatewayView,
    c: ConnectionId,
    ids: Seq<u64>,
    reason: Seq<char>,
    h: Seq<Exchange>,
)
    ensures
        ({
            let after = gateway.calls_failed(c, ids, reason, h);
            &&& others_untouched(gateway, after, c)
            &&& stands_as_before(gateway, after, c)
            &&& after.runtime == gateway.runtime
            &&& after.connections.contains_key(c.0) ==> after.ended == gateway.ended
            &&& forall|g: u64| #[trigger]
                after.pending.contains_key(g) ==> gateway.pending.contains_key(g)
                    && after.pending[g] == gateway.pending[g]
        }),
    decreases ids.len(),
{
    if ids.len() > 0 {
        failing_touches_the_addressee(gateway, c, ids.drop_last(), reason, h);
        let before = gateway.calls_failed(c, ids.drop_last(), reason, h);
        let message = call_failure(ids.last(), reason);
        let sent = before.sent(c, message, h).0;
        survivors_end_nothing(before, c, message, h);
        if before.connections.contains_key(c.0) {
            answering_touches_the_addressee(before, c, message, h);
        } else {
            reveal(GatewayView::sent);
        }
        untouched_throughout(gateway, before, sent, c);
    }
}

// -------------------------------------------------------------- connections

/// A message for a connection that is not registered goes nowhere. For one that
/// is, it is offered to its transport; but a stale session is offered nothing
/// except stale notifications, errors and the reason it is disconnected. What
/// the transport takes is counted as sent. When the transport is full, the
/// session falls stale, with a notification to come for each of its
/// subscriptions, or is disconnected, as the gateway is configured; when it is
/// broken, the connection is dropped.
#[verifier::spinoff_prover]
pub proof fn sending_follows_the_overflow_policy(
    gateway: GatewayView,
    c: ConnectionId,
    message: ServerMessageView,
    h: Seq<Exchange>,
)
    ensures
        ({
            let (after, taken) = gateway.sent(c, message, h);
            let n = gateway.history.len() as int;
            let x = gateway.connections[c.0];
            let y = after.connections[c.0];
            let offer = after.history[n]->Offered_offer;
            let flushed = after.history[n]->Offered_flushed;
            let held_back = x.stale && !(message is StaleNotification) && !(message is Disconnect)
                && !(message is Error);
            &&& !gateway.connections.contains_key(c.0) ==> after == gateway && taken == Err::<
                bool,
                NetworkErrorView,
            >(NetworkErrorView::UnknownConnection(c))
            &&& gateway.connections.contains_key(c.0) ==> {
                &&& after.history.len() > n && after.history[n] is Offered
                &&& offer is Withheld <==> held_back
                &&& flushed <= x.pending_stale.len()
                &&& after.connections.contains_key(c.0) <==> !(offer is Broken) && !(offer is Full
                    && gateway.config.overflow_policy == OutboundOverflowPolicy::Disconnect)
                &&& taken == Ok::<bool, NetworkErrorView>(true) <==> offer is Taken
                &&& taken is Err <==> offer is Oversized
                &&& offer is Taken ==> after.counters.messages_outbound == one_more(
                    gateway.counters.messages_outbound,
                ) && after.counters.messages_dropped == gateway.counters.messages_dropped
                &&& offer is Withheld || offer is Full ==> after.counters.messages_dropped
                    == one_more(gateway.counters.messages_dropped)
                    && after.counters.messages_outbound == gateway.counters.messages_outbound
                &&& after.connections.contains_key(c.0) ==> y.stale == (x.stale || offer is Full)
                &&& after.connections.contains_key(c.0) && !(offer is Full && !x.stale)
                    ==> y.pending_stale == x.pending_stale.skip(flushed as int)
                &&& after.connections.contains_key(c.0) && offer is Full && !x.stale
                    && gateway.config.max_frame_payload >= 16 ==> y.pending_stale
                    == x.pending_stale.skip(flushed as int) + ascending(x.subscriptions.dom())
                &&& after.connections.contains_key(c.0) && offer is Full && !x.stale
                    ==> after.events.len() > 0 && after.events.last() == (
                NetworkEventView::SessionStale { connection: c })
            }
        }),
{
    reveal(GatewayView::sent);
    reveal(GatewayView::disconnected);
}

/// A connection is registered exactly if there are fewer than the limit; it
/// gets an id that was never given out, has no session, no subscription, no
/// call and unused limits, the configured ones, and is not stale. No other
/// connection changes.
pub proof fn connections_start_out_blank(gateway: GatewayView, contacts: Seq<Contact>)
    requires
        gateway.valid(),
        gateway.next_connection < u64::MAX,
    ensures
        ({
            let (after, outcome) = gateway.connection_registered(contacts);
            let limits = gateway.config.rate_limits;
            &&& outcome is Ok <==> gateway.connections.len() < gateway.config.max_connections
            &&& outcome is Err ==> after == gateway && outcome->Err_0 is ConnectionLimit
            &&& outcome matches Ok(c) ==> {
                let y = after.connections[c.0];
                &&& !gateway.connections.contains_key(c.0)
                &&& after.connections.contains_key(c.0)
                &&& forall|d: u64|
                    d != c.0 ==> (#[trigger] after.connections.contains_key(d)
                        <==> gateway.connections.contains_key(d))
                &&& forall|d: u64|
                    d != c.0 ==> #[trigger] after.connections[d] == gateway.connections[d]
                &&& after.next_connection > c.0 && after.next_connection
                    > gateway.next_connection && c.0 >= gateway.next_connection
                &&& y.session is None && !y.stale && y.pending_stale.len() == 0
                &&& y.subscriptions == Map::<u64, WorldId>::empty()
                &&& y.pending_ids == Set::<u64>::empty()
                &&& y.contacts == contacts
                &&& y.rate.auth == unused(limits.auth_per_window, limits.auth_window_secs)
                &&& y.rate.input == unused(limits.input_per_sec, 1)
                &&& y.rate.reducer == unused(limits.reducer_per_sec, 1)
                &&& y.rate.subscribe == unused(
                    limits.subscribe_per_window,
                    limits.subscribe_window_secs,
                )
                &&& y.rate.resync == unused(limits.resync_per_window, limits.resync_window_secs)
                &&& after.pending == gateway.pending && after.runtime == gateway.runtime
                &&& after.history == gateway.history
                &&& after.events.len() > 0
                &&& after.events.last() == (NetworkEventView::ConnectionOpened { connection: c })
            }
        }),
{
    reveal(connections_valid);
}

/// A limit that was never used.
pub open spec fn unused(limit: u32, window_secs: u64) -> RateWindow {
    RateWindow { start: None, used: 0, limit, window_secs }
}

/// A frame that no message can be read from is answered with the error's code
/// and text, counted, and ends its connection; nothing else is touched.
pub proof fn violations_are_answered_and_end_the_connection(
    gateway: GatewayView,
    c: ConnectionId,
    error: ProtocolErrorView,
    h: Seq<Exchange>,
)
    requires
        gateway.connections.contains_key(c.0),
    ensures
        ({
            let after = gateway.violated(c, error, h);
            &&& offered(after.history) == offered(gateway.history).push(
                (c, error_reply_of(error.code(), 0, error.text())),
            )
            &&& !after.connections.contains_key(c.0)
            &&& others_untouched(gateway, after, c)
            &&& after.runtime == gateway.runtime
            &&& after.counters.frames_rejected == one_more(gateway.counters.frames_rejected)
            &&& after.counters.protocol_errors == one_more(gateway.counters.protocol_errors)
        }),
{
    reveal(GatewayView::violated);
    let noted = gateway.with_counters(
        NetworkCounters {
            frames_rejected: counted(gateway.counters.frames_rejected),
            protocol_errors: counted(gateway.counters.protocol_errors),
            ..gateway.counters
        },
    ).with_event(NetworkEventView::ProtocolError { connection: c });
    let answer = error_reply(error.code(), error.text(), 0);
    answering_touches_the_addressee(noted, c, answer, h);
    let told = noted.replied(c, answer, h);
    assert(others_untouched(gateway, noted, c));
    untouched_throughout(gateway, noted, told, c);
    reveal(GatewayView::sent);
    reveal(GatewayView::disconnected);
    let after = gateway.violated(c, error, h);
    assert(others_untouched(told, after, c));
    untouched_throughout(gateway, told, after, c);
}

/// Every kind of error has its own code on the wire, and the codes do not
/// change: what went wrong with a frame has the codes from 1, what a world or
/// its store refused those from 10, in the order in which the kinds are listed;
/// an error of the runtime that carries none of these has 30.
pub proof fn error_codes_are_stable(
    frame: ProtocolErrorView,
    error: ErrorView,
    failure: RuntimeErrorView,
)
    ensures
        frame is BadMagic ==> frame.code() == 1,
        frame is UnsupportedVersion ==> frame.code() == 2,
        frame is Oversized ==> frame.code() == 3,
        frame is Truncated ==> frame.code() == 4,
        frame is BadChecksum ==> frame.code() == 5,
        frame is UnknownKind ==> frame.code() == 6,
        frame is Malformed ==> frame.code() == 7,
        error is NotFound ==> error_code_of(error) == 10,
        error is AlreadyExists ==> error_code_of(error) == 11,
        error is InvalidArgument ==> error_code_of(error) == 12,
        error is Conflict ==> error_code_of(error) == 13,
        error is AlreadyCommitted ==> error_code_of(error) == 14,
        error is AlreadyAborted ==> error_code_of(error) == 15,
        error is InvalidTransaction ==> error_code_of(error) == 16,
        error is Capacity ==> error_code_of(error) == 17,
        error is Internal ==> error_code_of(error) == 18,
        error is Unsupported ==> error_code_of(error) == 19,
        match failure {
            RuntimeErrorView::InputRejected { reason, .. } => runtime_error_code_of(failure)
                == error_code_of(reason),
            RuntimeErrorView::ReducerCallRejected { reason, .. } => runtime_error_code_of(failure)
                == error_code_of(reason),
            RuntimeErrorView::Persistence(reason) => runtime_error_code_of(failure)
                == error_code_of(reason),
            RuntimeErrorView::Core(reason) => runtime_error_code_of(failure) == error_code_of(
                reason,
            ),
            RuntimeErrorView::Tick { error: reason, .. } => runtime_error_code_of(failure)
                == error_code_of(reason),
            _ => runtime_error_code_of(failure) == 30,
        },
{
}

} // verus!
