//! Laws of the gateway: what holds of every operation, whatever the
//! transports, the authenticator, the policy and the registries answer.

use vstd::prelude::*;

use crate::base::error::ErrorView;
use crate::base::ids::{ConnectionId, SubscriptionId, WorldId};
use crate::base::input::InputFrameView;
use crate::base::message::{CallResultView, TickResultView};
use crate::base::query::QueryView;
use crate::base::table::{ascending, ascending_lists, is_ascending};
use crate::base::value::ValueView;
use crate::network::config::NetworkEventView;
use crate::network::error::{NetworkErrorView, ProtocolErrorView};
use crate::network::frame::PROTOCOL_VERSION;
use crate::network::gateway_laws::sending_keeps_calls;
use crate::network::gateway_model::{
    advanced, call_failure, calls_valid, connections_valid, error_reply, passes_stale, stamped,
    update_messages, updates_for, with_caller, ConnectionView, GatewayView, PendingView,
    StepReport,
};
use crate::network::host::{extends, Exchange, Operation, PendingUpdatesView};
use crate::network::metrics::NetworkCounters;
use crate::network::protocol::{ClientMessageView, ServerMessageView};
use crate::network::rate::RateBucket;
use crate::network::transport::Contact;
use crate::reducer::args::{entry_of, in_name_order, reading_a_set_entry, Entries};
use crate::runtime::metrics::counted;
use crate::runtime::model::RuntimeView;
use crate::runtime::world::WorldView;

verus! {

// ------------------------------------------------------------------ sending

/// Two gateways that differ at most in one connection's state, in the calls
/// and subscriptions of that connection, and in the log, the counters and the
/// record.
pub open spec fn differ_at_most_in(a: GatewayView, b: GatewayView, c: ConnectionId) -> bool {
    &&& b.runtime == a.runtime
    &&& b.config == a.config
    &&& b.server_name == a.server_name
    &&& b.next_connection == a.next_connection
    &&& b.next_gateway_request == a.next_gateway_request
    &&& b.connections.remove(c.0) == a.connections.remove(c.0)
    &&& forall|g: u64| #[trigger]
        a.pending.contains_key(g) && a.pending[g].connection != c ==> b.pending.contains_key(g)
            && b.pending[g] == a.pending[g]
    &&& forall|g: u64| #[trigger]
        b.pending.contains_key(g) && b.pending[g].connection != c ==> a.pending.contains_key(g)
            && b.pending[g] == a.pending[g]
}

proof fn differing_is_transitive(
    first: GatewayView,
    second: GatewayView,
    third: GatewayView,
    c: ConnectionId,
)
    requires
        differ_at_most_in(first, second, c),
        differ_at_most_in(second, third, c),
    ensures
        differ_at_most_in(first, third, c),
{
    assert forall|g: u64| #[trigger]
        first.pending.contains_key(g) && first.pending[g].connection
            != c implies third.pending.contains_key(g) && third.pending[g] == first.pending[g] by {
        assert(second.pending.contains_key(g));
    }
    assert forall|g: u64| #[trigger]
        third.pending.contains_key(g) && third.pending[g].connection
            != c implies first.pending.contains_key(g) && third.pending[g] == first.pending[g] by {
        assert(second.pending.contains_key(g));
    }
}

/// A slow or broken client never disturbs the simulation or another client:
/// sending to a connection leaves the runtime and every other connection,
/// with its pending calls, as they were, whatever its transport answers.
pub proof fn sending_touches_one_connection(
    gateway: GatewayView,
    c: ConnectionId,
    message: ServerMessageView,
    h: Seq<Exchange>,
)
    ensures
        differ_at_most_in(gateway, gateway.sent(c, message, h).0, c),
        differ_at_most_in(gateway, gateway.replied(c, message, h), c),
{
    reveal(GatewayView::sent);
    reveal(GatewayView::replied);
    reveal(GatewayView::disconnected);
    let after = gateway.sent(c, message, h).0;
    assert(after.connections.remove(c.0) =~= gateway.connections.remove(c.0));
}

/// The same holds of several subscription messages.
pub proof fn telling_touches_one_connection(
    gateway: GatewayView,
    c: ConnectionId,
    messages: Seq<ServerMessageView>,
    h: Seq<Exchange>,
)
    ensures
        differ_at_most_in(gateway, gateway.updates_sent(c, messages, h), c),
    decreases messages.len(),
{
    if messages.len() > 0 {
        telling_touches_one_connection(gateway, c, messages.drop_last(), h);
        let before = gateway.updates_sent(c, messages.drop_last(), h);
        sending_touches_one_connection(before, c, messages.last(), h);
    }
}

/// A stale session is sent nothing but stale notifications, errors and the
/// reason it is disconnected: any other message is dropped and counted.
pub proof fn stale_sessions_are_withheld(
    gateway: GatewayView,
    c: ConnectionId,
    message: ServerMessageView,
    h: Seq<Exchange>,
)
    requires
        gateway.connections.contains_key(c.0),
        gateway.connections[c.0].stale,
        !passes_stale(message),
    ensures
        gateway.sent(c, message, h).1 == Ok::<bool, NetworkErrorView>(false),
        gateway.sent(c, message, h).0.counters == (NetworkCounters {
            messages_dropped: counted(gateway.counters.messages_dropped),
            ..gateway.counters
        }),
        gateway.sent(c, message, h).0.connections.contains_key(c.0),
        gateway.sent(c, message, h).0.connections[c.0].stale,
{
    reveal(GatewayView::sent);
}

/// A session stays stale, once marked, through every message sent to it, for
/// as long as it is connected.
pub proof fn staleness_lasts(
    gateway: GatewayView,
    c: ConnectionId,
    message: ServerMessageView,
    h: Seq<Exchange>,
)
    requires
        gateway.connections.contains_key(c.0),
        gateway.connections[c.0].stale,
    ensures
        ({
            let after = gateway.sent(c, message, h).0;
            after.connections.contains_key(c.0) ==> after.connections[c.0].stale
        }),
{
    reveal(GatewayView::sent);
    reveal(GatewayView::disconnected);
}

// -------------------------------------------------------------- connections

/// A dropped connection leaves nothing behind: it is not registered, closing
/// was the last contact with its transport, no call of it waits, and each of
/// its subscriptions is noted as ended.
pub proof fn dropped_connections_leave_nothing(
    gateway: GatewayView,
    c: ConnectionId,
    reason: Seq<char>,
)
    requires
        gateway.valid(),
        gateway.connections.contains_key(c.0),
    ensures
        ({
            let after = gateway.dropped(c, reason);
            &&& !after.connections.contains_key(c.0)
            &&& after.retired.contains_key(c.0)
            &&& after.retired[c.0] == gateway.connections[c.0].contacts.push(Contact::Closed)
            &&& forall|g: u64| #[trigger]
                after.pending.contains_key(g) ==> after.pending[g].connection != c
            &&& forall|s: u64| #[trigger]
                gateway.connections[c.0].subscriptions.contains_key(s) ==> after.ended.contains(
                    (gateway.connections[c.0].subscriptions[s], SubscriptionId(s)),
                )
            &&& after.runtime == gateway.runtime
        }),
{
    reveal(connections_valid);
    let after = gateway.dropped(c, reason);
    let subscriptions = gateway.connections[c.0].subscriptions;
    ascending_lists(subscriptions.dom());
    let ids = ascending(subscriptions.dom());
    assert forall|s: u64| #[trigger] subscriptions.contains_key(s) implies after.ended.contains(
        (subscriptions[s], SubscriptionId(s)),
    ) by {
        assert(ids.to_set().contains(s));
        let i = ids.index_of(s);
        assert(after.ended[gateway.ended.len() + i] == (subscriptions[s], SubscriptionId(s)));
    }
}

/// Two runtimes that differ at most in the subscriptions their worlds hold.
pub open spec fn same_but_for_subscriptions(a: RuntimeView, b: RuntimeView) -> bool {
    &&& b == (RuntimeView { worlds: b.worlds, ..a })
    &&& forall|w: u64| #[trigger] a.worlds.contains_key(w) <==> b.worlds.contains_key(w)
    &&& forall|w: u64| #[trigger]
        b.worlds.contains_key(w) ==> b.worlds[w] == (WorldView {
            subscriptions: b.worlds[w].subscriptions,
            ..a.worlds[w]
        })
}

proof fn settling_keeps_the_rest(
    gateway: GatewayView,
    ended: Seq<(WorldId, SubscriptionId)>,
    h: Seq<Exchange>,
)
    ensures
        gateway.all_ended(ended, h).ended == gateway.ended,
        gateway.all_ended(ended, h).connections == gateway.connections,
        gateway.all_ended(ended, h).pending == gateway.pending,
        same_but_for_subscriptions(gateway.runtime, gateway.all_ended(ended, h).runtime),
    decreases ended.len(),
{
    if ended.len() > 0 {
        settling_keeps_the_rest(gateway, ended.drop_last(), h);
        let before = gateway.all_ended(ended.drop_last(), h).runtime;
        let after = gateway.all_ended(ended, h).runtime;
        assert forall|w: u64| #[trigger]
            gateway.runtime.worlds.contains_key(w) <==> after.worlds.contains_key(w) by {
            assert(gateway.runtime.worlds.contains_key(w) <==> before.worlds.contains_key(w));
        }
        assert forall|w: u64| #[trigger] after.worlds.contains_key(w) implies after.worlds[w] == (
        WorldView {
            subscriptions: after.worlds[w].subscriptions,
            ..gateway.runtime.worlds[w]
        }) by {
            assert(gateway.runtime.worlds.contains_key(w) <==> after.worlds.contains_key(w));
            assert(before.worlds.contains_key(w));
        }
    }
}

/// Settling leaves no ended subscription untold, and touches neither the
/// connections nor the calls that wait, nor anything of the runtime but the
/// subscriptions.
pub proof fn ended_subscriptions_are_settled(gateway: GatewayView, h: Seq<Exchange>)
    ensures
        gateway.ended_settled(h).ended == Seq::<(WorldId, SubscriptionId)>::empty(),
        gateway.ended_settled(h).connections == gateway.connections,
        gateway.ended_settled(h).pending == gateway.pending,
        same_but_for_subscriptions(gateway.runtime, gateway.ended_settled(h).runtime),
{
    reveal(GatewayView::ended_settled);
    settling_keeps_the_rest(
        GatewayView { ended: Seq::empty(), ..gateway },
        gateway.ended,
        h,
    );
}

/// Connection ids are never given out twice: a new connection's id is larger
/// than every id in use, and later ones are larger still.
pub proof fn connection_ids_are_fresh(gateway: GatewayView, contacts: Seq<Contact>)
    requires
        gateway.valid(),
    ensures
        gateway.connection_registered(contacts).1 matches Ok(c) ==> {
            &&& !gateway.connections.contains_key(c.0)
            &&& forall|k: u64| #[trigger] gateway.connections.contains_key(k) ==> k < c.0
            &&& gateway.connection_registered(contacts).0.next_connection > c.0
        },
{
    reveal(connections_valid);
}

/// A handshake with another protocol version ends the connection.
pub proof fn foreign_versions_are_disconnected(
    gateway: GatewayView,
    c: ConnectionId,
    version: u16,
    h: Seq<Exchange>,
)
    requires
        version != PROTOCOL_VERSION,
    ensures
        !gateway.handshaken(c, version, h).connections.contains_key(c.0),
        gateway.handshaken(c, version, h).runtime == gateway.runtime,
{
    reveal(GatewayView::handshaken);
    reveal(GatewayView::disconnected);
    sending_touches_one_connection(
        gateway,
        c,
        ServerMessageView::Error { code: 2, message: "unsupported protocol version"@, request_id: 0 },
        h,
    );
}

/// A protocol violation ends its connection and touches nothing else.
pub proof fn violations_end_one_connection(
    gateway: GatewayView,
    c: ConnectionId,
    error: ProtocolErrorView,
    h: Seq<Exchange>,
)
    ensures
        !gateway.violated(c, error, h).connections.contains_key(c.0),
        differ_at_most_in(gateway, gateway.violated(c, error, h), c),
{
    reveal(GatewayView::violated);
    let noted = gateway.with_counters(
        NetworkCounters {
            frames_rejected: counted(gateway.counters.frames_rejected),
            protocol_errors: counted(gateway.counters.protocol_errors),
            ..gateway.counters
        },
    ).with_event(NetworkEventView::ProtocolError { connection: c });
    let message = ServerMessageView::Error {
        code: error.code(),
        message: error.text(),
        request_id: 0,
    };
    sending_touches_one_connection(noted, c, message, h);
    let answered = noted.replied(c, message, h);
    let after = gateway.violated(c, error, h);
    assert(after == answered.dropped(c, "protocol violation: "@ + error.text()));
    assert(after.connections.remove(c.0) =~= answered.connections.remove(c.0));
    assert(differ_at_most_in(gateway, noted, c));
    assert(differ_at_most_in(answered, after, c));
    differing_is_transitive(gateway, noted, answered, c);
    differing_is_transitive(gateway, answered, after, c);
}

// ----------------------------------------------------------------- identity

/// A client's claimed input source does not matter: two frames that differ
/// only in the sources of their commands have the same effect.
pub proof fn claimed_sources_do_not_matter(
    gateway: GatewayView,
    c: ConnectionId,
    a: InputFrameView,
    b: InputFrameView,
    h: Seq<Exchange>,
)
    requires
        stamped(a, 0) == stamped(b, 0),
    ensures
        gateway.input_handled(c, a, h) == gateway.input_handled(c, b, h),
{
    reveal(GatewayView::input_handled);
    assert(stamped(a, 0).commands.len() == a.commands.len());
    assert(stamped(b, 0).commands.len() == b.commands.len());
    assert forall|source: u64| #[trigger] stamped(a, source) == stamped(b, source) by {
        assert forall|i: int| 0 <= i < a.commands.len() implies #[trigger] stamped(
            a,
            source,
        ).commands[i] == stamped(b, source).commands[i] by {
            assert(stamped(a, 0).commands[i] == stamped(b, 0).commands[i]);
            assert(stamped(a, 0).commands[i].kind == a.commands[i].kind);
            assert(stamped(b, 0).commands[i].kind == b.commands[i].kind);
            assert(stamped(a, 0).commands[i].payload == a.commands[i].payload);
            assert(stamped(b, 0).commands[i].payload == b.commands[i].payload);
        }
        assert(stamped(a, source).commands =~= stamped(b, source).commands);
    }
}

/// Every input that reaches a world comes from the authenticated principal:
/// handling a frame either leaves the runtime as it was, or submits the frame
/// with the principal's id as every command's source.
pub proof fn inputs_carry_the_principal(
    gateway: GatewayView,
    c: ConnectionId,
    frame: InputFrameView,
    h: Seq<Exchange>,
)
    ensures
        ({
            let after = gateway.input_handled(c, frame, h).runtime;
            let entry = gateway.connections[c.0];
            ||| after == gateway.runtime
            ||| entry.session is Some && entry.world() is Some && after
                == gateway.runtime.input_submitted(
                entry.world()->0,
                stamped(frame, entry.session->0.principal.id),
            ).0
        }),
        forall|source: u64, i: int|
            0 <= i < frame.commands.len() ==> (#[trigger] stamped(frame, source).commands[i]).source
                == source,
{
    reveal(GatewayView::input_handled);
    reveal(GatewayView::input_refused);
    assert forall|g: GatewayView, m: ServerMessageView| #[trigger]
        g.replied(c, m, h).runtime == g.runtime by {
        sending_touches_one_connection(g, c, m, h);
    }
}

/// A caller's identity cannot be forged: whatever a client puts under the
/// reserved argument, the call that is queued carries the principal's id.
pub proof fn callers_cannot_be_forged(args: Entries, principal_id: u64)
    requires
        in_name_order(args),
    ensures
        entry_of(with_caller(args, principal_id), "__caller"@) == Some(
            ValueView::U64(principal_id),
        ),
{
    reading_a_set_entry(
        args,
        "__caller"@,
        ValueView::U64(principal_id),
        "__caller"@,
    );
}

// -------------------------------------------------------------------- reach

/// Only an attached session reaches the runtime: whatever a connection
/// without one sends, the runtime stays as it was.
#[verifier::spinoff_prover]
#[verifier::rlimit(40)]
pub proof fn only_attached_sessions_reach_the_runtime(
    gateway: GatewayView,
    c: ConnectionId,
    message: ClientMessageView,
    now: u64,
    h: Seq<Exchange>,
)
    requires
        gateway.valid(),
        gateway.connections.contains_key(c.0),
        gateway.connections[c.0].world() is None,
    ensures
        gateway.dispatched(c, message, now, h).runtime == gateway.runtime,
{
    reveal(connections_valid);
    reveal(GatewayView::dispatched);
    assert forall|g: GatewayView, m: ServerMessageView| #[trigger]
        g.replied(c, m, h).runtime == g.runtime by {
        sending_touches_one_connection(g, c, m, h);
    }
    match message {
        ClientMessageView::Handshake { version, .. } => {
            reveal(GatewayView::handshaken);
            reveal(GatewayView::disconnected);
        },
        ClientMessageView::Authenticate { .. } => {
            reveal(GatewayView::authenticated);
            reveal(GatewayView::identified);
        },
        ClientMessageView::AttachWorld { .. } => {
            reveal(GatewayView::attached);
            reveal(GatewayView::attach_confirmed);
            reveal(GatewayView::attach_refused);
        },
        ClientMessageView::InputFrame { .. } => {
            reveal(GatewayView::input_handled);
            reveal(GatewayView::input_refused);
        },
        ClientMessageView::Subscribe { .. } => {
            reveal(GatewayView::subscribe_handled);
            reveal(GatewayView::subscribe_admitted);
        },
        ClientMessageView::Unsubscribe { .. } => {
            reveal(GatewayView::unsubscribe_handled);
        },
        ClientMessageView::Resync { subscription } => {
            reveal(GatewayView::resync_handled);
            reveal(GatewayView::resync_admitted);
            assert(!gateway.connections[c.0].subscriptions.contains_key(subscription.0));
        },
        ClientMessageView::DetachWorld => {
            reveal(GatewayView::detached);
            assert forall|g: GatewayView, ids: Seq<u64>, reason: Seq<char>| #[trigger]
                g.calls_failed(c, ids, reason, h).runtime == g.runtime by {
                failing_shrinks(g, c, ids, reason, h);
            }
        },
        ClientMessageView::CallReducer { .. } => {
            reveal(GatewayView::call_handled);
            reveal(GatewayView::call_admitted);
            reveal(GatewayView::call_refused);
        },
        ClientMessageView::Ping { .. } => {},
    }
}

/// A session touches its own world alone: whatever an attached client sends,
/// every other world, the workers and the partitions stay as they were.
#[verifier::spinoff_prover]
#[verifier::rlimit(40)]
pub proof fn sessions_touch_their_own_world(
    gateway: GatewayView,
    c: ConnectionId,
    message: ClientMessageView,
    now: u64,
    h: Seq<Exchange>,
)
    requires
        gateway.valid(),
        gateway.connections.contains_key(c.0),
        gateway.connections[c.0].world() is Some,
    ensures
        ({
            let world = gateway.connections[c.0].world()->0;
            let before = gateway.runtime;
            let after = gateway.dispatched(c, message, now, h).runtime;
            &&& after.worlds.remove(world.0) == before.worlds.remove(world.0)
            &&& after.worlds.dom() == before.worlds.dom()
            &&& after.workers == before.workers
            &&& after.partitions == before.partitions
            &&& after.state == before.state
        }),
{
    reveal(connections_valid);
    reveal(GatewayView::dispatched);
    let world = gateway.connections[c.0].world()->0;
    let before = gateway.runtime;
    let after = gateway.dispatched(c, message, now, h).runtime;
    assert forall|g: GatewayView, m: ServerMessageView| #[trigger]
        g.replied(c, m, h).runtime == g.runtime by {
        sending_touches_one_connection(g, c, m, h);
    }
    match message {
        ClientMessageView::Handshake { version, .. } => {
            reveal(GatewayView::handshaken);
            reveal(GatewayView::disconnected);
        },
        ClientMessageView::Authenticate { .. } => {
            reveal(GatewayView::authenticated);
            reveal(GatewayView::identified);
        },
        ClientMessageView::AttachWorld { .. } => {
            reveal(GatewayView::attached);
            reveal(GatewayView::attach_confirmed);
            reveal(GatewayView::attach_refused);
        },
        ClientMessageView::InputFrame { .. } => {
            reveal(GatewayView::input_handled);
            reveal(GatewayView::input_refused);
        },
        ClientMessageView::Subscribe { .. } => {
            reveal(GatewayView::subscribe_handled);
            reveal(GatewayView::subscribe_admitted);
            reveal(GatewayView::subscribe_failed);
            assert forall|g: GatewayView, s: SubscriptionId, r: u64| #[trigger]
                g.pumped(c, world, s, r, h).runtime == g.runtime by {
                pumping_keeps_the_runtime(g, c, world, s, r, h);
            }
        },
        ClientMessageView::Unsubscribe { .. } => {
            reveal(GatewayView::unsubscribe_handled);
        },
        ClientMessageView::Resync { subscription } => {
            reveal(GatewayView::resync_handled);
            reveal(GatewayView::resync_admitted);
            reveal(GatewayView::subscribe_failed);
            let entry = gateway.connections[c.0];
            if entry.subscriptions.contains_key(subscription.0) {
                assert(entry.subscriptions[subscription.0] == world);
            }
            assert forall|g: GatewayView, s: SubscriptionId, r: u64| #[trigger]
                g.pumped(c, world, s, r, h).runtime == g.runtime by {
                pumping_keeps_the_runtime(g, c, world, s, r, h);
            }
        },
        ClientMessageView::DetachWorld => {
            reveal(GatewayView::detached);
            assert forall|g: GatewayView, ids: Seq<u64>, reason: Seq<char>| #[trigger]
                g.calls_failed(c, ids, reason, h).runtime == g.runtime by {
                failing_shrinks(g, c, ids, reason, h);
            }
        },
        ClientMessageView::CallReducer { .. } => {
            reveal(GatewayView::call_handled);
            reveal(GatewayView::call_admitted);
            reveal(GatewayView::call_refused);
            reveal(GatewayView::call_queued);
        },
        ClientMessageView::Ping { .. } => {},
    }
    assert(after.worlds.remove(world.0) =~= before.worlds.remove(world.0));
    assert(after.worlds.dom() =~= before.worlds.dom());
}

/// Pumping a subscription leaves the runtime as it was.
pub proof fn pumping_keeps_the_runtime(
    gateway: GatewayView,
    c: ConnectionId,
    world: WorldId,
    subscription: SubscriptionId,
    request_id: u64,
    h: Seq<Exchange>,
)
    ensures
        gateway.pumped(c, world, subscription, request_id, h).runtime == gateway.runtime,
{
    reveal(GatewayView::pumped);
    let answer = match gateway.next(h) {
        Exchange::Drained { answer, .. } => answer,
        _ => Ok(Seq::empty()),
    };
    if let Ok(updates) = answer {
        telling_shrinks(
            gateway.recorded(Exchange::Drained { world, subscription, answer }),
            c,
            update_messages(subscription, request_id, updates),
            h,
        );
    }
}

/// A request id from the range kept for the server never reaches the runtime
/// and never waits.
pub proof fn reserved_ids_are_refused(
    gateway: GatewayView,
    c: ConnectionId,
    request_id: u64,
    reducer: Seq<char>,
    args: Entries,
    h: Seq<Exchange>,
)
    requires
        request_id >= 0x8000_0000_0000_0000,
    ensures
        gateway.call_admitted(c, request_id, reducer, args, h).runtime == gateway.runtime,
        no_new_calls(gateway, gateway.call_admitted(c, request_id, reducer, args, h)),
{
    reveal(GatewayView::call_admitted);
    reveal(GatewayView::call_refused);
    let reply = call_failure(
        request_id,
        "request id reserved for server use"@,
    );
    sending_shrinks(gateway, c, reply, h);
    reveal(GatewayView::replied);
}

/// An operation the policy denies changes neither the runtime nor what the
/// session is attached to, and no call waits because of it.
#[verifier::spinoff_prover]
#[verifier::rlimit(40)]
pub proof fn denied_operations_change_nothing(
    gateway: GatewayView,
    c: ConnectionId,
    world: WorldId,
    frame: InputFrameView,
    request_id: u64,
    reducer: Seq<char>,
    args: Entries,
    h: Seq<Exchange>,
)
    requires
        gateway.connections.contains_key(c.0),
        gateway.next(h) matches Exchange::Authorized { allowed, .. } ==> !allowed,
    ensures
        gateway.attached(c, world, h).runtime == gateway.runtime,
        gateway.attached(c, world, h).connections.contains_key(c.0) ==> gateway.attached(
            c,
            world,
            h,
        ).connections[c.0].world() == gateway.connections[c.0].world(),
        gateway.input_handled(c, frame, h).runtime == gateway.runtime,
        gateway.call_admitted(c, request_id, reducer, args, h).runtime == gateway.runtime,
        no_new_calls(gateway, gateway.call_admitted(c, request_id, reducer, args, h)),
{
    reveal(GatewayView::attached);
    reveal(GatewayView::attach_confirmed);
    reveal(GatewayView::attach_refused);
    reveal(GatewayView::input_handled);
    reveal(GatewayView::input_refused);
    reveal(GatewayView::call_admitted);
    reveal(GatewayView::call_refused);
    assert forall|g: GatewayView, m: ServerMessageView|
        #[trigger] g.replied(c, m, h).runtime == g.runtime && no_new_calls(
            g,
            g.replied(c, m, h),
        ) && (g.connections.contains_key(c.0) && g.replied(
            c,
            m,
            h,
        ).connections.contains_key(c.0) ==> g.replied(c, m, h).connections[c.0].session
            == g.connections[c.0].session) by {
        sending_touches_one_connection(g, c, m, h);
        sending_shrinks(g, c, m, h);
        sending_keeps_the_session(g, c, m, h);
        reveal(GatewayView::replied);
    }
}

proof fn sending_keeps_the_session(
    gateway: GatewayView,
    c: ConnectionId,
    message: ServerMessageView,
    h: Seq<Exchange>,
)
    ensures
        gateway.sent(c, message, h).0.connections.contains_key(c.0) ==> {
            let entry = gateway.sent(c, message, h).0.connections[c.0];
            &&& entry.session == gateway.connections[c.0].session
            &&& entry.subscriptions == gateway.connections[c.0].subscriptions
            &&& entry.pending_ids == gateway.connections[c.0].pending_ids
        },
{
    reveal(GatewayView::sent);
    reveal(GatewayView::disconnected);
}

/// An attachment never moves: attaching leaves a session where it is
/// attached, and attaches one that is not to the world asked for or not at
/// all.
pub proof fn attachments_never_move(
    gateway: GatewayView,
    c: ConnectionId,
    world: WorldId,
    h: Seq<Exchange>,
)
    requires
        gateway.connections.contains_key(c.0),
    ensures
        gateway.attached(c, world, h).connections.contains_key(c.0) ==> {
            let before = gateway.connections[c.0].world();
            let after = gateway.attached(c, world, h).connections[c.0].world();
            after == before || before is None && after == Some(world)
        },
{
    reveal(GatewayView::attached);
    reveal(GatewayView::attach_confirmed);
    reveal(GatewayView::attach_refused);
    reveal(GatewayView::replied);
    assert forall|g: GatewayView, m: ServerMessageView|
        g.connections.contains_key(c.0) && (#[trigger] g.replied(
            c,
            m,
            h,
        )).connections.contains_key(c.0) implies g.replied(c, m, h).connections[c.0].session
        == g.connections[c.0].session by {
        sending_keeps_the_session(g, c, m, h);
    }
}

/// Detaching releases everything the session held on its world: its
/// subscriptions, its attachment and its pending calls.
pub proof fn detaching_releases_everything(gateway: GatewayView, c: ConnectionId, h: Seq<Exchange>)
    requires
        gateway.valid(),
        gateway.connections.contains_key(c.0),
        gateway.connections[c.0].world() is Some,
    ensures
        ({
            let after = gateway.detached(c, h);
            &&& after.connections.contains_key(c.0) ==> {
                &&& after.connections[c.0].world() is None
                &&& after.connections[c.0].subscriptions == Map::<u64, WorldId>::empty()
                &&& after.connections[c.0].pending_ids == Set::<u64>::empty()
            }
            &&& forall|g: u64| #[trigger]
                after.pending.contains_key(g) ==> after.pending[g].connection != c
        }),
{
    reveal(GatewayView::detached);
    reveal(GatewayView::replied);
    let noted = gateway.released(c).with_event(
        NetworkEventView::Detached { connection: c },
    );
    let ids = ascending(gateway.connections[c.0].pending_ids);
    failing_shrinks(noted, c, ids, "detached from the world before the call was answered"@, h);
    let failed = noted.calls_failed(c, ids, "detached from the world before the call was answered"@, h);
    let message = ServerMessageView::DetachResult { ok: true, error: None };
    sending_keeps_the_session(failed, c, message, h);
    sending_shrinks(failed, c, message, h);
    sending_keeps_calls(failed, c, message, h);
}

// -------------------------------------------------------------------- calls

/// Every pending call of the second gateway is one of the first.
pub open spec fn no_new_calls(a: GatewayView, b: GatewayView) -> bool {
    forall|g: u64| #[trigger]
        b.pending.contains_key(g) ==> a.pending.contains_key(g) && b.pending[g] == a.pending[g]
}

/// No pending call is new, and the runtime is as it was.
pub open spec fn shrinks(a: GatewayView, b: GatewayView) -> bool {
    b.runtime == a.runtime && no_new_calls(a, b)
}

proof fn sending_shrinks(
    gateway: GatewayView,
    c: ConnectionId,
    message: ServerMessageView,
    h: Seq<Exchange>,
)
    ensures
        shrinks(gateway, gateway.sent(c, message, h).0),
{
    sending_keeps_calls(gateway, c, message, h);
}

proof fn telling_shrinks(
    gateway: GatewayView,
    c: ConnectionId,
    messages: Seq<ServerMessageView>,
    h: Seq<Exchange>,
)
    ensures
        shrinks(gateway, gateway.updates_sent(c, messages, h)),
    decreases messages.len(),
{
    if messages.len() > 0 {
        telling_shrinks(gateway, c, messages.drop_last(), h);
        sending_shrinks(
            gateway.updates_sent(c, messages.drop_last(), h),
            c,
            messages.last(),
            h,
        );
    }
}

proof fn failing_shrinks(
    gateway: GatewayView,
    c: ConnectionId,
    ids: Seq<u64>,
    reason: Seq<char>,
    h: Seq<Exchange>,
)
    ensures
        shrinks(gateway, gateway.calls_failed(c, ids, reason, h)),
        gateway.calls_failed(c, ids, reason, h).connections.contains_key(c.0) ==> {
            let entry = gateway.calls_failed(c, ids, reason, h).connections[c.0];
            &&& gateway.connections.contains_key(c.0)
            &&& entry.session == gateway.connections[c.0].session
            &&& entry.subscriptions == gateway.connections[c.0].subscriptions
            &&& entry.pending_ids == gateway.connections[c.0].pending_ids
        },
    decreases ids.len(),
{
    if ids.len() > 0 {
        failing_shrinks(gateway, c, ids.drop_last(), reason, h);
        let before = gateway.calls_failed(c, ids.drop_last(), reason, h);
        sending_shrinks(before, c, call_failure(ids.last(), reason), h);
        sending_keeps_calls(before, c, call_failure(ids.last(), reason), h);
        sending_keeps_the_session(before, c, call_failure(ids.last(), reason), h);
    }
}

proof fn broadcasting_shrinks(
    gateway: GatewayView,
    ids: Seq<u64>,
    message: ServerMessageView,
    report: StepReport,
    h: Seq<Exchange>,
)
    ensures
        shrinks(gateway, gateway.broadcast(ids, message, report, h).0),
    decreases ids.len(),
{
    if ids.len() > 0 {
        broadcasting_shrinks(gateway, ids.drop_last(), message, report, h);
        sending_shrinks(
            gateway.broadcast(ids.drop_last(), message, report, h).0,
            ConnectionId(ids.last()),
            message,
            h,
        );
    }
}

proof fn telling_subscriptions_shrinks(
    gateway: GatewayView,
    c: ConnectionId,
    ids: Seq<u64>,
    drained: Seq<PendingUpdatesView>,
    h: Seq<Exchange>,
)
    ensures
        shrinks(gateway, gateway.subscriptions_told(c, ids, drained, h)),
    decreases ids.len(),
{
    if ids.len() > 0 {
        telling_subscriptions_shrinks(gateway, c, ids.drop_last(), drained, h);
        let before = gateway.subscriptions_told(c, ids.drop_last(), drained, h);
        let subscription = SubscriptionId(ids.last());
        if let Some(updates) = updates_for(drained, subscription) {
            telling_shrinks(
                before,
                c,
                update_messages(subscription, 0, updates),
                h,
            );
        }
    }
}

proof fn telling_connections_shrinks(
    gateway: GatewayView,
    ids: Seq<u64>,
    world: WorldId,
    drained: Seq<PendingUpdatesView>,
    h: Seq<Exchange>,
)
    ensures
        shrinks(gateway, gateway.connections_told(ids, world, drained, h)),
    decreases ids.len(),
{
    if ids.len() > 0 {
        telling_connections_shrinks(gateway, ids.drop_last(), world, drained, h);
        let before = gateway.connections_told(ids.drop_last(), world, drained, h);
        telling_subscriptions_shrinks(
            before,
            ConnectionId(ids.last()),
            ascending(before.subscriptions_on(ids.last(), world)),
            drained,
            h,
        );
    }
}

proof fn delivering_shrinks(gateway: GatewayView, world: WorldId, h: Seq<Exchange>)
    ensures
        shrinks(gateway, gateway.deltas_delivered(world, h)),
{
    reveal(GatewayView::deltas_delivered);
    let answer = match gateway.next(h) {
        Exchange::DrainedAll { answer, .. } => answer,
        _ => Ok(Seq::empty()),
    };
    if let Ok(updates) = answer {
        telling_connections_shrinks(
            gateway.recorded(Exchange::DrainedAll { world, answer }),
            ascending(gateway.connections.dom()),
            world,
            updates,
            h,
        );
    }
}

proof fn answering_shrinks(
    gateway: GatewayView,
    id: u64,
    call: PendingView,
    reply: ServerMessageView,
    h: Seq<Exchange>,
)
    ensures
        shrinks(gateway, gateway.call_answered(id, call, reply, h)),
        !gateway.call_answered(id, call, reply, h).pending.contains_key(id),
{
    reveal(GatewayView::call_answered);
    sending_shrinks(gateway.call_forgotten(id, call), call.connection, reply, h);
}

/// A result goes to the connection that made the call and to no other: every
/// other connection, with its pending calls, is left as it was.
pub proof fn results_reach_their_caller(
    gateway: GatewayView,
    id: u64,
    reply: ServerMessageView,
    h: Seq<Exchange>,
)
    requires
        gateway.pending.contains_key(id),
    ensures
        differ_at_most_in(
            gateway,
            gateway.call_answered(id, gateway.pending[id], reply, h),
            gateway.pending[id].connection,
        ),
{
    reveal(GatewayView::call_answered);
    let call = gateway.pending[id];
    let forgotten = gateway.call_forgotten(id, call);
    assert(forgotten.connections.remove(call.connection.0) =~= gateway.connections.remove(
        call.connection.0,
    ));
    sending_touches_one_connection(forgotten, call.connection, reply, h);
    let sent = forgotten.sent(call.connection, reply, h).0;
    let after = gateway.call_answered(id, call, reply, h);
    assert(differ_at_most_in(gateway, forgotten, call.connection));
    assert(differ_at_most_in(sent, after, call.connection));
    differing_is_transitive(gateway, forgotten, sent, call.connection);
    differing_is_transitive(gateway, sent, after, call.connection);
}

/// A result is delivered once: after the results of a world were routed, none
/// of their calls waits any more.
pub proof fn results_are_delivered_once(
    gateway: GatewayView,
    world: WorldId,
    results: Seq<CallResultView>,
    h: Seq<Exchange>,
)
    ensures
        gateway.results_routed(world, results, h).runtime == gateway.runtime,
        no_new_calls(gateway, gateway.results_routed(world, results, h)),
        forall|i: int, g: u64|
            #![trigger results[i], gateway.results_routed(world, results, h).pending.contains_key(g)]
            0 <= i < results.len() && results[i].request_id == g && gateway.results_routed(
                world,
                results,
                h,
            ).pending.contains_key(g) ==> gateway.pending[g].world != world,
    decreases results.len(),
{
    if results.len() > 0 {
        let earlier = results.drop_last();
        results_are_delivered_once(gateway, world, earlier, h);
        let before = gateway.results_routed(world, earlier, h);
        let id = results.last().request_id;
        if before.pending.contains_key(id) && before.pending[id].world == world {
            answering_shrinks(
                before,
                id,
                before.pending[id],
                GatewayView::call_reply(
                    before.pending[id].client_request_id,
                    results.last().outcome,
                ),
                h,
            );
        }
        let after = gateway.results_routed(world, results, h);
        assert forall|i: int, g: u64|
            #![trigger results[i], after.pending.contains_key(g)]
            0 <= i < results.len() && results[i].request_id == g && after.pending.contains_key(
                g,
            ) implies gateway.pending[g].world != world by {
            assert(before.pending.contains_key(g));
            if i < earlier.len() {
                assert(earlier[i] == results[i]);
            }
        }
    }
}

proof fn fanning_out_shrinks(
    gateway: GatewayView,
    results: Seq<(WorldId, TickResultView)>,
    h: Seq<Exchange>,
)
    ensures
        shrinks(gateway, gateway.worlds_fanned_out(results, h).0),
    decreases results.len(),
{
    if results.len() > 0 {
        reveal(GatewayView::world_fanned_out);
        fanning_out_shrinks(gateway, results.drop_last(), h);
        let (before, report) = gateway.worlds_fanned_out(results.drop_last(), h);
        let (world, result) = results.last();
        let report = StepReport { worlds: counted(report.worlds), ..report };
        let told = before.tick_told(world, result, report, h).0;
        assert(shrinks(before, told)) by {
            reveal(GatewayView::tick_told);
            broadcasting_shrinks(
                before,
                ascending(before.attached_to(world)),
                before.tick_update(world, result),
                report,
                h,
            );
        }
        delivering_shrinks(told, world, h);
        let delivered = if result.changes.len() > 0 {
            told.deltas_delivered(world, h)
        } else {
            told
        };
        results_are_delivered_once(delivered, world, result.reducer_results, h);
    }
}

proof fn abandoning_empties(
    gateway: GatewayView,
    ids: Seq<u64>,
    calls: Map<u64, PendingView>,
    h: Seq<Exchange>,
)
    ensures
        shrinks(gateway, gateway.calls_abandoned(ids, calls, h)),
        forall|i: int|
            0 <= i < ids.len() ==> !gateway.calls_abandoned(ids, calls, h).pending.contains_key(
                #[trigger] ids[i],
            ),
    decreases ids.len(),
{
    if ids.len() > 0 {
        let earlier = ids.drop_last();
        abandoning_empties(gateway, earlier, calls, h);
        let before = gateway.calls_abandoned(earlier, calls, h);
        let call = calls[ids.last()];
        answering_shrinks(
            before,
            ids.last(),
            call,
            call_failure(
                call.client_request_id,
                GatewayView::not_running_text(call.world),
            ),
            h,
        );
        assert forall|i: int| 0 <= i < ids.len() implies !gateway.calls_abandoned(
            ids,
            calls,
            h,
        ).pending.contains_key(#[trigger] ids[i]) by {
            if i < earlier.len() {
                assert(earlier[i] == ids[i]);
                assert(!before.pending.contains_key(earlier[i]));
            }
        }
    }
}

/// No caller is left waiting: after the results of a step were fanned out,
/// every call that still waits is of a world that runs, and no subscription
/// of a lost connection is left untold.
pub proof fn no_call_is_left_waiting(
    gateway: GatewayView,
    results: Seq<(WorldId, TickResultView)>,
    h: Seq<Exchange>,
)
    requires
        gateway.valid(),
    ensures
        ({
            let after = gateway.fanned_out(results, h).0;
            &&& same_but_for_subscriptions(gateway.runtime, after.runtime)
            &&& no_new_calls(gateway, after)
            &&& after.ended == Seq::<(WorldId, SubscriptionId)>::empty()
            &&& forall|g: u64| #[trigger]
                after.pending.contains_key(g) ==> after.runtime.ticks(after.pending[g].world.0)
        }),
{
    reveal(GatewayView::fanned_out);
    reveal(calls_valid);
    fanning_out_shrinks(gateway, results, h);
    let told = gateway.worlds_fanned_out(results, h).0;
    let waiting = told.unresolved();
    assert(waiting.subset_of(gateway.pending.dom()));
    vstd::set_lib::lemma_len_subset(waiting, gateway.pending.dom());
    ascending_lists(waiting);
    let ids = ascending(waiting);
    abandoning_empties(told, ids, told.pending, h);
    ended_subscriptions_are_settled(told.calls_abandoned(ids, told.pending, h), h);
    let after = gateway.fanned_out(results, h).0;
    assert forall|g: u64| #[trigger] after.pending.contains_key(g) implies after.runtime.ticks(
        after.pending[g].world.0,
    ) by {
        assert(told.pending.contains_key(g));
        if !told.runtime.ticks(told.pending[g].world.0) {
            assert(waiting.contains(g));
            assert(ids.to_set().contains(g));
            let i = ids.index_of(g);
            assert(!after.pending.contains_key(ids[i]));
        }
        let w = told.pending[g].world.0;
        assert(gateway.runtime.worlds.contains_key(w) <==> after.runtime.worlds.contains_key(w));
    }
}

proof fn forgetting_keeps_others(gateway: GatewayView, id: u64, call: PendingView)
    ensures
        ({
            let after = gateway.call_forgotten(id, call);
            &&& after.connections.dom() == gateway.connections.dom()
            &&& after.history == gateway.history
            &&& forall|g: u64| #[trigger]
                gateway.pending.contains_key(g) && g != id ==> after.pending.contains_key(g)
                    && after.pending[g] == gateway.pending[g]
        }),
{
    assert(gateway.call_forgotten(id, call).connections.dom() =~= gateway.connections.dom());
}

/// Each waiting call of a world that no longer runs is answered once: when
/// its turn comes, in ascending order of the gateway's own ids, its
/// connection, if it is still registered, is offered one failure under the
/// client's own request id. The calls of the other worlds stay, but for those
/// of connections that were lost over it.
pub proof fn stopped_worlds_answer_every_call(
    gateway: GatewayView,
    ids: Seq<u64>,
    calls: Map<u64, PendingView>,
    h: Seq<Exchange>,
)
    ensures
        ({
            let after = gateway.calls_abandoned(ids, calls, h);
            &&& extends(gateway.history, after.history)
            &&& forall|i: int|
                0 <= i < ids.len() ==> {
                    let before = gateway.calls_abandoned(#[trigger] ids.take(i), calls, h);
                    let call = calls[ids[i]];
                    before.connections.contains_key(call.connection.0) ==> before.history.len()
                        < after.history.len() && offers(
                        after.history[before.history.len() as int],
                        call.connection,
                        call_failure(
                            call.client_request_id,
                            GatewayView::not_running_text(call.world),
                        ),
                    )
                }
            &&& forall|g: u64| #[trigger]
                gateway.pending.contains_key(g) && !ids.contains(g)
                    && after.connections.contains_key(gateway.pending[g].connection.0)
                    ==> after.pending.contains_key(g) && after.pending[g] == gateway.pending[g]
            &&& after.connections.dom().subset_of(gateway.connections.dom())
        }),
    decreases ids.len(),
{
    if ids.len() > 0 {
        reveal(GatewayView::call_answered);
        let earlier = ids.drop_last();
        let id = ids.last();
        stopped_worlds_answer_every_call(gateway, earlier, calls, h);
        let before = gateway.calls_abandoned(earlier, calls, h);
        let after = gateway.calls_abandoned(ids, calls, h);
        let call = calls[id];
        let reply = call_failure(
            call.client_request_id,
            GatewayView::not_running_text(call.world),
        );
        let forgotten = before.call_forgotten(id, call);
        forgetting_keeps_others(before, id, call);
        sending_keeps_calls(forgotten, call.connection, reply, h);
        sending_extends(forgotten, call.connection, reply, h);
        if before.connections.contains_key(call.connection.0) {
            what_is_sent_is_offered(forgotten, call.connection, reply, h);
        }
        assert forall|i: int| 0 <= i < ids.len() implies {
            let before = gateway.calls_abandoned(#[trigger] ids.take(i), calls, h);
            let call = calls[ids[i]];
            before.connections.contains_key(call.connection.0) ==> before.history.len()
                < after.history.len() && offers(
                after.history[before.history.len() as int],
                call.connection,
                call_failure(
                    call.client_request_id,
                    GatewayView::not_running_text(call.world),
                ),
            )
        } by {
            if i < earlier.len() {
                assert(ids.take(i) =~= earlier.take(i));
                assert(earlier[i] == ids[i]);
            } else {
                assert(ids.take(i) =~= earlier);
            }
        }
        assert forall|g: u64| #[trigger]
            gateway.pending.contains_key(g) && !ids.contains(g)
                && after.connections.contains_key(
                gateway.pending[g].connection.0,
            ) implies after.pending.contains_key(g) && after.pending[g] == gateway.pending[g] by {
            assert(ids[ids.len() - 1] == id);
            if earlier.contains(g) {
                let k = earlier.index_of(g);
                assert(ids[k] == g);
            }
            assert(before.pending.contains_key(g));
            assert(forgotten.pending.contains_key(g));
        }
    }
}

proof fn sending_extends(
    gateway: GatewayView,
    c: ConnectionId,
    message: ServerMessageView,
    h: Seq<Exchange>,
)
    ensures
        extends(gateway.history, gateway.sent(c, message, h).0.history),
{
    reveal(GatewayView::sent);
    reveal(GatewayView::disconnected);
}

// ------------------------------------------------------------------ reports

proof fn advancing_adds_up(total: u64, a: u64, b: u64, c: u64)
    ensures
        advanced(advanced(total, a, b), b, c) == advanced(total, a, c),
        advanced(total, a, a) == total,
        advanced(counted(total), a, a) == counted(total),
        advanced(total, a, counted(b)) == counted(advanced(total, a, b)),
{
    let m = 0x1_0000_0000_0000_0000int;
    assert(((total + b - a) % m + c - b) % m == (total + c - a) % m) by (nonlinear_arith)
        requires
            m == 0x1_0000_0000_0000_0000int,
    {
        vstd::arithmetic::div_mod::lemma_add_mod_noop_right(c - b, total + b - a, m);
    }
    assert((total + (b + 1) % m - a) % m == ((total + b - a) % m + 1) % m) by (nonlinear_arith)
        requires
            m == 0x1_0000_0000_0000_0000int,
    {
        vstd::arithmetic::div_mod::lemma_add_mod_noop_right(total - a, b + 1, m);
        vstd::arithmetic::div_mod::lemma_add_mod_noop_right(1, total + b - a, m);
    }
}

/// Two gateways agree on what a fan-out counts.
pub open spec fn same_tallies(a: GatewayView, b: GatewayView) -> bool {
    &&& a.counters.tick_updates_sent == b.counters.tick_updates_sent
    &&& a.counters.subscription_messages_sent == b.counters.subscription_messages_sent
}

proof fn sending_keeps_tallies(
    gateway: GatewayView,
    c: ConnectionId,
    message: ServerMessageView,
    h: Seq<Exchange>,
)
    ensures
        same_tallies(gateway, gateway.sent(c, message, h).0),
{
    reveal(GatewayView::sent);
    reveal(GatewayView::disconnected);
}

proof fn telling_keeps_tick_tally(
    gateway: GatewayView,
    c: ConnectionId,
    messages: Seq<ServerMessageView>,
    h: Seq<Exchange>,
)
    ensures
        gateway.updates_sent(c, messages, h).counters.tick_updates_sent
            == gateway.counters.tick_updates_sent,
    decreases messages.len(),
{
    if messages.len() > 0 {
        telling_keeps_tick_tally(gateway, c, messages.drop_last(), h);
        sending_keeps_tallies(
            gateway.updates_sent(c, messages.drop_last(), h),
            c,
            messages.last(),
            h,
        );
    }
}

proof fn telling_subscriptions_keeps_tick_tally(
    gateway: GatewayView,
    c: ConnectionId,
    ids: Seq<u64>,
    drained: Seq<PendingUpdatesView>,
    h: Seq<Exchange>,
)
    ensures
        gateway.subscriptions_told(c, ids, drained, h).counters.tick_updates_sent
            == gateway.counters.tick_updates_sent,
    decreases ids.len(),
{
    if ids.len() > 0 {
        telling_subscriptions_keeps_tick_tally(gateway, c, ids.drop_last(), drained, h);
        let before = gateway.subscriptions_told(c, ids.drop_last(), drained, h);
        let subscription = SubscriptionId(ids.last());
        if let Some(updates) = updates_for(drained, subscription) {
            telling_keeps_tick_tally(before, c, update_messages(subscription, 0, updates), h);
        }
    }
}

proof fn telling_connections_keeps_tick_tally(
    gateway: GatewayView,
    ids: Seq<u64>,
    world: WorldId,
    drained: Seq<PendingUpdatesView>,
    h: Seq<Exchange>,
)
    ensures
        gateway.connections_told(ids, world, drained, h).counters.tick_updates_sent
            == gateway.counters.tick_updates_sent,
    decreases ids.len(),
{
    if ids.len() > 0 {
        telling_connections_keeps_tick_tally(gateway, ids.drop_last(), world, drained, h);
        let before = gateway.connections_told(ids.drop_last(), world, drained, h);
        telling_subscriptions_keeps_tick_tally(
            before,
            ConnectionId(ids.last()),
            ascending(before.subscriptions_on(ids.last(), world)),
            drained,
            h,
        );
    }
}

proof fn delivering_keeps_tick_tally(gateway: GatewayView, world: WorldId, h: Seq<Exchange>)
    ensures
        gateway.deltas_delivered(world, h).counters.tick_updates_sent
            == gateway.counters.tick_updates_sent,
{
    reveal(GatewayView::deltas_delivered);
    let answer = match gateway.next(h) {
        Exchange::DrainedAll { answer, .. } => answer,
        _ => Ok(Seq::empty()),
    };
    if let Ok(updates) = answer {
        telling_connections_keeps_tick_tally(
            gateway.recorded(Exchange::DrainedAll { world, answer }),
            ascending(gateway.connections.dom()),
            world,
            updates,
            h,
        );
    }
}

proof fn broadcasting_is_tallied(
    gateway: GatewayView,
    ids: Seq<u64>,
    message: ServerMessageView,
    report: StepReport,
    h: Seq<Exchange>,
)
    ensures
        ({
            let (after, told) = gateway.broadcast(ids, message, report, h);
            &&& told.tick_updates_sent == advanced(
                report.tick_updates_sent,
                gateway.counters.tick_updates_sent,
                after.counters.tick_updates_sent,
            )
            &&& told.worlds == report.worlds
            &&& told.subscription_messages_sent == report.subscription_messages_sent
            &&& after.counters.subscription_messages_sent
                == gateway.counters.subscription_messages_sent
        }),
    decreases ids.len(),
{
    let start = gateway.counters.tick_updates_sent;
    advancing_adds_up(report.tick_updates_sent, start, start, start);
    if ids.len() > 0 {
        broadcasting_is_tallied(gateway, ids.drop_last(), message, report, h);
        let (before, _) = gateway.broadcast(ids.drop_last(), message, report, h);
        sending_keeps_tallies(before, ConnectionId(ids.last()), message, h);
        advancing_adds_up(
            report.tick_updates_sent,
            start,
            before.counters.tick_updates_sent,
            start,
        );
    }
}

proof fn routing_keeps_tallies(
    gateway: GatewayView,
    world: WorldId,
    results: Seq<CallResultView>,
    h: Seq<Exchange>,
)
    ensures
        same_tallies(gateway, gateway.results_routed(world, results, h)),
    decreases results.len(),
{
    if results.len() > 0 {
        reveal(GatewayView::call_answered);
        routing_keeps_tallies(gateway, world, results.drop_last(), h);
        let before = gateway.results_routed(world, results.drop_last(), h);
        let id = results.last().request_id;
        let call = before.pending[id];
        sending_keeps_tallies(
            before.call_forgotten(id, call),
            call.connection,
            GatewayView::call_reply(call.client_request_id, results.last().outcome),
            h,
        );
    }
}

proof fn fanning_out_a_world_is_tallied(
    gateway: GatewayView,
    world: WorldId,
    result: TickResultView,
    report: StepReport,
    h: Seq<Exchange>,
)
    ensures
        ({
            let (after, told) = gateway.world_fanned_out(world, result, report, h);
            &&& told.worlds == counted(report.worlds)
            &&& told.tick_updates_sent == advanced(
                report.tick_updates_sent,
                gateway.counters.tick_updates_sent,
                after.counters.tick_updates_sent,
            )
            &&& told.subscription_messages_sent == advanced(
                report.subscription_messages_sent,
                gateway.counters.subscription_messages_sent,
                after.counters.subscription_messages_sent,
            )
        }),
{
    reveal(GatewayView::world_fanned_out);
    let begun = StepReport { worlds: counted(report.worlds), ..report };
    let (told, counted_ticks) = gateway.tick_told(world, result, begun, h);
    let start = gateway.counters.tick_updates_sent;
    assert(counted_ticks.worlds == begun.worlds && counted_ticks.subscription_messages_sent
        == begun.subscription_messages_sent && told.counters.subscription_messages_sent
        == gateway.counters.subscription_messages_sent && counted_ticks.tick_updates_sent
        == advanced(report.tick_updates_sent, start, told.counters.tick_updates_sent)) by {
        reveal(GatewayView::tick_told);
        advancing_adds_up(report.tick_updates_sent, start, start, start);
        broadcasting_is_tallied(
            gateway,
            ascending(gateway.attached_to(world)),
            gateway.tick_update(world, result),
            begun,
            h,
        );
    }
    let delivered = if result.changes.len() > 0 {
        told.deltas_delivered(world, h)
    } else {
        told
    };
    delivering_keeps_tick_tally(told, world, h);
    routing_keeps_tallies(delivered, world, result.reducer_results, h);
}

proof fn counting_on(n: nat)
    ensures
        counted((n % 0x1_0000_0000_0000_0000) as u64) == ((n + 1) % 0x1_0000_0000_0000_0000) as u64,
{
    vstd::arithmetic::div_mod::lemma_add_mod_noop_right(1, n as int, 0x1_0000_0000_0000_0000int);
}

/// The report of a fan-out counts that fan-out: the committed ticks, and what
/// the counters of broadcasts and of subscription messages grew by in it.
pub proof fn fan_out_reports_count_the_pass(
    gateway: GatewayView,
    results: Seq<(WorldId, TickResultView)>,
    h: Seq<Exchange>,
)
    ensures
        ({
            let (after, report) = gateway.worlds_fanned_out(results, h);
            &&& report.worlds == (results.len() % 0x1_0000_0000_0000_0000) as u64
            &&& report.tick_updates_sent == advanced(
                0,
                gateway.counters.tick_updates_sent,
                after.counters.tick_updates_sent,
            )
            &&& report.subscription_messages_sent == advanced(
                0,
                gateway.counters.subscription_messages_sent,
                after.counters.subscription_messages_sent,
            )
        }),
    decreases results.len(),
{
    let ticks = gateway.counters.tick_updates_sent;
    let messages = gateway.counters.subscription_messages_sent;
    if results.len() == 0 {
        advancing_adds_up(0, ticks, ticks, ticks);
        advancing_adds_up(0, messages, messages, messages);
    } else {
        fan_out_reports_count_the_pass(gateway, results.drop_last(), h);
        let (before, earlier) = gateway.worlds_fanned_out(results.drop_last(), h);
        let (world, result) = results.last();
        fanning_out_a_world_is_tallied(before, world, result, earlier, h);
        let after = before.world_fanned_out(world, result, earlier, h).0;
        counting_on((results.len() - 1) as nat);
        advancing_adds_up(
            0,
            ticks,
            before.counters.tick_updates_sent,
            after.counters.tick_updates_sent,
        );
        advancing_adds_up(
            0,
            messages,
            before.counters.subscription_messages_sent,
            after.counters.subscription_messages_sent,
        );
    }
}

// ------------------------------------------------------------------ answers

/// The exchange that offers a message to a connection.
pub open spec fn offers(exchange: Exchange, c: ConnectionId, message: ServerMessageView) -> bool {
    exchange matches Exchange::Offered { connection, message: offered, .. } && connection == c
        && offered == message
}

/// What is sent is offered: the next thing that happens when a message is
/// sent to a registered connection is that its transport is offered it, or
/// that it is withheld because the session is stale.
pub proof fn what_is_sent_is_offered(
    gateway: GatewayView,
    c: ConnectionId,
    message: ServerMessageView,
    h: Seq<Exchange>,
)
    requires
        gateway.connections.contains_key(c.0),
    ensures
        ({
            let history = gateway.sent(c, message, h).0.history;
            &&& history.len() > gateway.history.len()
            &&& offers(history[gateway.history.len() as int], c, message)
            &&& gateway.replied(c, message, h).history == history
        }),
{
    reveal(GatewayView::sent);
    reveal(GatewayView::replied);
    reveal(GatewayView::disconnected);
}

/// A refused reducer call is answered: the caller is offered a failure that
/// carries the caller's own request id and the reason, and the call is
/// counted as rejected.
pub proof fn refused_calls_are_answered(
    gateway: GatewayView,
    c: ConnectionId,
    request_id: u64,
    reducer: Seq<char>,
    args: Entries,
    h: Seq<Exchange>,
)
    requires
        gateway.connections.contains_key(c.0),
        gateway.call_refusal(c, request_id, reducer, args) is Some,
    ensures
        ({
            let after = gateway.call_admitted(c, request_id, reducer, args, h);
            let reason = gateway.call_refusal(c, request_id, reducer, args)->0;
            &&& after.history.len() > gateway.history.len()
            &&& offers(
                after.history[gateway.history.len() as int],
                c,
                call_failure(request_id, reason),
            )
            &&& after.runtime == gateway.runtime
            &&& no_new_calls(gateway, after)
        }),
{
    reveal(GatewayView::call_admitted);
    reveal(GatewayView::call_refused);
    let reason = gateway.call_refusal(c, request_id, reducer, args)->0;
    what_is_sent_is_offered(gateway, c, call_failure(request_id, reason), h);
    sending_shrinks(gateway, c, call_failure(request_id, reason), h);
    reveal(GatewayView::replied);
}

/// A reducer call over its rate limit is answered in the same way: with a
/// failure that carries the caller's own request id, and, unless the
/// connection was lost over it, with nothing else.
pub proof fn rate_limited_calls_are_answered(
    gateway: GatewayView,
    c: ConnectionId,
    request_id: u64,
    reducer: Seq<char>,
    args: Entries,
    now: u64,
    h: Seq<Exchange>,
)
    requires
        gateway.connections.contains_key(c.0),
        !gateway.connections[c.0].rate.window(RateBucket::Reducer).allows(now),
    ensures
        ({
            let after = gateway.call_handled(c, request_id, reducer, args, now, h);
            &&& after.history.len() > gateway.history.len()
            &&& offers(
                after.history[gateway.history.len() as int],
                c,
                call_failure(request_id, "rate limit exceeded"@),
            )
            &&& after.connections.contains_key(c.0) ==> after.history.len()
                == gateway.history.len() + 1
            &&& after.runtime == gateway.runtime
            &&& no_new_calls(gateway, after)
        }),
{
    reveal(GatewayView::call_handled);
    reveal(GatewayView::call_refused);
    let limited = gateway.rate_taken(c, RateBucket::Reducer, now).0;
    let answer = call_failure(request_id, "rate limit exceeded"@);
    what_is_sent_is_offered(limited, c, answer, h);
    sending_shrinks(limited, c, answer, h);
    if limited.sent(c, answer, h).0.connections.contains_key(c.0) {
        survivors_are_sent_once(limited, c, answer, h);
    }
    reveal(GatewayView::replied);
}

/// A connection that is still registered after it was sent a message was
/// offered that message, and nothing else happened.
pub proof fn survivors_are_sent_once(
    gateway: GatewayView,
    c: ConnectionId,
    message: ServerMessageView,
    h: Seq<Exchange>,
)
    requires
        gateway.sent(c, message, h).0.connections.contains_key(c.0),
    ensures
        gateway.connections.contains_key(c.0),
        gateway.sent(c, message, h).0.history.len() == gateway.history.len() + 1,
        gateway.sent(c, message, h).0.history.drop_last() == gateway.history,
        offers(gateway.sent(c, message, h).0.history.last(), c, message),
{
    reveal(GatewayView::sent);
    reveal(GatewayView::disconnected);
    assert(gateway.sent(c, message, h).0.history.drop_last() =~= gateway.history);
}

proof fn survivors_are_told_of_every_failure(
    gateway: GatewayView,
    c: ConnectionId,
    ids: Seq<u64>,
    reason: Seq<char>,
    h: Seq<Exchange>,
)
    requires
        gateway.calls_failed(c, ids, reason, h).connections.contains_key(c.0),
    ensures
        ({
            let history = gateway.calls_failed(c, ids, reason, h).history;
            &&& history.len() == gateway.history.len() + ids.len()
            &&& forall|i: int|
                0 <= i < ids.len() ==> offers(
                    history[gateway.history.len() + i],
                    c,
                    call_failure(#[trigger] ids[i], reason),
                )
        }),
    decreases ids.len(),
{
    if ids.len() > 0 {
        let earlier = ids.drop_last();
        let before = gateway.calls_failed(c, earlier, reason, h);
        let message = call_failure(ids.last(), reason);
        let history = gateway.calls_failed(c, ids, reason, h).history;
        survivors_are_sent_once(before, c, message, h);
        survivors_are_told_of_every_failure(gateway, c, earlier, reason, h);
        assert forall|i: int| 0 <= i < ids.len() implies offers(
            history[gateway.history.len() + i],
            c,
            call_failure(#[trigger] ids[i], reason),
        ) by {
            if i < earlier.len() {
                assert(earlier[i] == ids[i]);
                assert(history.drop_last()[gateway.history.len() + i]
                    == before.history[gateway.history.len() + i]);
            }
        }
    }
}

/// Detaching answers every call that was waiting: unless the connection was
/// lost over it, it is offered, for each of its calls in ascending order of
/// its own request ids, one failure that carries that id, then that it is
/// detached, and nothing else.
pub proof fn detached_calls_are_answered(gateway: GatewayView, c: ConnectionId, h: Seq<Exchange>)
    requires
        gateway.valid(),
        gateway.connections.contains_key(c.0),
        gateway.connections[c.0].world() is Some,
        gateway.detached(c, h).connections.contains_key(c.0),
    ensures
        ({
            let ids = ascending(gateway.connections[c.0].pending_ids);
            let n = gateway.history.len();
            let history = gateway.detached(c, h).history;
            &&& ids.to_set() == gateway.connections[c.0].pending_ids
            &&& is_ascending(ids)
            &&& history.len() == n + ids.len() + 1
            &&& forall|i: int|
                0 <= i < ids.len() ==> offers(
                    history[n + i],
                    c,
                    call_failure(
                        #[trigger] ids[i],
                        "detached from the world before the call was answered"@,
                    ),
                )
            &&& offers(
                history.last(),
                c,
                (ServerMessageView::DetachResult { ok: true, error: None }),
            )
        }),
{
    reveal(GatewayView::detached);
    reveal(GatewayView::replied);
    reveal(connections_valid);
    let ids = ascending(gateway.connections[c.0].pending_ids);
    let n = gateway.history.len();
    let reason = "detached from the world before the call was answered"@;
    ascending_lists(gateway.connections[c.0].pending_ids);
    let noted = gateway.released(c).with_event(NetworkEventView::Detached { connection: c });
    let failed = noted.calls_failed(c, ids, reason, h);
    let message = ServerMessageView::DetachResult { ok: true, error: None };
    survivors_are_sent_once(failed, c, message, h);
    survivors_are_told_of_every_failure(noted, c, ids, reason, h);
    let history = gateway.detached(c, h).history;
    assert forall|i: int| 0 <= i < ids.len() implies offers(
        history[n + i],
        c,
        call_failure(#[trigger] ids[i], reason),
    ) by {
        assert(history.drop_last()[n + i] == failed.history[n + i]);
    }
}

/// A reducer call the policy denies is answered in the same way, right after
/// the policy was asked.
pub proof fn denied_calls_are_answered(
    gateway: GatewayView,
    c: ConnectionId,
    request_id: u64,
    reducer: Seq<char>,
    args: Entries,
    h: Seq<Exchange>,
)
    requires
        gateway.connections.contains_key(c.0),
        gateway.call_refusal(c, request_id, reducer, args) is None,
        gateway.next(h) matches Exchange::Authorized { allowed, .. } && !allowed,
    ensures
        ({
            let after = gateway.call_admitted(c, request_id, reducer, args, h);
            &&& after.history.len() > gateway.history.len() + 1
            &&& offers(
                after.history[gateway.history.len() as int + 1],
                c,
                call_failure(request_id, "not authorized by game policy"@),
            )
        }),
{
    reveal(GatewayView::call_admitted);
    reveal(GatewayView::call_refused);
    let entry = gateway.connections[c.0];
    let (asked, _) = gateway.authorized(
        entry.session->0.principal,
        Operation::Call { world: entry.world()->0, reducer },
        h,
    );
    let counted_denial = asked.with_counters(
        NetworkCounters {
            policy_rejections: counted(asked.counters.policy_rejections),
            ..asked.counters
        },
    );
    what_is_sent_is_offered(
        counted_denial,
        c,
        call_failure(request_id, "not authorized by game policy"@),
        h,
    );
}

/// An input before authentication is answered with code 20, one before
/// attachment with code 21, and one with too many commands with code 17.
pub proof fn refused_inputs_are_answered(
    gateway: GatewayView,
    c: ConnectionId,
    frame: InputFrameView,
    h: Seq<Exchange>,
)
    requires
        gateway.connections.contains_key(c.0),
        gateway.connections[c.0].world() is None || frame.commands.len()
            > gateway.config.max_commands_per_frame,
    ensures
        ({
            let entry = gateway.connections[c.0];
            let after = gateway.input_handled(c, frame, h);
            let answer = if entry.session is None {
                error_reply(20, "authentication required"@, 0)
            } else if entry.world() is None {
                error_reply(21, "attach to a world before submitting input"@, 0)
            } else {
                error_reply(17, "too many commands in frame"@, 0)
            };
            &&& after.history.len() > gateway.history.len()
            &&& offers(after.history[gateway.history.len() as int], c, answer)
            &&& after.runtime == gateway.runtime
        }),
{
    reveal(GatewayView::input_handled);
    reveal(GatewayView::input_refused);
    let entry = gateway.connections[c.0];
    let answer = if entry.session is None {
        error_reply(20, "authentication required"@, 0)
    } else if entry.world() is None {
        error_reply(21, "attach to a world before submitting input"@, 0)
    } else {
        error_reply(17, "too many commands in frame"@, 0)
    };
    what_is_sent_is_offered(gateway, c, answer, h);
    sending_touches_one_connection(gateway, c, answer, h);
}

/// A subscription before authentication, before attachment or over the limit
/// is answered with an error that carries the client's request id.
pub proof fn refused_subscriptions_are_answered(
    gateway: GatewayView,
    c: ConnectionId,
    request_id: u64,
    query: QueryView,
    h: Seq<Exchange>,
)
    requires
        gateway.connections.contains_key(c.0),
        gateway.connections[c.0].world() is None || gateway.connections[c.0].subscriptions.len()
            >= gateway.config.max_subscriptions_per_session,
    ensures
        ({
            let entry = gateway.connections[c.0];
            let after = gateway.subscribe_admitted(c, request_id, query, h);
            let answer = if entry.session is None {
                error_reply(20, "authentication required"@, request_id)
            } else if entry.world() is None {
                error_reply(21, "attach to a world before subscribing"@, request_id)
            } else {
                error_reply(17, "subscription limit reached"@, request_id)
            };
            &&& after.history.len() > gateway.history.len()
            &&& offers(after.history[gateway.history.len() as int], c, answer)
            &&& after.runtime == gateway.runtime
        }),
{
    reveal(GatewayView::subscribe_admitted);
    let entry = gateway.connections[c.0];
    let answer = if entry.session is None {
        error_reply(20, "authentication required"@, request_id)
    } else if entry.world() is None {
        error_reply(21, "attach to a world before subscribing"@, request_id)
    } else {
        error_reply(17, "subscription limit reached"@, request_id)
    };
    what_is_sent_is_offered(gateway, c, answer, h);
    sending_touches_one_connection(gateway, c, answer, h);
}

/// An operation over its rate limit, other than a reducer call, is answered
/// with code 19 and the request id, and goes no further.
pub proof fn rate_limits_are_answered(
    gateway: GatewayView,
    c: ConnectionId,
    bucket: RateBucket,
    request_id: u64,
    now: u64,
    h: Seq<Exchange>,
)
    requires
        gateway.connections.contains_key(c.0),
        !gateway.connections[c.0].rate.window(bucket).allows(now),
    ensures
        ({
            let (after, allowed) = gateway.rate_checked(c, bucket, request_id, now, h);
            &&& !allowed
            &&& after.history.len() > gateway.history.len()
            &&& offers(
                after.history[gateway.history.len() as int],
                c,
                error_reply(19, "rate limit exceeded"@, request_id),
            )
            &&& after.runtime == gateway.runtime
        }),
{
    let entry = gateway.connections[c.0];
    let taken = gateway.with_connection(
        c,
        ConnectionView { rate: entry.rate.taken(bucket, now), ..entry },
    ).with_counters(
        NetworkCounters {
            rate_limited: counted(gateway.counters.rate_limited),
            ..gateway.counters
        },
    );
    let answer = error_reply(19, "rate limit exceeded"@, request_id);
    what_is_sent_is_offered(taken, c, answer, h);
    sending_touches_one_connection(taken, c, answer, h);
}

/// The result of a call is offered to the connection that made it, under the
/// client's own request id, whether the reducer succeeded or failed.
pub proof fn results_carry_the_callers_id(
    gateway: GatewayView,
    id: u64,
    outcome: Result<ValueView, ErrorView>,
    h: Seq<Exchange>,
)
    requires
        gateway.valid(),
        gateway.pending.contains_key(id),
    ensures
        ({
            let call = gateway.pending[id];
            let reply = GatewayView::call_reply(call.client_request_id, outcome);
            let after = gateway.call_answered(id, call, reply, h);
            &&& after.history.len() > gateway.history.len()
            &&& offers(after.history[gateway.history.len() as int], call.connection, reply)
            &&& reply matches ServerMessageView::ReducerResult { request_id, ok, .. } && request_id
                == call.client_request_id && ok == (outcome is Ok)
            &&& !after.pending.contains_key(id)
        }),
{
    reveal(calls_valid);
    reveal(GatewayView::call_answered);
    let call = gateway.pending[id];
    let reply = GatewayView::call_reply(call.client_request_id, outcome);
    let forgotten = gateway.call_forgotten(id, call);
    assert(forgotten.connections.contains_key(call.connection.0));
    what_is_sent_is_offered(forgotten, call.connection, reply, h);
    answering_shrinks(gateway, id, call, reply, h);
}

// ----------------------------------------------------------------- shutdown

proof fn disconnecting_empties(
    gateway: GatewayView,
    ids: Seq<u64>,
    reason: Seq<char>,
    h: Seq<Exchange>,
)
    ensures
        forall|c: u64| #[trigger]
            gateway.all_disconnected(ids, reason, h).connections.contains_key(c)
                ==> gateway.connections.contains_key(c) && !ids.contains(c),
        gateway.all_disconnected(ids, reason, h).runtime == gateway.runtime,
    decreases ids.len(),
{
    if ids.len() > 0 {
        reveal(GatewayView::disconnected);
        let earlier = ids.drop_last();
        disconnecting_empties(gateway, earlier, reason, h);
        let after = gateway.all_disconnected(ids, reason, h);
        assert forall|c: u64| #[trigger] after.connections.contains_key(
            c,
        ) implies gateway.connections.contains_key(c) && !ids.contains(c) by {
            assert(gateway.all_disconnected(earlier, reason, h).connections.contains_key(c));
            if ids.contains(c) {
                let i = ids.index_of(c);
                if i < earlier.len() {
                    assert(earlier[i] == c);
                }
            }
        }
    }
}

/// Disconnecting every registered connection leaves none, whatever the
/// transports answer.
pub proof fn shutdown_disconnects_everyone(
    gateway: GatewayView,
    reason: Seq<char>,
    h: Seq<Exchange>,
)
    requires
        gateway.valid(),
    ensures
        gateway.all_disconnected(
            ascending(gateway.connections.dom()),
            reason,
            h,
        ).connections.dom() == Set::<u64>::empty(),
{
    reveal(connections_valid);
    let ids = ascending(gateway.connections.dom());
    ascending_lists(gateway.connections.dom());
    disconnecting_empties(gateway, ids, reason, h);
    let after = gateway.all_disconnected(ids, reason, h);
    assert forall|c: u64| !after.connections.dom().contains(c) by {
        if after.connections.contains_key(c) {
            assert(ids.to_set().contains(c));
        }
    }
    assert(after.connections.dom() =~= Set::empty());
}

} // verus!
