//! Laws of the gateway, stated over its model.

use vstd::prelude::*;

use crate::base::ids::{ConnectionId, SubscriptionId, WorldId};
use crate::base::input::InputFrameView;
use crate::base::query::QueryView;
use crate::base::table::{ascending, ascending_lists};
use crate::network::frame::PROTOCOL_VERSION;
use crate::network::gateway_model::{
    call_failure, calls_valid, connections_valid, error_reply, update_messages, ConnectionView,
    GatewayView, ProcessReport,
};
use crate::network::gateway_fanout::keeps_calls;
use crate::network::host::{extends, Exchange};
use crate::network::metrics::NetworkCounters;
use crate::network::protocol::{client_decoded, ClientMessageView, ServerMessageView};
use crate::network::rate::RateBucket;
use crate::network::session::SessionView;
use crate::network::transport::Contact;
use crate::reducer::args::Entries;
use crate::runtime::metrics::counted;

verus! {

/// A record that goes on a longer one that goes on a third goes on it.
pub proof fn extends_transitive(a: Seq<Exchange>, b: Seq<Exchange>, c: Seq<Exchange>)
    requires
        extends(a, b),
        extends(b, c),
    ensures
        extends(a, c),
{
}

/// Registering a connection keeps every invariant.
pub proof fn registering_keeps_valid(gateway: GatewayView, contacts: Seq<Contact>)
    requires
        gateway.valid(),
    ensures
        gateway.connection_registered(contacts).0.valid(),
{
    reveal(connections_valid);
    reveal(calls_valid);
    let after = gateway.connection_registered(contacts).0;
    if after != gateway {
        let c = gateway.next_connection;
        assert(!gateway.connections.contains_key(c));
        assert(after.connections.dom() =~= gateway.connections.dom().insert(c));
        assert forall|k: u64, id: u64|
            #![trigger after.connections[k].pending_ids.contains(id)]
            after.connections.contains_key(k) && after.connections[k].pending_ids.contains(
                id,
            ) implies exists|g: u64| #[trigger]
            after.pending.contains_key(g) && after.pending[g].connection.0 == k
                && after.pending[g].client_request_id == id by {
            assert(k != c);
            assert(gateway.connections[k].pending_ids.contains(id));
            let g = choose|g: u64| #[trigger]
                gateway.pending.contains_key(g) && gateway.pending[g].connection.0 == k
                    && gateway.pending[g].client_request_id == id;
            assert(after.pending.contains_key(g));
        }
    }
}

/// Dropping a connection keeps every invariant.
pub proof fn dropping_keeps_valid(gateway: GatewayView, c: ConnectionId, reason: Seq<char>)
    requires
        gateway.valid(),
    ensures
        gateway.dropped(c, reason).valid(),
{
    reveal(connections_valid);
    reveal(calls_valid);
    let after = gateway.dropped(c, reason);
    if gateway.connections.contains_key(c.0) {
        assert(after.connections.dom() =~= gateway.connections.dom().remove(c.0));
        assert(after.pending.dom().subset_of(gateway.pending.dom()));
        vstd::set_lib::lemma_len_subset(after.pending.dom(), gateway.pending.dom());
        assert forall|k: u64, id: u64|
            #![trigger after.connections[k].pending_ids.contains(id)]
            after.connections.contains_key(k) && after.connections[k].pending_ids.contains(
                id,
            ) implies exists|g: u64| #[trigger]
            after.pending.contains_key(g) && after.pending[g].connection.0 == k
                && after.pending[g].client_request_id == id by {
            assert(gateway.connections[k].pending_ids.contains(id));
            let g = choose|g: u64| #[trigger]
                gateway.pending.contains_key(g) && gateway.pending[g].connection.0 == k
                    && gateway.pending[g].client_request_id == id;
            assert(after.pending.contains_key(g));
        }
        assert forall|g: u64| #[trigger] after.pending.contains_key(g) implies {
            let call = after.pending[g];
            &&& g < after.next_gateway_request
            &&& after.connections.contains_key(call.connection.0)
            &&& after.connections[call.connection.0].world() == Some(call.world)
            &&& after.connections[call.connection.0].pending_ids.contains(call.client_request_id)
        } by {
            assert(gateway.pending.contains_key(g));
        }
    }
}

/// Two entries agree on everything the invariants speak of.
pub open spec fn alike(a: ConnectionView, b: ConnectionView) -> bool {
    a.session == b.session && a.subscriptions == b.subscriptions && a.pending_ids == b.pending_ids
}

/// Replacing an entry by one that agrees on its session, subscriptions and
/// pending calls keeps every invariant.
pub proof fn rescheduling_keeps_valid(gateway: GatewayView, c: ConnectionId, entry: ConnectionView)
    requires
        gateway.valid(),
        gateway.connections.contains_key(c.0),
        alike(gateway.connections[c.0], entry),
    ensures
        gateway.with_connection(c, entry).valid(),
{
    reveal(connections_valid);
    reveal(calls_valid);
    let after = gateway.with_connection(c, entry);
    assert(after.connections.dom() =~= gateway.connections.dom());
    assert forall|k: u64, id: u64|
        #![trigger after.connections[k].pending_ids.contains(id)]
        after.connections.contains_key(k) && after.connections[k].pending_ids.contains(
            id,
        ) implies exists|g: u64| #[trigger]
        after.pending.contains_key(g) && after.pending[g].connection.0 == k
            && after.pending[g].client_request_id == id by {
        assert(gateway.connections[k].pending_ids.contains(id));
    }
    assert forall|g: u64| #[trigger] after.pending.contains_key(g) implies {
        let call = after.pending[g];
        &&& g < after.next_gateway_request
        &&& after.connections.contains_key(call.connection.0)
        &&& after.connections[call.connection.0].world() == Some(call.world)
        &&& after.connections[call.connection.0].pending_ids.contains(call.client_request_id)
    } by {
        assert(gateway.pending.contains_key(g));
    }
}

/// Marking a session stale keeps every invariant.
pub proof fn marking_keeps_valid(gateway: GatewayView, c: ConnectionId)
    requires
        gateway.valid(),
        gateway.connections.contains_key(c.0),
    ensures
        gateway.marked_stale(c).valid(),
{
    reveal(connections_valid);
    reveal(calls_valid);
    let entry = gateway.marked_stale(c).connections[c.0];
    rescheduling_keeps_valid(gateway, c, entry);
}

proof fn no_calls_without_world(gateway: GatewayView, c: ConnectionId)
    requires
        gateway.valid(),
        gateway.connections.contains_key(c.0),
        gateway.connections[c.0].world() is None,
    ensures
        gateway.connections[c.0].pending_ids =~= Set::empty(),
        gateway.connections[c.0].subscriptions.dom() =~= Set::empty(),
        forall|g: u64| #[trigger]
            gateway.pending.contains_key(g) ==> gateway.pending[g].connection != c,
{
    reveal(connections_valid);
    reveal(calls_valid);
    let entry = gateway.connections[c.0];
    assert forall|id: u64| !entry.pending_ids.contains(id) by {
        if gateway.connections[c.0].pending_ids.contains(id) {
            let g = choose|g: u64| #[trigger]
                gateway.pending.contains_key(g) && gateway.pending[g].connection.0 == c.0
                    && gateway.pending[g].client_request_id == id;
            assert(gateway.pending.contains_key(g));
        }
    }
    assert forall|s: u64| !entry.subscriptions.dom().contains(s) by {
        if entry.subscriptions.contains_key(s) {
            assert(entry.world() == Some(entry.subscriptions[s]));
        }
    }
}

/// Replacing the session of an entry that has no world keeps every invariant.
proof fn session_change_keeps_valid(gateway: GatewayView, c: ConnectionId, session: SessionView)
    requires
        gateway.valid(),
        gateway.connections.contains_key(c.0),
        gateway.connections[c.0].world() is None,
        session.connection == c,
    ensures
        gateway.with_session(c, session).valid(),
{
    reveal(connections_valid);
    reveal(calls_valid);
    no_calls_without_world(gateway, c);
    let entry = gateway.connections[c.0];
    let after = gateway.with_connection(c, ConnectionView { session: Some(session), ..entry });
    assert(after.connections.dom() =~= gateway.connections.dom());
    assert forall|k: u64, id: u64|
        #![trigger after.connections[k].pending_ids.contains(id)]
        after.connections.contains_key(k) && after.connections[k].pending_ids.contains(
            id,
        ) implies exists|g: u64| #[trigger]
        after.pending.contains_key(g) && after.pending[g].connection.0 == k
            && after.pending[g].client_request_id == id by {
        assert(k != c.0);
        assert(gateway.connections[k].pending_ids.contains(id));
        let g = choose|g: u64| #[trigger]
            gateway.pending.contains_key(g) && gateway.pending[g].connection.0 == k
                && gateway.pending[g].client_request_id == id;
        assert(after.pending.contains_key(g));
    }
    assert forall|g: u64| #[trigger] after.pending.contains_key(g) implies {
        let call = after.pending[g];
        &&& g < after.next_gateway_request
        &&& after.connections.contains_key(call.connection.0)
        &&& after.connections[call.connection.0].world() == Some(call.world)
        &&& after.connections[call.connection.0].pending_ids.contains(call.client_request_id)
    } by {
        assert(gateway.pending.contains_key(g));
        assert(gateway.pending[g].connection != c);
    }
    assert forall|s: u64| !after.connections[c.0].subscriptions.contains_key(s) by {
        assert(!entry.subscriptions.dom().contains(s));
    }
}

/// Giving a connection its session keeps every invariant.
pub proof fn identifying_keeps_valid(gateway: GatewayView, c: ConnectionId, session: SessionView)
    requires
        gateway.valid(),
        gateway.connections.contains_key(c.0),
        gateway.connections[c.0].session is None,
        session.connection == c,
    ensures
        gateway.with_session(c, session).valid(),
        (GatewayView {
            next_session: counted(gateway.next_session),
            ..gateway.with_session(c, session)
        }).valid(),
{
    reveal(connections_valid);
    reveal(calls_valid);
    session_change_keeps_valid(gateway, c, session);
}

/// Attaching a session that has no world keeps every invariant.
pub proof fn attaching_keeps_valid(gateway: GatewayView, c: ConnectionId, world: WorldId)
    requires
        gateway.valid(),
        gateway.connections.contains_key(c.0),
        gateway.connections[c.0].session is Some,
        gateway.connections[c.0].world() is None,
    ensures
        gateway.with_session(
            c,
            (SessionView { attached_world: Some(world), ..gateway.connections[c.0].session->0 }),
        ).valid(),
{
    reveal(connections_valid);
    reveal(calls_valid);
    session_change_keeps_valid(
        gateway,
        c,
        SessionView { attached_world: Some(world), ..gateway.connections[c.0].session->0 },
    );
}

/// Replacing a connection's subscriptions by others on its world, within the
/// limit, keeps every invariant.
pub proof fn resubscribing_keeps_valid(
    gateway: GatewayView,
    c: ConnectionId,
    subscriptions: Map<u64, WorldId>,
)
    requires
        gateway.valid(),
        gateway.connections.contains_key(c.0),
        subscriptions.dom().finite(),
        subscriptions.len() <= gateway.config.max_subscriptions_per_session,
        forall|s: u64| #[trigger]
            subscriptions.contains_key(s) ==> gateway.connections[c.0].world() == Some(
                subscriptions[s],
            ),
    ensures
        gateway.with_subscriptions(c, subscriptions).valid(),
{
    reveal(connections_valid);
    reveal(calls_valid);
    let after = gateway.with_subscriptions(c, subscriptions);
    assert(after.connections.dom() =~= gateway.connections.dom());
    assert forall|k: u64, id: u64|
        #![trigger after.connections[k].pending_ids.contains(id)]
        after.connections.contains_key(k) && after.connections[k].pending_ids.contains(
            id,
        ) implies exists|g: u64| #[trigger]
        after.pending.contains_key(g) && after.pending[g].connection.0 == k
            && after.pending[g].client_request_id == id by {
        assert(gateway.connections[k].pending_ids.contains(id));
    }
    assert forall|g: u64| #[trigger] after.pending.contains_key(g) implies {
        let call = after.pending[g];
        &&& g < after.next_gateway_request
        &&& after.connections.contains_key(call.connection.0)
        &&& after.connections[call.connection.0].world() == Some(call.world)
        &&& after.connections[call.connection.0].pending_ids.contains(call.client_request_id)
    } by {
        assert(gateway.pending.contains_key(g));
    }
}

/// Detaching a session, with its subscriptions and calls, keeps every
/// invariant.
pub proof fn detaching_keeps_valid(gateway: GatewayView, c: ConnectionId)
    requires
        gateway.valid(),
        gateway.connections.contains_key(c.0),
        gateway.connections[c.0].session is Some,
    ensures
        gateway.released(c).valid(),
{
    reveal(connections_valid);
    reveal(calls_valid);
    let after = gateway.released(c);
    assert(after.connections.dom() =~= gateway.connections.dom());
    assert(after.pending.dom().subset_of(gateway.pending.dom()));
    vstd::set_lib::lemma_len_subset(after.pending.dom(), gateway.pending.dom());
    assert forall|k: u64, id: u64|
        #![trigger after.connections[k].pending_ids.contains(id)]
        after.connections.contains_key(k) && after.connections[k].pending_ids.contains(
            id,
        ) implies exists|g: u64| #[trigger]
        after.pending.contains_key(g) && after.pending[g].connection.0 == k
            && after.pending[g].client_request_id == id by {
        assert(k != c.0);
        assert(gateway.connections[k].pending_ids.contains(id));
        let g = choose|g: u64| #[trigger]
            gateway.pending.contains_key(g) && gateway.pending[g].connection.0 == k
                && gateway.pending[g].client_request_id == id;
        assert(after.pending.contains_key(g));
    }
    assert forall|g: u64| #[trigger] after.pending.contains_key(g) implies {
        let call = after.pending[g];
        &&& g < after.next_gateway_request
        &&& after.connections.contains_key(call.connection.0)
        &&& after.connections[call.connection.0].world() == Some(call.world)
        &&& after.connections[call.connection.0].pending_ids.contains(call.client_request_id)
    } by {
        assert(gateway.pending.contains_key(g));
        assert(gateway.pending[g].connection.0 != c.0);
    }
    assert forall|g1: u64, g2: u64|
        #![trigger after.pending.contains_key(g1), after.pending.contains_key(g2)]
        after.pending.contains_key(g1) && after.pending.contains_key(g2)
            && after.pending[g1].connection == after.pending[g2].connection
            && after.pending[g1].client_request_id
            == after.pending[g2].client_request_id implies g1 == g2 by {
        assert(gateway.pending.contains_key(g1) && gateway.pending.contains_key(g2));
    }
}

/// Noting a call under a fresh id of the gateway's own keeps every invariant.
pub proof fn noting_a_call_keeps_valid(gateway: GatewayView, c: ConnectionId, request_id: u64)
    requires
        gateway.valid(),
        gateway.connections.contains_key(c.0),
        gateway.connections[c.0].world() is Some,
        gateway.connections[c.0].pending_ids.len()
            < gateway.config.max_pending_calls_per_connection,
        !gateway.connections[c.0].pending_ids.contains(request_id),
        gateway.next_gateway_request < u64::MAX,
    ensures
        gateway.call_noted(c, request_id).valid(),
{
    reveal(connections_valid);
    reveal(calls_valid);
    let after = gateway.call_noted(c, request_id);
    let fresh = gateway.next_gateway_request;
    assert(!gateway.pending.contains_key(fresh));
    assert(after.connections.dom() =~= gateway.connections.dom());
    assert(after.pending.dom() =~= gateway.pending.dom().insert(fresh));
    assert forall|k: u64, id: u64|
        #![trigger after.connections[k].pending_ids.contains(id)]
        after.connections.contains_key(k) && after.connections[k].pending_ids.contains(
            id,
        ) implies exists|g: u64| #[trigger]
        after.pending.contains_key(g) && after.pending[g].connection.0 == k
            && after.pending[g].client_request_id == id by {
        if k == c.0 && id == request_id {
            assert(after.pending.contains_key(fresh));
        } else {
            assert(gateway.connections[k].pending_ids.contains(id));
            let g = choose|g: u64| #[trigger]
                gateway.pending.contains_key(g) && gateway.pending[g].connection.0 == k
                    && gateway.pending[g].client_request_id == id;
            assert(after.pending.contains_key(g));
        }
    }
    assert forall|g: u64| #[trigger] after.pending.contains_key(g) implies {
        let call = after.pending[g];
        &&& g < after.next_gateway_request
        &&& after.connections.contains_key(call.connection.0)
        &&& after.connections[call.connection.0].world() == Some(call.world)
        &&& after.connections[call.connection.0].pending_ids.contains(call.client_request_id)
    } by {
        if g != fresh {
            assert(gateway.pending.contains_key(g));
        }
    }
    assert forall|g1: u64, g2: u64|
        #![trigger after.pending.contains_key(g1), after.pending.contains_key(g2)]
        after.pending.contains_key(g1) && after.pending.contains_key(g2)
            && after.pending[g1].connection == after.pending[g2].connection
            && after.pending[g1].client_request_id
            == after.pending[g2].client_request_id implies g1 == g2 by {
        assert(g1 != fresh ==> gateway.pending.contains_key(g1));
        assert(g2 != fresh ==> gateway.pending.contains_key(g2));
    }
}

/// Forgetting a call that waits keeps every invariant.
pub proof fn forgetting_a_call_keeps_valid(gateway: GatewayView, id: u64)
    requires
        gateway.valid(),
        gateway.pending.contains_key(id),
    ensures
        gateway.call_forgotten(id, gateway.pending[id]).valid(),
{
    reveal(connections_valid);
    reveal(calls_valid);
    let after = gateway.call_forgotten(id, gateway.pending[id]);
    let c = gateway.pending[id].connection.0;
    assert(after.connections.dom() =~= gateway.connections.dom());
    assert(after.pending.dom() =~= gateway.pending.dom().remove(id));
    assert forall|k: u64, r: u64|
        #![trigger after.connections[k].pending_ids.contains(r)]
        after.connections.contains_key(k) && after.connections[k].pending_ids.contains(
            r,
        ) implies exists|g: u64| #[trigger]
        after.pending.contains_key(g) && after.pending[g].connection.0 == k
            && after.pending[g].client_request_id == r by {
        assert(gateway.connections[k].pending_ids.contains(r));
        let g = choose|g: u64| #[trigger]
            gateway.pending.contains_key(g) && gateway.pending[g].connection.0 == k
                && gateway.pending[g].client_request_id == r;
        assert(g != id);
        assert(after.pending.contains_key(g));
    }
    assert forall|g: u64| #[trigger] after.pending.contains_key(g) implies {
        let call = after.pending[g];
        &&& g < after.next_gateway_request
        &&& after.connections.contains_key(call.connection.0)
        &&& after.connections[call.connection.0].world() == Some(call.world)
        &&& after.connections[call.connection.0].pending_ids.contains(call.client_request_id)
    } by {
        assert(gateway.pending.contains_key(g));
        if gateway.pending[g].connection.0 == c {
            assert(gateway.pending[g].connection == gateway.pending[id].connection);
            assert(gateway.pending[g].client_request_id
                != gateway.pending[id].client_request_id);
        }
    }
    assert forall|g1: u64, g2: u64|
        #![trigger after.pending.contains_key(g1), after.pending.contains_key(g2)]
        after.pending.contains_key(g1) && after.pending.contains_key(g2)
            && after.pending[g1].connection == after.pending[g2].connection
            && after.pending[g1].client_request_id
            == after.pending[g2].client_request_id implies g1 == g2 by {
        assert(gateway.pending.contains_key(g1) && gateway.pending.contains_key(g2));
    }
}

/// Sending a message adds no pending call, and loses only those of a
/// connection that it drops.
pub proof fn sending_keeps_calls(
    gateway: GatewayView,
    c: ConnectionId,
    message: ServerMessageView,
    h: Seq<Exchange>,
)
    ensures
        keeps_calls(gateway, gateway.sent(c, message, h).0),
{
    reveal(GatewayView::sent);
    reveal(GatewayView::disconnected);
}

/// No connection is new.
pub open spec fn only_drops(before: GatewayView, after: GatewayView) -> bool {
    after.connections.dom().subset_of(before.connections.dom())
}

proof fn sending_only_drops(
    gateway: GatewayView,
    c: ConnectionId,
    message: ServerMessageView,
    h: Seq<Exchange>,
)
    ensures
        only_drops(gateway, gateway.sent(c, message, h).0),
        only_drops(gateway, gateway.replied(c, message, h)),
{
    reveal(GatewayView::sent);
    reveal(GatewayView::replied);
    reveal(GatewayView::disconnected);
}

proof fn disconnecting_only_drops(
    gateway: GatewayView,
    c: ConnectionId,
    reason: Seq<char>,
    h: Seq<Exchange>,
)
    ensures
        only_drops(gateway, gateway.disconnected(c, reason, h)),
{
    reveal(GatewayView::disconnected);
}

proof fn telling_only_drops(
    gateway: GatewayView,
    c: ConnectionId,
    messages: Seq<ServerMessageView>,
    h: Seq<Exchange>,
)
    ensures
        only_drops(gateway, gateway.updates_sent(c, messages, h)),
    decreases messages.len(),
{
    if messages.len() > 0 {
        telling_only_drops(gateway, c, messages.drop_last(), h);
        sending_only_drops(
            gateway.updates_sent(c, messages.drop_last(), h),
            c,
            messages.last(),
            h,
        );
    }
}

proof fn failing_only_drops(
    gateway: GatewayView,
    c: ConnectionId,
    ids: Seq<u64>,
    reason: Seq<char>,
    h: Seq<Exchange>,
)
    ensures
        only_drops(gateway, gateway.calls_failed(c, ids, reason, h)),
    decreases ids.len(),
{
    if ids.len() > 0 {
        failing_only_drops(gateway, c, ids.drop_last(), reason, h);
        sending_only_drops(
            gateway.calls_failed(c, ids.drop_last(), reason, h),
            c,
            call_failure(ids.last(), reason),
            h,
        );
    }
}

proof fn pumping_only_drops(
    gateway: GatewayView,
    c: ConnectionId,
    world: WorldId,
    subscription: SubscriptionId,
    request_id: u64,
    h: Seq<Exchange>,
)
    ensures
        only_drops(gateway, gateway.pumped(c, world, subscription, request_id, h)),
{
    reveal(GatewayView::pumped);
    if let Exchange::Drained { answer, .. } = gateway.next(h) {
        if let Ok(updates) = answer {
            telling_only_drops(
                gateway.recorded(Exchange::Drained { world, subscription, answer }),
                c,
                update_messages(subscription, request_id, updates),
                h,
            );
        }
    } else {
        telling_only_drops(
            gateway.recorded(Exchange::Drained { world, subscription, answer: Ok(Seq::empty()) }),
            c,
            update_messages(subscription, request_id, Seq::empty()),
            h,
        );
    }
}

/// Dispatching a message of a connection adds no connection.
pub proof fn dispatching_only_drops(
    gateway: GatewayView,
    c: ConnectionId,
    message: ClientMessageView,
    now: u64,
    h: Seq<Exchange>,
)
    requires
        gateway.connections.contains_key(c.0),
    ensures
        only_drops(gateway, gateway.dispatched(c, message, now, h)),
{
    reveal(GatewayView::dispatched);
    match message {
        ClientMessageView::Handshake { version, .. } => {
            handshaking_only_drops(gateway, c, version, h);
        },
        ClientMessageView::Authenticate { credentials } => {
            authenticating_only_drops(gateway, c, credentials, now, h);
        },
        ClientMessageView::AttachWorld { world } => {
            attaching_only_drops(gateway, c, world, h);
        },
        ClientMessageView::InputFrame { frame } => {
            checking_only_drops(gateway, c, RateBucket::Input, 0, now, h);
            let (s, allowed) = gateway.rate_checked(c, RateBucket::Input, 0, now, h);
            if allowed {
                input_only_drops(s, c, frame, h);
            }
        },
        ClientMessageView::Subscribe { request_id, query } => {
            subscribing_only_drops(gateway, c, request_id, query, now, h);
        },
        ClientMessageView::Unsubscribe { subscription } => {
            reveal(GatewayView::unsubscribe_handled);
            sending_only_drops(gateway, c, error_reply(22, "unknown subscription"@, 0), h);
        },
        ClientMessageView::Resync { subscription } => {
            resyncing_only_drops(gateway, c, subscription, now, h);
        },
        ClientMessageView::DetachWorld => {
            detaching_only_drops(gateway, c, h);
        },
        ClientMessageView::CallReducer { request_id, reducer, args } => {
            calling_only_drops(gateway, c, request_id, reducer, args, now, h);
        },
        ClientMessageView::Ping { nonce } => {
            sending_only_drops(gateway, c, ServerMessageView::Pong { nonce }, h);
        },
    }
}

proof fn checking_only_drops(
    gateway: GatewayView,
    c: ConnectionId,
    bucket: RateBucket,
    request_id: u64,
    now: u64,
    h: Seq<Exchange>,
)
    requires
        gateway.connections.contains_key(c.0),
    ensures
        only_drops(gateway, gateway.rate_taken(c, bucket, now).0),
        gateway.rate_taken(c, bucket, now).0.connections.contains_key(c.0),
        only_drops(gateway, gateway.rate_checked(c, bucket, request_id, now, h).0),
        gateway.rate_checked(c, bucket, request_id, now, h).1 ==> gateway.rate_checked(
            c,
            bucket,
            request_id,
            now,
            h,
        ).0.connections.contains_key(c.0),
{
    sending_only_drops(
        gateway.rate_taken(c, bucket, now).0,
        c,
        error_reply(19, "rate limit exceeded"@, request_id),
        h,
    );
}

proof fn handshaking_only_drops(
    gateway: GatewayView,
    c: ConnectionId,
    version: u16,
    h: Seq<Exchange>,
)
    ensures
        only_drops(gateway, gateway.handshaken(c, version, h)),
{
    reveal(GatewayView::handshaken);
    let refusal = error_reply(2, "unsupported protocol version"@, 0);
    sending_only_drops(gateway, c, refusal, h);
    disconnecting_only_drops(
        gateway.replied(c, refusal, h),
        c,
        "unsupported protocol version"@,
        h,
    );
    sending_only_drops(
        gateway,
        c,
        ServerMessageView::HandshakeResponse {
            version: PROTOCOL_VERSION,
            server_name: gateway.server_name,
        },
        h,
    );
}

proof fn authenticating_only_drops(
    gateway: GatewayView,
    c: ConnectionId,
    credentials: Seq<char>,
    now: u64,
    h: Seq<Exchange>,
)
    requires
        gateway.connections.contains_key(c.0),
    ensures
        only_drops(gateway, gateway.authenticated(c, credentials, now, h)),
{
    reveal(GatewayView::authenticated);
    reveal(GatewayView::identified);
    reveal(GatewayView::replied);
    checking_only_drops(gateway, c, RateBucket::Auth, 0, now, h);
    assert forall|g: GatewayView, m: ServerMessageView|
        only_drops(g, #[trigger] g.sent(c, m, h).0) by {
        sending_only_drops(g, c, m, h);
    }
}

proof fn attaching_only_drops(gateway: GatewayView, c: ConnectionId, world: WorldId, h: Seq<Exchange>)
    requires
        gateway.connections.contains_key(c.0),
    ensures
        only_drops(gateway, gateway.attached(c, world, h)),
{
    reveal(GatewayView::attached);
    reveal(GatewayView::attach_confirmed);
    reveal(GatewayView::attach_refused);
    reveal(GatewayView::replied);
    assert forall|g: GatewayView, m: ServerMessageView|
        only_drops(g, #[trigger] g.sent(c, m, h).0) by {
        sending_only_drops(g, c, m, h);
    }
}

proof fn input_only_drops(
    gateway: GatewayView,
    c: ConnectionId,
    frame: InputFrameView,
    h: Seq<Exchange>,
)
    ensures
        only_drops(gateway, gateway.input_handled(c, frame, h)),
{
    reveal(GatewayView::input_handled);
    reveal(GatewayView::input_refused);
    reveal(GatewayView::replied);
    assert forall|g: GatewayView, m: ServerMessageView|
        only_drops(g, #[trigger] g.sent(c, m, h).0) by {
        sending_only_drops(g, c, m, h);
    }
}

proof fn subscribing_only_drops(
    gateway: GatewayView,
    c: ConnectionId,
    request_id: u64,
    query: QueryView,
    now: u64,
    h: Seq<Exchange>,
)
    requires
        gateway.connections.contains_key(c.0),
    ensures
        only_drops(gateway, gateway.subscribe_handled(c, request_id, query, now, h)),
{
    reveal(GatewayView::subscribe_handled);
    reveal(GatewayView::subscribe_admitted);
    reveal(GatewayView::subscribe_failed);
    reveal(GatewayView::replied);
    checking_only_drops(gateway, c, RateBucket::Subscribe, request_id, now, h);
    assert forall|g: GatewayView, m: ServerMessageView|
        only_drops(g, #[trigger] g.sent(c, m, h).0) by {
        sending_only_drops(g, c, m, h);
    }
    assert forall|g: GatewayView, w: WorldId, s: SubscriptionId, id: u64|
        only_drops(g, #[trigger] g.pumped(c, w, s, id, h)) by {
        pumping_only_drops(g, c, w, s, id, h);
    }
}

proof fn resyncing_only_drops(
    gateway: GatewayView,
    c: ConnectionId,
    subscription: SubscriptionId,
    now: u64,
    h: Seq<Exchange>,
)
    requires
        gateway.connections.contains_key(c.0),
    ensures
        only_drops(gateway, gateway.resync_handled(c, subscription, now, h)),
{
    reveal(GatewayView::resync_handled);
    reveal(GatewayView::resync_admitted);
    reveal(GatewayView::subscribe_failed);
    reveal(GatewayView::replied);
    checking_only_drops(gateway, c, RateBucket::Resync, 0, now, h);
    assert forall|g: GatewayView, m: ServerMessageView|
        only_drops(g, #[trigger] g.sent(c, m, h).0) by {
        sending_only_drops(g, c, m, h);
    }
    assert forall|g: GatewayView, w: WorldId, s: SubscriptionId, id: u64|
        only_drops(g, #[trigger] g.pumped(c, w, s, id, h)) by {
        pumping_only_drops(g, c, w, s, id, h);
    }
}

proof fn detaching_only_drops(gateway: GatewayView, c: ConnectionId, h: Seq<Exchange>)
    requires
        gateway.connections.contains_key(c.0),
    ensures
        only_drops(gateway, gateway.detached(c, h)),
{
    reveal(GatewayView::detached);
    reveal(GatewayView::replied);
    assert forall|g: GatewayView, m: ServerMessageView|
        only_drops(g, #[trigger] g.sent(c, m, h).0) by {
        sending_only_drops(g, c, m, h);
    }
    assert forall|g: GatewayView, ids: Seq<u64>, reason: Seq<char>|
        only_drops(g, #[trigger] g.calls_failed(c, ids, reason, h)) by {
        failing_only_drops(g, c, ids, reason, h);
    }
}

proof fn calling_only_drops(
    gateway: GatewayView,
    c: ConnectionId,
    request_id: u64,
    reducer: Seq<char>,
    args: Entries,
    now: u64,
    h: Seq<Exchange>,
)
    requires
        gateway.connections.contains_key(c.0),
    ensures
        only_drops(gateway, gateway.call_handled(c, request_id, reducer, args, now, h)),
{
    reveal(GatewayView::call_handled);
    reveal(GatewayView::call_admitted);
    reveal(GatewayView::call_queued);
    reveal(GatewayView::call_refused);
    reveal(GatewayView::replied);
    checking_only_drops(gateway, c, RateBucket::Reducer, 0, now, h);
    assert forall|g: GatewayView, m: ServerMessageView|
        only_drops(g, #[trigger] g.sent(c, m, h).0) by {
        sending_only_drops(g, c, m, h);
    }
}

proof fn settling_only_drops(
    gateway: GatewayView,
    ended: Seq<(WorldId, SubscriptionId)>,
    h: Seq<Exchange>,
)
    ensures
        gateway.all_ended(ended, h).connections == gateway.connections,
    decreases ended.len(),
{
    if ended.len() > 0 {
        settling_only_drops(gateway, ended.drop_last(), h);
    }
}

proof fn taking_frames_only_drops(
    gateway: GatewayView,
    c: ConnectionId,
    report: ProcessReport,
    budget: u64,
    now: u64,
    h: Seq<Exchange>,
)
    ensures
        only_drops(gateway, gateway.frames_taken(c, report, budget, now, h).0),
    decreases budget,
{
    if budget > 0 && gateway.connections.contains_key(c.0) {
        let answer = match gateway.next(h) {
            Exchange::Received { answer, .. } => answer,
            _ => Ok(None),
        };
        let s = gateway.recorded(Exchange::Received { connection: c, answer }).contacted(
            c,
            seq![Contact::Asked { answer }],
        );
        assert(s.connections.dom() =~= gateway.connections.dom());
        if let Ok(Some(bytes)) = answer {
            let s = s.with_counters(
                NetworkCounters {
                    frames_received: counted(s.counters.frames_received),
                    ..s.counters
                },
            );
            let report = ProcessReport {
                frames_received: counted(report.frames_received),
                ..report
            };
            match client_decoded(bytes, s.config.max_frame_payload) {
                Ok(message) => {
                    let handled = s.dispatched(c, message, now, h);
                    let settled = handled.ended_settled(h);
                    dispatching_only_drops(s, c, message, now, h);
                    reveal(GatewayView::ended_settled);
                    settling_only_drops(
                        GatewayView { ended: Seq::empty(), ..handled },
                        handled.ended,
                        h,
                    );
                    taking_frames_only_drops(
                        settled,
                        c,
                        ProcessReport { dispatched: counted(report.dispatched), ..report },
                        (budget - 1) as u64,
                        now,
                        h,
                    );
                },
                Err(error) => {
                    reveal(GatewayView::violated);
                    reveal(GatewayView::replied);
                    assert forall|g: GatewayView, m: ServerMessageView|
                        only_drops(g, #[trigger] g.sent(c, m, h).0) by {
                        sending_only_drops(g, c, m, h);
                    }
                },
            }
        }
    }
}

proof fn taking_all_frames_only_drops(
    gateway: GatewayView,
    ids: Seq<u64>,
    now: u64,
    h: Seq<Exchange>,
)
    ensures
        only_drops(gateway, gateway.all_frames_taken(ids, now, h).0),
    decreases ids.len(),
{
    if ids.len() > 0 {
        taking_all_frames_only_drops(gateway, ids.drop_last(), now, h);
        let (before, report) = gateway.all_frames_taken(ids.drop_last(), now, h);
        taking_frames_only_drops(before, ConnectionId(ids.last()), report, u64::MAX, now, h);
    }
}

proof fn asking_only_drops(gateway: GatewayView, ids: Seq<u64>, h: Seq<Exchange>)
    requires
        forall|i: int| 0 <= i < ids.len() ==> gateway.connections.contains_key(#[trigger] ids[i]),
    ensures
        gateway.flush_asked(ids, h).0.connections.dom() == gateway.connections.dom(),
    decreases ids.len(),
{
    if ids.len() > 0 {
        assert forall|i: int| 0 <= i < ids.drop_last().len() implies gateway.connections.contains_key(
            #[trigger] ids.drop_last()[i],
        ) by {
            assert(ids.drop_last()[i] == ids[i]);
        }
        asking_only_drops(gateway, ids.drop_last(), h);
        assert(gateway.connections.contains_key(ids[ids.len() - 1]));
        assert(gateway.flush_asked(ids, h).0.connections.dom() =~= gateway.connections.dom());
    }
}

proof fn dropping_all_only_drops(gateway: GatewayView, ids: Seq<u64>, reason: Seq<char>)
    ensures
        only_drops(gateway, gateway.all_dropped(ids, reason)),
    decreases ids.len(),
{
    if ids.len() > 0 {
        dropping_all_only_drops(gateway, ids.drop_last(), reason);
    }
}

/// A pass over the inbound frames adds no connection: those that are gone
/// after it are those that it counts as disconnected.
pub proof fn passes_only_drop(gateway: GatewayView, now: u64, h: Seq<Exchange>)
    requires
        gateway.valid(),
    ensures
        only_drops(gateway, gateway.inbound_processed(now, h).0),
        gateway.inbound_processed(now, h).0.connections.len() + gateway.inbound_processed(
            now,
            h,
        ).1.disconnected == gateway.connections.len(),
{
    reveal(GatewayView::inbound_processed);
    reveal(GatewayView::flushed);
    reveal(GatewayView::ended_settled);
    reveal(connections_valid);
    let ids = ascending(gateway.connections.dom());
    let (taken, report) = gateway.all_frames_taken(ids, now, h);
    taking_all_frames_only_drops(gateway, ids, now, h);
    vstd::set_lib::lemma_len_subset(taken.connections.dom(), gateway.connections.dom());
    let open = ascending(taken.connections.dom());
    ascending_lists(taken.connections.dom());
    assert forall|i: int| 0 <= i < open.len() implies taken.connections.contains_key(
        #[trigger] open[i],
    ) by {
        assert(open.to_set().contains(open[i]));
    }
    asking_only_drops(taken, open, h);
    let (asked, failed) = taken.flush_asked(open, h);
    dropping_all_only_drops(asked, failed, "transport write failure"@);
    let flushed = taken.flushed(h);
    settling_only_drops(GatewayView { ended: Seq::empty(), ..flushed }, flushed.ended, h);
    let after = gateway.inbound_processed(now, h).0;
    vstd::set_lib::lemma_len_subset(after.connections.dom(), gateway.connections.dom());
}

/// Every frame received was dispatched or rejected. Counts wrap.
pub open spec fn balanced(report: ProcessReport) -> bool {
    report.frames_received == ((report.dispatched + report.rejected) % 0x1_0000_0000_0000_0000) as u64
}

proof fn counting_keeps_balance(report: ProcessReport)
    requires
        balanced(report),
    ensures
        balanced(
            (ProcessReport {
                frames_received: counted(report.frames_received),
                dispatched: counted(report.dispatched),
                ..report
            }),
        ),
        balanced(
            (ProcessReport {
                frames_received: counted(report.frames_received),
                rejected: counted(report.rejected),
                ..report
            }),
        ),
{
    let m = 0x1_0000_0000_0000_0000int;
    let d = report.dispatched as int;
    let r = report.rejected as int;
    vstd::arithmetic::div_mod::lemma_add_mod_noop_right(1, d + r, m);
    vstd::arithmetic::div_mod::lemma_add_mod_noop_right(r, d + 1, m);
    vstd::arithmetic::div_mod::lemma_add_mod_noop_right(d, r + 1, m);
}

proof fn taking_frames_keeps_balance(
    gateway: GatewayView,
    c: ConnectionId,
    report: ProcessReport,
    budget: u64,
    now: u64,
    h: Seq<Exchange>,
)
    requires
        balanced(report),
    ensures
        balanced(gateway.frames_taken(c, report, budget, now, h).1),
    decreases budget,
{
    if budget > 0 && gateway.connections.contains_key(c.0) {
        let answer = match gateway.next(h) {
            Exchange::Received { answer, .. } => answer,
            _ => Ok(None),
        };
        let s = gateway.recorded(Exchange::Received { connection: c, answer }).contacted(
            c,
            seq![Contact::Asked { answer }],
        );
        counting_keeps_balance(report);
        if let Ok(Some(bytes)) = answer {
            let s = s.with_counters(
                NetworkCounters {
                    frames_received: counted(s.counters.frames_received),
                    ..s.counters
                },
            );
            let received = ProcessReport {
                frames_received: counted(report.frames_received),
                ..report
            };
            if let Ok(message) = client_decoded(bytes, s.config.max_frame_payload) {
                taking_frames_keeps_balance(
                    s.dispatched(c, message, now, h).ended_settled(h),
                    c,
                    ProcessReport { dispatched: counted(received.dispatched), ..received },
                    (budget - 1) as u64,
                    now,
                    h,
                );
            }
        }
    }
}

proof fn taking_all_frames_keeps_balance(
    gateway: GatewayView,
    ids: Seq<u64>,
    now: u64,
    h: Seq<Exchange>,
)
    ensures
        balanced(gateway.all_frames_taken(ids, now, h).1),
    decreases ids.len(),
{
    if ids.len() > 0 {
        taking_all_frames_keeps_balance(gateway, ids.drop_last(), now, h);
        let (before, report) = gateway.all_frames_taken(ids.drop_last(), now, h);
        taking_frames_keeps_balance(before, ConnectionId(ids.last()), report, u64::MAX, now, h);
    }
}

/// The report of a pass accounts for every frame: each one received was
/// dispatched or rejected.
pub proof fn passes_account_for_every_frame(gateway: GatewayView, now: u64, h: Seq<Exchange>)
    ensures
        balanced(gateway.inbound_processed(now, h).1),
{
    reveal(GatewayView::inbound_processed);
    taking_all_frames_keeps_balance(gateway, ascending(gateway.connections.dom()), now, h);
}

} // verus!
