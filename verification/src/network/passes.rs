//! Laws of whole passes: that every connection has its turn and every
//! subscription is pumped, that one client's messages touch no other client,
//! and that what was buffered is written before a pass ends.

use vstd::prelude::*;

use crate::base::ids::{ConnectionId, SubscriptionId, WorldId};
use crate::base::message::{CallResultView, TickResultView};
use crate::base::table::{ascending, ascending_lists, is_ascending};
use crate::base::text::decimal;
use crate::network::answers::offered;
use crate::network::config::NetworkEventView;
use crate::network::delivery::{none_new, pumping_tells_what_was_drained};
use crate::network::error::{NetworkErrorView, TransportError};
use crate::network::frame::frame_bytes;
use crate::network::gateway_model::{
    call_failure, connections_valid, ended_of, update_messages, updates_for, ConnectionView,
    GatewayView, PendingView, ProcessReport, StepReport,
};
use crate::network::host::{
    extends, farewell_offered, message_offered, Attempt, Exchange, Offer, PendingUpdatesView,
};
use crate::network::laws::pumping_keeps_the_runtime;
use crate::network::metrics::NetworkCounters;
use crate::network::operations::violations_are_answered_and_end_the_connection;
use crate::network::protocol::{
    client_decoded, server_frame, server_kind, server_payload, ClientMessageView, ServerMessageView,
};
use crate::network::transport::Contact;
use crate::runtime::metrics::counted;
use crate::runtime::model::RuntimeState;
use crate::runtime::operations::one_more;

verus! {

// ---------------------------------------------------------- one connection

/// Nothing was received between two records but from one connection.
pub open spec fn heard_only(history: Seq<Exchange>, longer: Seq<Exchange>, c: ConnectionId) -> bool {
    forall|i: int|
        history.len() <= i < longer.len() ==> (#[trigger] longer[i] matches Exchange::Received {
            connection,
            ..
        } ==> connection == c)
}

/// The record goes on, with nothing received but from one connection, and no
/// other connection differs.
pub open spec fn local_to(a: GatewayView, b: GatewayView, c: ConnectionId) -> bool {
    &&& extends(a.history, b.history)
    &&& heard_only(a.history, b.history, c)
    &&& b.config == a.config
    &&& forall|d: u64|
        d != c.0 ==> (#[trigger] b.connections.contains_key(d) <==> a.connections.contains_key(d))
    &&& forall|d: u64| d != c.0 ==> #[trigger] b.connections[d] == a.connections[d]
    &&& b.connections.contains_key(c.0) ==> a.connections.contains_key(c.0)
}

proof fn sending_is_local(
    gateway: GatewayView,
    c: ConnectionId,
    message: ServerMessageView,
    h: Seq<Exchange>,
)
    ensures
        local_to(gateway, gateway.sent(c, message, h).0, c),
        local_to(gateway, gateway.replied(c, message, h), c),
{
    reveal(GatewayView::sent);
    reveal(GatewayView::replied);
    reveal(GatewayView::disconnected);
}

proof fn telling_is_local(
    gateway: GatewayView,
    c: ConnectionId,
    messages: Seq<ServerMessageView>,
    h: Seq<Exchange>,
)
    ensures
        local_to(gateway, gateway.updates_sent(c, messages, h), c),
    decreases messages.len(),
{
    if messages.len() > 0 {
        telling_is_local(gateway, c, messages.drop_last(), h);
        sending_is_local(gateway.updates_sent(c, messages.drop_last(), h), c, messages.last(), h);
    }
}

proof fn failing_is_local(
    gateway: GatewayView,
    c: ConnectionId,
    ids: Seq<u64>,
    reason: Seq<char>,
    h: Seq<Exchange>,
)
    ensures
        local_to(gateway, gateway.calls_failed(c, ids, reason, h), c),
    decreases ids.len(),
{
    if ids.len() > 0 {
        failing_is_local(gateway, c, ids.drop_last(), reason, h);
        sending_is_local(
            gateway.calls_failed(c, ids.drop_last(), reason, h),
            c,
            call_failure(ids.last(), reason),
            h,
        );
    }
}

proof fn pumping_is_local(
    gateway: GatewayView,
    c: ConnectionId,
    world: WorldId,
    subscription: SubscriptionId,
    request_id: u64,
    h: Seq<Exchange>,
)
    ensures
        local_to(gateway, gateway.pumped(c, world, subscription, request_id, h), c),
{
    reveal(GatewayView::pumped);
    assert forall|g: GatewayView, m: Seq<ServerMessageView>|
        local_to(g, #[trigger] g.updates_sent(c, m, h), c) by {
        telling_is_local(g, c, m, h);
    }
}

/// A client's message concerns that client alone: whatever it is and whatever
/// becomes of it, every other connection stays exactly as it was, with its
/// session, its subscriptions, its limits and what its transport was handed.
#[verifier::spinoff_prover]
#[verifier::rlimit(40)]
pub proof fn clients_do_not_disturb_each_other(
    gateway: GatewayView,
    c: ConnectionId,
    message: ClientMessageView,
    now: u64,
    h: Seq<Exchange>,
)
    requires
        gateway.connections.contains_key(c.0),
    ensures
        local_to(gateway, gateway.dispatched(c, message, now, h), c),
{
    reveal(GatewayView::dispatched);
    reveal(GatewayView::replied);
    assert forall|g: GatewayView, m: ServerMessageView|
        local_to(g, #[trigger] g.sent(c, m, h).0, c) by {
        sending_is_local(g, c, m, h);
    }
    match message {
        ClientMessageView::Handshake { version, .. } => {
            reveal(GatewayView::handshaken);
            reveal(GatewayView::disconnected);
        },
        ClientMessageView::Authenticate { credentials } => {
            reveal(GatewayView::authenticated);
            reveal(GatewayView::identified);
        },
        ClientMessageView::AttachWorld { world } => {
            reveal(GatewayView::attached);
            reveal(GatewayView::attach_confirmed);
            reveal(GatewayView::attach_refused);
        },
        ClientMessageView::InputFrame { frame } => {
            reveal(GatewayView::input_handled);
            reveal(GatewayView::input_refused);
        },
        ClientMessageView::Subscribe { request_id, query } => {
            assert forall|g: GatewayView, w: WorldId, s: SubscriptionId, id: u64|
                local_to(g, #[trigger] g.pumped(c, w, s, id, h), c) by {
                pumping_is_local(g, c, w, s, id, h);
            }
            reveal(GatewayView::subscribe_handled);
            reveal(GatewayView::subscribe_admitted);
            reveal(GatewayView::subscribe_failed);
        },
        ClientMessageView::Unsubscribe { subscription } => {
            reveal(GatewayView::unsubscribe_handled);
        },
        ClientMessageView::Resync { subscription } => {
            assert forall|g: GatewayView, w: WorldId, s: SubscriptionId, id: u64|
                local_to(g, #[trigger] g.pumped(c, w, s, id, h), c) by {
                pumping_is_local(g, c, w, s, id, h);
            }
            reveal(GatewayView::resync_handled);
            reveal(GatewayView::resync_admitted);
            reveal(GatewayView::subscribe_failed);
        },
        ClientMessageView::DetachWorld => {
            assert forall|g: GatewayView, ids: Seq<u64>, reason: Seq<char>|
                local_to(g, #[trigger] g.calls_failed(c, ids, reason, h), c) by {
                failing_is_local(g, c, ids, reason, h);
            }
            reveal(GatewayView::detached);
        },
        ClientMessageView::CallReducer { request_id, reducer, args } => {
            reveal(GatewayView::call_handled);
            reveal(GatewayView::call_admitted);
            reveal(GatewayView::call_queued);
            reveal(GatewayView::call_refused);
        },
        ClientMessageView::Ping { nonce } => {},
    }
}

// ------------------------------------------------------------------ flushes

/// What a transport answered to one flush, as the record has it.
pub open spec fn flush_noted(exchange: Exchange, c: u64, h: Exchange) -> bool {
    exchange matches Exchange::Flushed { connection, answer } && connection.0 == c && (
    h matches Exchange::Flushed { answer: given, .. } ==> answer == given)
}

proof fn asking_reaches_all(gateway: GatewayView, ids: Seq<u64>, h: Seq<Exchange>)
    requires
        is_ascending(ids),
        forall|i: int| 0 <= i < ids.len() ==> gateway.connections.contains_key(#[trigger] ids[i]),
    ensures
        ({
            let (after, failed) = gateway.flush_asked(ids, h);
            let n = gateway.history.len() as int;
            &&& after.history.len() == n + ids.len()
            &&& extends(gateway.history, after.history)
            &&& forall|i: int|
                0 <= i < ids.len() ==> flush_noted(
                    #[trigger] after.history[n + i],
                    ids[i],
                    h[n + i],
                )
            &&& forall|i: int|
                0 <= i < ids.len() ==> (failed.contains(#[trigger] ids[i])
                    <==> after.history[n + i]->Flushed_answer is Err)
            &&& forall|x: u64| failed.contains(x) ==> #[trigger] ids.contains(x)
            &&& forall|x: u64| #[trigger]
                after.connections.contains_key(x) <==> gateway.connections.contains_key(x)
            &&& forall|x: u64|
                !ids.contains(x) ==> #[trigger] after.connections[x] == gateway.connections[x]
            &&& forall|i: int|
                0 <= i < ids.len() ==> {
                    let c = #[trigger] ids[i];
                    after.connections[c].contacts == gateway.connections[c].contacts.push(
                        Contact::Flushed { answer: after.history[n + i]->Flushed_answer },
                    ) && after.connections[c] == (
                    ConnectionView {
                        contacts: after.connections[c].contacts,
                        ..gateway.connections[c]
                    })
                }
        }),
    decreases ids.len(),
{
    if ids.len() > 0 {
        let shorter = ids.drop_last();
        assert forall|i: int, j: int| 0 <= i < j < shorter.len() implies (#[trigger] shorter[i])
            < (#[trigger] shorter[j]) by {
            assert(ids[i] < ids[j]);
        }
        assert forall|i: int| 0 <= i < shorter.len() implies gateway.connections.contains_key(
            #[trigger] shorter[i],
        ) by {
            assert(ids[i] == shorter[i]);
        }
        asking_reaches_all(gateway, shorter, h);
        let (before, earlier) = gateway.flush_asked(shorter, h);
        let (after, failed) = gateway.flush_asked(ids, h);
        let n = gateway.history.len() as int;
        let last = ids.last();
        assert(gateway.connections.contains_key(ids[ids.len() - 1]));
        assert(!shorter.contains(last)) by {
            if shorter.contains(last) {
                let k = shorter.index_of(last);
                assert(ids[k] < ids[ids.len() - 1]);
            }
        }
        assert(!earlier.contains(last));
        assert forall|x: u64| failed.contains(x) <==> earlier.contains(x) || (x == last
            && after.history[n + shorter.len()]->Flushed_answer is Err) by {
            if earlier.contains(x) {
                let k = earlier.index_of(x);
                assert(failed[k] == x);
            }
            if after.history[n + shorter.len()]->Flushed_answer is Err {
                assert(failed[failed.len() - 1] == last);
            }
        }
        assert forall|x: u64| failed.contains(x) implies #[trigger] ids.contains(x) by {
            if earlier.contains(x) {
                assert(shorter.contains(x));
                assert(ids[shorter.index_of(x)] == x);
            } else {
                assert(ids[ids.len() - 1] == x);
            }
        }
        assert forall|i: int| 0 <= i < ids.len() implies flush_noted(
            #[trigger] after.history[n + i],
            ids[i],
            h[n + i],
        ) by {
            if i < shorter.len() {
                assert(after.history[n + i] == before.history[n + i]);
                assert(shorter[i] == ids[i]);
            }
        }
        assert forall|i: int| 0 <= i < ids.len() implies (failed.contains(#[trigger] ids[i])
            <==> after.history[n + i]->Flushed_answer is Err) by {
            if i < shorter.len() {
                assert(shorter[i] == ids[i]);
                assert(shorter.contains(shorter[i]));
                assert(after.history[n + i] == before.history[n + i]);
            }
        }
        assert forall|x: u64| !ids.contains(x) implies #[trigger] after.connections[x]
            == gateway.connections[x] by {
            if shorter.contains(x) {
                assert(ids[shorter.index_of(x)] == x);
            }
            assert(ids[ids.len() - 1] == last);
            assert(before.connections[x] == gateway.connections[x]);
        }
        assert forall|i: int| 0 <= i < ids.len() implies {
            let c = #[trigger] ids[i];
            after.connections[c].contacts == gateway.connections[c].contacts.push(
                Contact::Flushed { answer: after.history[n + i]->Flushed_answer },
            ) && after.connections[c] == (ConnectionView {
                contacts: after.connections[c].contacts,
                ..gateway.connections[c]
            })
        } by {
            if i < shorter.len() {
                assert(shorter[i] == ids[i]);
                assert(shorter.contains(shorter[i]));
                assert(after.history[n + i] == before.history[n + i]);
            } else {
                assert(before.connections[last] == gateway.connections[last]);
                assert(after.connections[last].contacts =~= gateway.connections[last].contacts.push(
                    Contact::Flushed { answer: after.history[n + i]->Flushed_answer },
                ));
            }
        }
    }
}

proof fn dropping_all_drops_those(gateway: GatewayView, ids: Seq<u64>, reason: Seq<char>)
    ensures
        ({
            let after = gateway.all_dropped(ids, reason);
            &&& after.history == gateway.history
            &&& forall|x: u64| #[trigger]
                after.connections.contains_key(x) <==> gateway.connections.contains_key(x)
                    && !ids.contains(x)
            &&& forall|x: u64|
                !ids.contains(x) ==> #[trigger] after.connections[x] == gateway.connections[x]
        }),
    decreases ids.len(),
{
    if ids.len() > 0 {
        let shorter = ids.drop_last();
        dropping_all_drops_those(gateway, shorter, reason);
        let before = gateway.all_dropped(shorter, reason);
        let after = gateway.all_dropped(ids, reason);
        assert forall|x: u64| ids.contains(x) <==> shorter.contains(x) || x == ids.last() by {
            if shorter.contains(x) {
                assert(ids[shorter.index_of(x)] == x);
            }
            if x == ids.last() {
                assert(ids[ids.len() - 1] == x);
            }
            if ids.contains(x) && x != ids.last() {
                assert(shorter[ids.index_of(x)] == x);
            }
        }
        assert forall|x: u64| !ids.contains(x) implies #[trigger] after.connections[x]
            == gateway.connections[x] by {
            assert(before.connections[x] == gateway.connections[x]);
        }
    }
}

/// A flush asks every connection once, in ascending order, to write what it
/// buffers. Those that could stay, with nothing else of theirs changed; those
/// that could not are gone.
pub proof fn flushing_reaches_everyone(gateway: GatewayView, h: Seq<Exchange>)
    requires
        gateway.connections.dom().finite(),
    ensures
        ({
            let after = gateway.flushed(h);
            let ids = ascending(gateway.connections.dom());
            let n = gateway.history.len() as int;
            &&& after.history.len() == n + gateway.connections.len()
            &&& extends(gateway.history, after.history)
            &&& forall|i: int|
                0 <= i < ids.len() ==> flush_noted(
                    #[trigger] after.history[n + i],
                    ids[i],
                    h[n + i],
                )
            &&& forall|i: int|
                0 <= i < ids.len() ==> (after.connections.contains_key(#[trigger] ids[i])
                    <==> after.history[n + i]->Flushed_answer is Ok)
            &&& forall|c: u64| #[trigger]
                after.connections.contains_key(c) ==> {
                    let entry = after.connections[c];
                    let before = gateway.connections[c];
                    &&& gateway.connections.contains_key(c)
                    &&& entry.contacts == before.contacts.push(Contact::Flushed { answer: Ok(()) })
                    &&& entry.session == before.session
                    &&& entry.subscriptions == before.subscriptions
                    &&& entry.pending_ids == before.pending_ids
                    &&& entry.stale == before.stale
                    &&& entry.pending_stale == before.pending_stale
                    &&& entry.rate == before.rate
                }
        }),
{
    reveal(GatewayView::flushed);
    let ids = ascending(gateway.connections.dom());
    ascending_lists(gateway.connections.dom());
    assert forall|i: int| 0 <= i < ids.len() implies gateway.connections.contains_key(
        #[trigger] ids[i],
    ) by {
        assert(ids.to_set().contains(ids[i]));
    }
    asking_reaches_all(gateway, ids, h);
    let (asked, failed) = gateway.flush_asked(ids, h);
    dropping_all_drops_those(asked, failed, "transport write failure"@);
    let after = gateway.flushed(h);
    let n = gateway.history.len() as int;
    assert forall|c: u64| #[trigger] after.connections.contains_key(c) implies {
        let entry = after.connections[c];
        let before = gateway.connections[c];
        &&& gateway.connections.contains_key(c)
        &&& entry.contacts == before.contacts.push(Contact::Flushed { answer: Ok(()) })
        &&& entry.session == before.session
        &&& entry.subscriptions == before.subscriptions
        &&& entry.pending_ids == before.pending_ids
        &&& entry.stale == before.stale
        &&& entry.pending_stale == before.pending_stale
        &&& entry.rate == before.rate
    } by {
        assert(asked.connections.contains_key(c) && !failed.contains(c));
        assert(ids.to_set().contains(c));
        let i = ids.index_of(c);
        assert(flush_noted(after.history[n + i], ids[i], h[n + i]));
        assert(!failed.contains(ids[i]));
        if let Ok(written) = after.history[n + i]->Flushed_answer {
            assert(written == ());
        }
        assert(after.connections[c] == asked.connections[c]);
    }
}

proof fn ends_leave_connections(
    gateway: GatewayView,
    ended: Seq<(WorldId, SubscriptionId)>,
    h: Seq<Exchange>,
)
    ensures
        ({
            let after = gateway.all_ended(ended, h);
            &&& after.connections == gateway.connections
            &&& extends(gateway.history, after.history)
            &&& forall|i: int|
                gateway.history.len() <= i < after.history.len() ==> !(#[trigger] after.history[i]
                    is Received)
            &&& after.config == gateway.config
            &&& after.ended == gateway.ended
            &&& after.counters == gateway.counters
        }),
    decreases ended.len(),
{
    if ended.len() > 0 {
        ends_leave_connections(gateway, ended.drop_last(), h);
        let before = gateway.all_ended(ended.drop_last(), h);
        let after = gateway.all_ended(ended, h);
        assert forall|i: int|
            gateway.history.len() <= i < after.history.len() implies !(#[trigger] after.history[i]
            is Received) by {
            if i < before.history.len() {
                assert(after.history[i] == before.history[i]);
            }
        }
    }
}

proof fn settling_goes_on(gateway: GatewayView, h: Seq<Exchange>)
    ensures
        ({
            let after = gateway.ended_settled(h);
            &&& after.connections == gateway.connections
            &&& extends(gateway.history, after.history)
            &&& forall|i: int|
                gateway.history.len() <= i < after.history.len() ==> !(#[trigger] after.history[i]
                    is Received)
            &&& after.config == gateway.config
            &&& after.ended.len() == 0
            &&& after.counters == gateway.counters
        }),
{
    reveal(GatewayView::ended_settled);
    ends_leave_connections(GatewayView { ended: Seq::empty(), ..gateway }, gateway.ended, h);
}

/// Nothing stays buffered behind a pass: after one over the inbound frames,
/// after a step, and after pumping the subscriptions, the last thing that every
/// connection was asked was to write what it had, and it could; and no
/// subscription that ended on the way is left for its registry to learn of.
pub proof fn passes_end_with_a_flush(
    gateway: GatewayView,
    results: Seq<(WorldId, TickResultView)>,
    now: u64,
    h: Seq<Exchange>,
)
    requires
        gateway.connections.dom().finite(),
    ensures
        all_written(gateway.inbound_processed(now, h).0),
        all_written(gateway.stepped(results, h).0),
        all_written(gateway.subscriptions_pumped(h).0),
{
    reveal(GatewayView::inbound_processed);
    reveal(GatewayView::stepped);
    reveal(GatewayView::subscriptions_pumped);
    let ids = ascending(gateway.connections.dom());
    ascending_lists(gateway.connections.dom());
    let taken = gateway.all_frames_taken(ids, now, h).0;
    turns_go_on(gateway, ids, now, h);
    flushing_writes(gateway, taken, h);
    let told = gateway.fanned_out(results, h).0;
    fanning_out_goes_on(gateway, results, h);
    flushing_writes(gateway, told, h);
    let list = gateway.subscriptions_of(ids);
    pumping_all_goes_on(gateway, list, h);
    flushing_writes(gateway, gateway.all_pumped(list, h), h);
}

proof fn flushing_writes(gateway: GatewayView, later: GatewayView, h: Seq<Exchange>)
    requires
        gateway.connections.dom().finite(),
        goes_on(gateway, later),
    ensures
        all_written(later.flushed(h).ended_settled(h)),
        goes_on(gateway, later.flushed(h).ended_settled(h)),
{
    assert(later.connections.dom().subset_of(gateway.connections.dom()));
    vstd::set_lib::lemma_len_subset(later.connections.dom(), gateway.connections.dom());
    flushing_reaches_everyone(later, h);
    settling_goes_on(later.flushed(h), h);
}

/// Every connection's last contact was a flush that went well, and no ended
/// subscription waits.
pub open spec fn all_written(gateway: GatewayView) -> bool {
    &&& gateway.ended.len() == 0
    &&& forall|c: u64| #[trigger]
        gateway.connections.contains_key(c) ==> gateway.connections[c].contacts.len() > 0
            && gateway.connections[c].contacts.last() == (Contact::Flushed { answer: Ok(()) })
}

/// No connection is new, and the record goes on.
pub open spec fn goes_on(a: GatewayView, b: GatewayView) -> bool {
    none_new(a, b) && extends(a.history, b.history)
}

proof fn broadcasting_goes_on(
    gateway: GatewayView,
    ids: Seq<u64>,
    message: ServerMessageView,
    report: StepReport,
    h: Seq<Exchange>,
)
    ensures
        goes_on(gateway, gateway.broadcast(ids, message, report, h).0),
    decreases ids.len(),
{
    if ids.len() > 0 {
        broadcasting_goes_on(gateway, ids.drop_last(), message, report, h);
        let (before, _) = gateway.broadcast(ids.drop_last(), message, report, h);
        sending_is_local(before, ConnectionId(ids.last()), message, h);
    }
}

proof fn telling_subscriptions_goes_on(
    gateway: GatewayView,
    c: ConnectionId,
    ids: Seq<u64>,
    drained: Seq<PendingUpdatesView>,
    h: Seq<Exchange>,
)
    ensures
        goes_on(gateway, gateway.subscriptions_told(c, ids, drained, h)),
    decreases ids.len(),
{
    if ids.len() > 0 {
        telling_subscriptions_goes_on(gateway, c, ids.drop_last(), drained, h);
        let before = gateway.subscriptions_told(c, ids.drop_last(), drained, h);
        let subscription = SubscriptionId(ids.last());
        if let Some(updates) = updates_for(drained, subscription) {
            telling_is_local(before, c, update_messages(subscription, 0, updates), h);
        }
    }
}

proof fn telling_connections_goes_on(
    gateway: GatewayView,
    ids: Seq<u64>,
    world: WorldId,
    drained: Seq<PendingUpdatesView>,
    h: Seq<Exchange>,
)
    ensures
        goes_on(gateway, gateway.connections_told(ids, world, drained, h)),
    decreases ids.len(),
{
    if ids.len() > 0 {
        telling_connections_goes_on(gateway, ids.drop_last(), world, drained, h);
        let before = gateway.connections_told(ids.drop_last(), world, drained, h);
        telling_subscriptions_goes_on(
            before,
            ConnectionId(ids.last()),
            ascending(before.subscriptions_on(ids.last(), world)),
            drained,
            h,
        );
    }
}

proof fn answering_goes_on(
    gateway: GatewayView,
    id: u64,
    call: PendingView,
    reply: ServerMessageView,
    h: Seq<Exchange>,
)
    ensures
        goes_on(gateway, gateway.call_answered(id, call, reply, h)),
{
    reveal(GatewayView::call_answered);
    sending_is_local(gateway.call_forgotten(id, call), call.connection, reply, h);
}

proof fn routing_goes_on(
    gateway: GatewayView,
    world: WorldId,
    results: Seq<CallResultView>,
    h: Seq<Exchange>,
)
    ensures
        goes_on(gateway, gateway.results_routed(world, results, h)),
    decreases results.len(),
{
    if results.len() > 0 {
        routing_goes_on(gateway, world, results.drop_last(), h);
        let before = gateway.results_routed(world, results.drop_last(), h);
        let id = results.last().request_id;
        answering_goes_on(
            before,
            id,
            before.pending[id],
            GatewayView::call_reply(
                before.pending[id].client_request_id,
                results.last().outcome,
            ),
            h,
        );
    }
}

proof fn telling_worlds_goes_on(
    gateway: GatewayView,
    results: Seq<(WorldId, TickResultView)>,
    h: Seq<Exchange>,
)
    ensures
        goes_on(gateway, gateway.worlds_fanned_out(results, h).0),
    decreases results.len(),
{
    if results.len() > 0 {
        telling_worlds_goes_on(gateway, results.drop_last(), h);
        let (before, report) = gateway.worlds_fanned_out(results.drop_last(), h);
        let (world, result) = results.last();
        let begun = StepReport { worlds: counted(report.worlds), ..report };
        reveal(GatewayView::world_fanned_out);
        let (told, _) = before.tick_told(world, result, begun, h);
        assert(goes_on(before, told)) by {
            reveal(GatewayView::tick_told);
            broadcasting_goes_on(
                before,
                ascending(before.attached_to(world)),
                before.tick_update(world, result),
                begun,
                h,
            );
        }
        let delivered = if result.changes.len() > 0 {
            told.deltas_delivered(world, h)
        } else {
            told
        };
        assert(goes_on(told, delivered)) by {
            reveal(GatewayView::deltas_delivered);
            assert forall|g: GatewayView, ids: Seq<u64>, drained: Seq<PendingUpdatesView>|
                goes_on(g, #[trigger] g.connections_told(ids, world, drained, h)) by {
                telling_connections_goes_on(g, ids, world, drained, h);
            }
        }
        routing_goes_on(delivered, world, result.reducer_results, h);
    }
}

proof fn abandoning_goes_on(
    gateway: GatewayView,
    ids: Seq<u64>,
    calls: Map<u64, PendingView>,
    h: Seq<Exchange>,
)
    ensures
        goes_on(gateway, gateway.calls_abandoned(ids, calls, h)),
    decreases ids.len(),
{
    if ids.len() > 0 {
        abandoning_goes_on(gateway, ids.drop_last(), calls, h);
        let call = calls[ids.last()];
        answering_goes_on(
            gateway.calls_abandoned(ids.drop_last(), calls, h),
            ids.last(),
            call,
            call_failure(
                call.client_request_id,
                GatewayView::not_running_text(call.world),
            ),
            h,
        );
    }
}

proof fn fanning_out_goes_on(
    gateway: GatewayView,
    results: Seq<(WorldId, TickResultView)>,
    h: Seq<Exchange>,
)
    ensures
        goes_on(gateway, gateway.fanned_out(results, h).0),
{
    reveal(GatewayView::fanned_out);
    telling_worlds_goes_on(gateway, results, h);
    let (after, _) = gateway.worlds_fanned_out(results, h);
    let waiting = ascending(after.unresolved());
    abandoning_goes_on(after, waiting, after.pending, h);
    settling_goes_on(after.calls_abandoned(waiting, after.pending, h), h);
}

// -------------------------------------------------------------------- turns

/// The gateway when a frame has arrived from a connection and nothing was done
/// with it yet.
pub open spec fn frame_arrived(gateway: GatewayView, c: ConnectionId, bytes: Seq<u8>) -> GatewayView {
    let entry = gateway.connections[c.0];
    GatewayView {
        history: gateway.history.push(
            Exchange::Received { connection: c, answer: Ok(Some(bytes)) },
        ),
        connections: gateway.connections.insert(
            c.0,
            ConnectionView {
                contacts: entry.contacts.push(Contact::Asked { answer: Ok(Some(bytes)) }),
                ..entry
            },
        ),
        counters: NetworkCounters {
            frames_received: one_more(gateway.counters.frames_received) as u64,
            ..gateway.counters
        },
        ..gateway
    }
}

/// What a connection answers when it is asked for a frame decides its turn. A
/// closed transport loses the connection. One with nothing to read is left
/// alone. A frame that is no valid message loses the connection, after an error
/// with the violation's code and text was sent, and is counted as rejected. Any
/// other is handled as the message it holds, and then the turn goes on.
pub proof fn frames_are_handled_as_they_come(
    gateway: GatewayView,
    c: ConnectionId,
    report: ProcessReport,
    budget: u64,
    now: u64,
    h: Seq<Exchange>,
)
    requires
        gateway.connections.contains_key(c.0),
        budget > 0,
        h[gateway.history.len() as int] is Received,
    ensures
        ({
            let (after, told) = gateway.frames_taken(c, report, budget, now, h);
            let answer = h[gateway.history.len() as int]->Received_answer;
            match answer {
                Err(_) => {
                    &&& !after.connections.contains_key(c.0)
                    &&& after.history == gateway.history.push(
                        Exchange::Received { connection: c, answer },
                    )
                    &&& after.runtime == gateway.runtime
                    &&& after.events.len() > 0
                    &&& after.events.last() == (NetworkEventView::ConnectionClosed {
                        connection: c,
                        reason: "transport closed"@,
                    })
                    &&& after.counters.clients_dropped == one_more(
                        gateway.counters.clients_dropped,
                    )
                    &&& told == report
                },
                Ok(None) => {
                    &&& after.connections.contains_key(c.0)
                    &&& after.history == gateway.history.push(
                        Exchange::Received { connection: c, answer },
                    )
                    &&& after.runtime == gateway.runtime
                    &&& after.pending == gateway.pending
                    &&& after.counters == gateway.counters
                    &&& after.events == gateway.events
                    &&& told == report
                },
                Ok(Some(bytes)) => match client_decoded(bytes, gateway.config.max_frame_payload) {
                    Err(error) => {
                        &&& !after.connections.contains_key(c.0)
                        &&& offered(after.history) == offered(gateway.history).push(
                            (
                                c,
                                ServerMessageView::Error {
                                    code: error.code(),
                                    message: error.text(),
                                    request_id: 0,
                                },
                            ),
                        )
                        &&& after.runtime == gateway.runtime
                        &&& told.frames_received == one_more(report.frames_received)
                        &&& told.rejected == one_more(report.rejected)
                        &&& told.dispatched == report.dispatched
                    },
                    Ok(message) => (after, told) == frame_arrived(gateway, c, bytes).dispatched(
                        c,
                        message,
                        now,
                        h,
                    ).ended_settled(h).frames_taken(
                        c,
                        ProcessReport {
                            frames_received: one_more(report.frames_received) as u64,
                            dispatched: one_more(report.dispatched) as u64,
                            ..report
                        },
                        (budget - 1) as u64,
                        now,
                        h,
                    ),
                },
            }
        }),
{
    let answer = h[gateway.history.len() as int]->Received_answer;
    let asked = gateway.recorded(Exchange::Received { connection: c, answer }).contacted(
        c,
        seq![Contact::Asked { answer }],
    );
    assert(gateway.connections[c.0].contacts + seq![Contact::Asked { answer }]
        =~= gateway.connections[c.0].contacts.push(Contact::Asked { answer }));
    if let Ok(Some(bytes)) = answer {
        let arrived = asked.with_counters(
            NetworkCounters {
                frames_received: counted(asked.counters.frames_received),
                ..asked.counters
            },
        );
        assert(arrived == frame_arrived(gateway, c, bytes));
        if let Err(error) = client_decoded(bytes, gateway.config.max_frame_payload) {
            violations_are_answered_and_end_the_connection(arrived, c, error, h);
            assert(arrived.history.drop_last() =~= gateway.history);
        }
    }
}

proof fn turn_goes_on(
    gateway: GatewayView,
    c: ConnectionId,
    report: ProcessReport,
    budget: u64,
    now: u64,
    h: Seq<Exchange>,
)
    ensures
        ({
            let after = gateway.frames_taken(c, report, budget, now, h).0;
            &&& local_to(gateway, after, c)
            &&& after.connections.contains_key(c.0) ==> emptied(after, c) || after.history.len()
                >= gateway.history.len() + budget
        }),
    decreases budget,
{
    if budget > 0 && gateway.connections.contains_key(c.0) {
        let answer = match gateway.next(h) {
            Exchange::Received { answer, .. } => answer,
            _ => Ok(None),
        };
        let asked = gateway.recorded(Exchange::Received { connection: c, answer }).contacted(
            c,
            seq![Contact::Asked { answer }],
        );
        let after = gateway.frames_taken(c, report, budget, now, h).0;
        assert(local_to(gateway, asked, c));
        match answer {
            Err(_) => {},
            Ok(None) => {
                assert(asked.connections[c.0].contacts.last() == (Contact::Asked { answer }));
            },
            Ok(Some(bytes)) => {
                let arrived = asked.with_counters(
                    NetworkCounters {
                        frames_received: counted(asked.counters.frames_received),
                        ..asked.counters
                    },
                );
                let received = ProcessReport {
                    frames_received: counted(report.frames_received),
                    ..report
                };
                match client_decoded(bytes, arrived.config.max_frame_payload) {
                    Ok(message) => {
                        let handled = arrived.dispatched(c, message, now, h);
                        clients_do_not_disturb_each_other(arrived, c, message, now, h);
                        settling_goes_on(handled, h);
                        let settled = handled.ended_settled(h);
                        assert(local_to(gateway, settled, c));
                        let more = ProcessReport {
                            dispatched: counted(received.dispatched),
                            ..received
                        };
                        turn_goes_on(settled, c, more, (budget - 1) as u64, now, h);
                        assert(local_to(gateway, after, c));
                    },
                    Err(error) => {
                        reveal(GatewayView::violated);
                        assert forall|g: GatewayView, m: ServerMessageView|
                            local_to(g, #[trigger] g.replied(c, m, h), c) by {
                            sending_is_local(g, c, m, h);
                        }
                    },
                }
            },
        }
    }
}

/// The last thing that a connection was asked was for a frame, and it had none.
pub open spec fn emptied(gateway: GatewayView, c: ConnectionId) -> bool {
    let contacts = gateway.connections[c.0].contacts;
    contacts.len() > 0 && contacts.last() == (Contact::Asked { answer: Ok(None) })
}

/// From some point of a record on, the connections that were asked for frames
/// come in ascending order, each of them one of the listed.
pub open spec fn in_turn(history: Seq<Exchange>, since: int, ids: Seq<u64>) -> bool {
    &&& forall|i: int|
        since <= i < history.len() && (#[trigger] history[i] is Received) ==> ids.contains(
            history[i]->Received_connection.0,
        )
    &&& forall|i: int, j: int|
        since <= i < j < history.len() && (#[trigger] history[i] is Received) && (
        #[trigger] history[j] is Received) ==> history[i]->Received_connection.0
            <= history[j]->Received_connection.0
}

proof fn turns_go_on(gateway: GatewayView, ids: Seq<u64>, now: u64, h: Seq<Exchange>)
    requires
        is_ascending(ids),
    ensures
        ({
            let after = gateway.all_frames_taken(ids, now, h).0;
            let n = gateway.history.len() as int;
            &&& goes_on(gateway, after)
            &&& after.config == gateway.config
            &&& in_turn(after.history, n, ids)
            &&& forall|i: int|
                0 <= i < ids.len() && after.connections.contains_key(#[trigger] ids[i])
                    ==> emptied(after, ConnectionId(ids[i])) || after.history.len() >= n + u64::MAX
        }),
    decreases ids.len(),
{
    if ids.len() > 0 {
        let shorter = ids.drop_last();
        assert forall|i: int, j: int| 0 <= i < j < shorter.len() implies (#[trigger] shorter[i])
            < (#[trigger] shorter[j]) by {
            assert(ids[i] < ids[j]);
        }
        turns_go_on(gateway, shorter, now, h);
        let (before, report) = gateway.all_frames_taken(shorter, now, h);
        let after = gateway.all_frames_taken(ids, now, h).0;
        let n = gateway.history.len() as int;
        let last = ids.last();
        turn_goes_on(before, ConnectionId(last), report, u64::MAX, now, h);
        assert(ids[ids.len() - 1] == last);
        assert forall|i: int|
            n <= i < after.history.len() && (#[trigger] after.history[i]
                is Received) implies ids.contains(after.history[i]->Received_connection.0) by {
            if i < before.history.len() {
                assert(before.history[i] == after.history[i]);
                let x = before.history[i]->Received_connection.0;
                assert(shorter.contains(x));
                assert(ids[shorter.index_of(x)] == x);
            }
        }
        assert forall|i: int, j: int|
            n <= i < j < after.history.len() && (#[trigger] after.history[i] is Received) && (
            #[trigger] after.history[j]
                is Received) implies after.history[i]->Received_connection.0
            <= after.history[j]->Received_connection.0 by {
            if j < before.history.len() {
                assert(before.history[i] == after.history[i]);
                assert(before.history[j] == after.history[j]);
            } else if i < before.history.len() {
                assert(before.history[i] == after.history[i]);
                let x = before.history[i]->Received_connection.0;
                assert(shorter.contains(x));
                assert(ids[shorter.index_of(x)] < ids[ids.len() - 1]);
            }
        }
        assert forall|i: int|
            0 <= i < ids.len() && after.connections.contains_key(
                #[trigger] ids[i],
            ) implies emptied(after, ConnectionId(ids[i])) || after.history.len() >= n
            + u64::MAX by {
            if i < shorter.len() {
                assert(shorter[i] == ids[i]);
                assert(ids[i] < ids[ids.len() - 1]);
                assert(before.connections.contains_key(ids[i]));
                assert(after.connections[ids[i]] == before.connections[ids[i]]);
            }
        }
    }
}

/// A pass over the inbound frames asks every connection, in ascending order, and
/// each of them until it has no frame left: of a connection that is still there
/// the last thing before the flush was that it was asked and had none. (A pass
/// takes at most 2^64 - 1 frames of a connection.)
pub proof fn every_connection_has_its_turn(gateway: GatewayView, now: u64, h: Seq<Exchange>)
    requires
        gateway.connections.dom().finite(),
    ensures
        ({
            let after = gateway.inbound_processed(now, h).0;
            let n = gateway.history.len() as int;
            &&& in_turn(after.history, n, ascending(gateway.connections.dom()))
            &&& forall|c: u64| #[trigger]
                after.connections.contains_key(c) ==> {
                    let contacts = after.connections[c].contacts;
                    ||| after.history.len() >= n + u64::MAX
                    ||| contacts.len() >= 2 && contacts[contacts.len() - 2] == (Contact::Asked {
                        answer: Ok(None),
                    }) && contacts.last() == (Contact::Flushed { answer: Ok(()) })
                }
        }),
{
    reveal(GatewayView::inbound_processed);
    let ids = ascending(gateway.connections.dom());
    ascending_lists(gateway.connections.dom());
    turns_go_on(gateway, ids, now, h);
    let taken = gateway.all_frames_taken(ids, now, h).0;
    assert(taken.connections.dom().subset_of(gateway.connections.dom()));
    vstd::set_lib::lemma_len_subset(taken.connections.dom(), gateway.connections.dom());
    flushing_reaches_everyone(taken, h);
    let flushed = taken.flushed(h);
    settling_goes_on(flushed, h);
    let after = gateway.inbound_processed(now, h).0;
    let n = gateway.history.len() as int;
    let open = ascending(taken.connections.dom());
    ascending_lists(taken.connections.dom());
    assert forall|i: int| taken.history.len() <= i < after.history.len() implies !(
    #[trigger] after.history[i] is Received) by {
        if i < flushed.history.len() {
            let k = i - taken.history.len();
            assert(after.history[i] == flushed.history[i]);
            assert(flush_noted(
                flushed.history[taken.history.len() + k],
                open[k],
                h[taken.history.len() + k],
            ));
        }
    }
    assert forall|i: int| n <= i < taken.history.len() implies after.history[i]
        == #[trigger] taken.history[i] by {
        assert(flushed.history[i] == taken.history[i]);
    }
    assert(in_turn(after.history, n, ids)) by {
        assert forall|i: int|
            n <= i < after.history.len() && (#[trigger] after.history[i]
                is Received) implies ids.contains(after.history[i]->Received_connection.0) by {
            assert(i < taken.history.len());
            assert(taken.history[i] is Received);
        }
        assert forall|i: int, j: int|
            n <= i < j < after.history.len() && (#[trigger] after.history[i] is Received) && (
            #[trigger] after.history[j]
                is Received) implies after.history[i]->Received_connection.0
            <= after.history[j]->Received_connection.0 by {
            assert(taken.history[i] is Received && taken.history[j] is Received);
        }
    }
    assert forall|c: u64| #[trigger] after.connections.contains_key(c) implies {
        let contacts = after.connections[c].contacts;
        ||| after.history.len() >= n + u64::MAX
        ||| contacts.len() >= 2 && contacts[contacts.len() - 2] == (Contact::Asked {
            answer: Ok(None),
        }) && contacts.last() == (Contact::Flushed { answer: Ok(()) })
    } by {
        assert(flushed.connections.contains_key(c));
        assert(taken.connections.contains_key(c));
        assert(gateway.connections.contains_key(c));
        assert(ids.to_set().contains(c));
        assert(taken.connections.contains_key(ids[ids.index_of(c)]));
    }
}

// ------------------------------------------------------------------ pumping

/// A subscription of a connection on a world.
pub open spec fn holds(
    gateway: GatewayView,
    c: ConnectionId,
    world: WorldId,
    subscription: SubscriptionId,
) -> bool {
    gateway.connections.contains_key(c.0) && gateway.connections[c.0].subscriptions.contains_key(
        subscription.0,
    ) && gateway.connections[c.0].subscriptions[subscription.0] == world
}

proof fn listing_has_all(gateway: GatewayView, ids: Seq<u64>)
    requires
        is_ascending(ids),
        forall|i: int|
            0 <= i < ids.len() ==> gateway.connections.contains_key(#[trigger] ids[i])
                && gateway.connections[ids[i]].subscriptions.dom().finite(),
    ensures
        forall|c: ConnectionId, w: WorldId, s: SubscriptionId| #[trigger]
            gateway.subscriptions_of(ids).contains((c, w, s)) <==> ids.contains(c.0) && holds(
                gateway,
                c,
                w,
                s,
            ),
        forall|i: int, j: int|
            0 <= i < j < gateway.subscriptions_of(ids).len() ==> {
                let (a, b) = (
                    #[trigger] gateway.subscriptions_of(ids)[i],
                    #[trigger] gateway.subscriptions_of(ids)[j],
                );
                a.0.0 < b.0.0 || a.0.0 == b.0.0 && a.2.0 < b.2.0
            },
    decreases ids.len(),
{
    if ids.len() > 0 {
        let shorter = ids.drop_last();
        let last = ids.last();
        assert forall|i: int, j: int| 0 <= i < j < shorter.len() implies (#[trigger] shorter[i])
            < (#[trigger] shorter[j]) by {
            assert(ids[i] < ids[j]);
        }
        assert forall|i: int|
            0 <= i < shorter.len() implies gateway.connections.contains_key(#[trigger] shorter[i])
            && gateway.connections[shorter[i]].subscriptions.dom().finite() by {
            assert(ids[i] == shorter[i]);
        }
        listing_has_all(gateway, shorter);
        assert(ids[ids.len() - 1] == last);
        let earlier = gateway.subscriptions_of(shorter);
        let all = gateway.subscriptions_of(ids);
        let held = gateway.connections[last].subscriptions;
        let own = ended_of(held);
        let keys = ascending(held.dom());
        ascending_lists(held.dom());
        assert forall|c: ConnectionId, w: WorldId, s: SubscriptionId| #[trigger]
            all.contains((c, w, s)) <==> ids.contains(c.0) && holds(gateway, c, w, s) by {
            if all.contains((c, w, s)) {
                let k = all.index_of((c, w, s));
                if k < earlier.len() {
                    assert(earlier[k] == (c, w, s));
                    assert(earlier.contains((c, w, s)));
                    assert(ids[shorter.index_of(c.0)] == c.0);
                } else {
                    let m = k - earlier.len();
                    assert(all[k] == (ConnectionId(last), own[m].0, own[m].1));
                    assert(keys.to_set().contains(keys[m]));
                }
            }
            if ids.contains(c.0) && holds(gateway, c, w, s) {
                if c.0 == last {
                    assert(keys.to_set().contains(s.0));
                    let m = keys.index_of(s.0);
                    assert(all[earlier.len() + m] == (c, w, s));
                } else {
                    assert(shorter[ids.index_of(c.0)] == c.0);
                    assert(earlier.contains((c, w, s)));
                    assert(all[earlier.index_of((c, w, s))] == (c, w, s));
                }
            }
        }
        assert forall|i: int, j: int| 0 <= i < j < all.len() implies {
            let (a, b) = (#[trigger] all[i], #[trigger] all[j]);
            a.0.0 < b.0.0 || a.0.0 == b.0.0 && a.2.0 < b.2.0
        } by {
            if j < earlier.len() {
                assert(all[i] == earlier[i] && all[j] == earlier[j]);
            } else if i < earlier.len() {
                let a = earlier[i];
                assert(all[i] == a);
                assert(earlier.contains((a.0, a.1, a.2)));
                assert(shorter.contains(a.0.0));
                assert(ids[shorter.index_of(a.0.0)] < ids[ids.len() - 1]);
            } else {
                assert(keys[i - earlier.len()] < keys[j - earlier.len()]);
            }
        }
    }
}

proof fn pumping_all_asks(
    gateway: GatewayView,
    list: Seq<(ConnectionId, WorldId, SubscriptionId)>,
    h: Seq<Exchange>,
)
    requires
        gateway.runtime.state == RuntimeState::Running,
    ensures
        ({
            let after = gateway.all_pumped(list, h);
            &&& after.runtime == gateway.runtime
            &&& forall|i: int|
                0 <= i < list.len() && gateway.runtime.worlds.contains_key(
                    (#[trigger] list[i]).1.0,
                ) ==> drained_since(
                    gateway.history.len() as int,
                    after.history,
                    list[i].1,
                    list[i].2,
                )
        }),
    decreases list.len(),
{
    if list.len() > 0 {
        let shorter = list.drop_last();
        pumping_all_asks(gateway, shorter, h);
        pumping_all_goes_on(gateway, shorter, h);
        let before = gateway.all_pumped(shorter, h);
        let after = gateway.all_pumped(list, h);
        let (c, world, subscription) = list.last();
        assert(list[list.len() - 1] == list.last());
        pumping_tells_what_was_drained(before, c, world, subscription, 0, h);
        pumping_is_local(before, c, world, subscription, 0, h);
        pumping_keeps_the_runtime(before, c, world, subscription, 0, h);
        let n = gateway.history.len() as int;
        if gateway.runtime.worlds.contains_key(world.0) {
            assert(after.history[before.history.len() as int] is Drained);
        }
        assert forall|i: int|
            0 <= i < list.len() && gateway.runtime.worlds.contains_key(
                (#[trigger] list[i]).1.0,
            ) implies drained_since(n, after.history, list[i].1, list[i].2) by {
            if i < shorter.len() {
                assert(shorter[i] == list[i]);
                let k = choose|k: int|
                    n <= k < before.history.len() && (
                    #[trigger] before.history[k] matches Exchange::Drained {
                        world: w,
                        subscription: s,
                        ..
                    } && w == list[i].1 && s == list[i].2);
                assert(after.history[k] == before.history[k]);
            }
        }
    }
}

/// From some point of a record on, the pending updates of a subscription were
/// asked for.
pub open spec fn drained_since(
    since: int,
    history: Seq<Exchange>,
    world: WorldId,
    subscription: SubscriptionId,
) -> bool {
    exists|k: int|
        since <= k < history.len() && (#[trigger] history[k] matches Exchange::Drained {
            world: w,
            subscription: s,
            ..
        } && w == world && s == subscription)
}

/// Pumping goes over every subscription that any connection holds, and over
/// nothing else, by connection and then by subscription, ascending; and the
/// registry of each one's world, if it is registered, is asked for what it has
/// pending.
pub proof fn every_subscription_is_pumped(gateway: GatewayView, h: Seq<Exchange>)
    requires
        gateway.valid(),
    ensures
        ({
            let list = gateway.subscriptions_of(ascending(gateway.connections.dom()));
            let after = gateway.subscriptions_pumped(h).0;
            &&& forall|c: ConnectionId, w: WorldId, s: SubscriptionId| #[trigger]
                list.contains((c, w, s)) <==> holds(gateway, c, w, s)
            &&& forall|i: int, j: int|
                0 <= i < j < list.len() ==> {
                    let (a, b) = (#[trigger] list[i], #[trigger] list[j]);
                    a.0.0 < b.0.0 || a.0.0 == b.0.0 && a.2.0 < b.2.0
                }
            &&& gateway.runtime.state == RuntimeState::Running ==> forall|
                c: ConnectionId,
                w: WorldId,
                s: SubscriptionId,
            | #[trigger]
                holds(gateway, c, w, s) && gateway.runtime.worlds.contains_key(w.0)
                    ==> drained_since(
                    gateway.history.len() as int,
                    after.history,
                    w,
                    s,
                )
        }),
{
    reveal(connections_valid);
    let ids = ascending(gateway.connections.dom());
    let list = gateway.subscriptions_of(ids);
    ascending_lists(gateway.connections.dom());
    assert forall|i: int| 0 <= i < ids.len() implies gateway.connections.contains_key(
        #[trigger] ids[i],
    ) && gateway.connections[ids[i]].subscriptions.dom().finite() by {
        assert(ids.to_set().contains(ids[i]));
    }
    listing_has_all(gateway, ids);
    assert forall|c: ConnectionId, w: WorldId, s: SubscriptionId| #[trigger]
        list.contains((c, w, s)) <==> holds(gateway, c, w, s) by {
        assert(ids.to_set().contains(c.0) <==> gateway.connections.contains_key(c.0));
    }
    if gateway.runtime.state == RuntimeState::Running {
        pumping_all_asks(gateway, list, h);
        pumping_all_goes_on(gateway, list, h);
        reveal(GatewayView::subscriptions_pumped);
        let pumped = gateway.all_pumped(list, h);
        let after = gateway.subscriptions_pumped(h).0;
        assert(pumped.connections.dom().subset_of(gateway.connections.dom()));
        vstd::set_lib::lemma_len_subset(pumped.connections.dom(), gateway.connections.dom());
        flushing_reaches_everyone(pumped, h);
        settling_goes_on(pumped.flushed(h), h);
        let n = gateway.history.len() as int;
        assert forall|c: ConnectionId, w: WorldId, s: SubscriptionId| #[trigger]
            holds(gateway, c, w, s) && gateway.runtime.worlds.contains_key(
                w.0,
            ) implies drained_since(n, after.history, w, s) by {
            assert(list.contains((c, w, s)));
            let i = list.index_of((c, w, s));
            assert(drained_since(n, pumped.history, list[i].1, list[i].2));
            let k = choose|k: int|
                n <= k < pumped.history.len() && (
                #[trigger] pumped.history[k] matches Exchange::Drained {
                    world: wk,
                    subscription: sk,
                    ..
                } && wk == w && sk == s);
            assert(pumped.flushed(h).history[k] == pumped.history[k]);
            assert(after.history[k] == pumped.history[k]);
        }
    }
}

proof fn pumping_all_goes_on(
    gateway: GatewayView,
    list: Seq<(ConnectionId, WorldId, SubscriptionId)>,
    h: Seq<Exchange>,
)
    ensures
        goes_on(gateway, gateway.all_pumped(list, h)),
    decreases list.len(),
{
    if list.len() > 0 {
        pumping_all_goes_on(gateway, list.drop_last(), h);
        let (c, world, subscription) = list.last();
        pumping_is_local(gateway.all_pumped(list.drop_last(), h), c, world, subscription, 0, h);
    }
}

/// The registry of a world that nobody has a subscription on is not asked, nor
/// is anybody told anything; neither when the world cannot be asked.
pub proof fn unwatched_worlds_are_left_alone(
    gateway: GatewayView,
    world: WorldId,
    h: Seq<Exchange>,
)
    requires
        (forall|c: ConnectionId, s: SubscriptionId| !#[trigger] holds(gateway, c, world, s))
            || gateway.runtime.state != RuntimeState::Running
            || !gateway.runtime.worlds.contains_key(world.0),
    ensures
        gateway.deltas_delivered(world, h) == gateway,
{
    reveal(GatewayView::deltas_delivered);
    if forall|c: ConnectionId, s: SubscriptionId| !#[trigger] holds(gateway, c, world, s) {
        assert forall|c: u64, s: u64| !#[trigger] gateway.subscriptions_on(
            c,
            world,
        ).contains(s) by {
            assert(!holds(gateway, ConnectionId(c), world, SubscriptionId(s)));
        }
        assert(!gateway.watched(world));
    }
}

// ------------------------------------------------------------------- offers

/// A transport was handed a message's frame.
pub open spec fn framed(contact: Contact, message: ServerMessageView, max_payload: u32) -> bool {
    &&& server_payload(message).len() <= max_payload
    &&& contact matches Contact::Frame { frame, .. } && frame == frame_bytes(
        server_kind(message),
        server_payload(message),
    )
}

/// What came of offering a message is what the transport answered to it, and
/// the message comes last: it was taken only if the transport took it, as it is
/// or as its frame; the queue was full only if the transport said so of the
/// frame; the transport is broken only if it refused the frame otherwise; and a
/// message is over the bound only if its payload is.
pub proof fn offers_end_as_the_transport_answers(
    message: ServerMessageView,
    waiting: Seq<u64>,
    max_payload: u32,
    flushed: nat,
    offer: Offer,
    contacts: Seq<Contact>,
)
    requires
        message_offered(message, waiting, max_payload, flushed, offer, contacts),
    ensures
        flushed <= waiting.len(),
        match offer {
            Offer::Taken => contacts.len() > 0 && match contacts.last() {
                Contact::Message { message: m, answer, .. } => m == message && answer is Ok,
                Contact::Frame { frame, answer } => framed(contacts.last(), message, max_payload)
                    && answer is Ok,
                _ => false,
            },
            Offer::Full => contacts.len() > 0 && framed(contacts.last(), message, max_payload)
                && contacts.last()->Frame_answer == Err::<(), TransportError>(
                TransportError::Full,
            ),
            Offer::Broken => contacts.len() > 0 && framed(contacts.last(), message, max_payload)
                && contacts.last()->Frame_answer is Err && contacts.last()->Frame_answer->Err_0
                != TransportError::Full,
            Offer::Oversized => server_payload(message).len() > max_payload,
            Offer::Withheld => true,
        },
{
    reveal(server_frame);
    if !(offer is Withheld) {
        let attempt = choose|attempt: Attempt| #[trigger]
            attempt.went(message, waiting, max_payload, flushed, offer, contacts);
        assert(attempt.went(message, waiting, max_payload, flushed, offer, contacts));
    }
}

/// A connection that is closed is handed the frame of the farewell with the
/// reason, unless that is over the bound, and is asked to write it.
pub proof fn farewells_carry_the_reason(
    reason: Seq<char>,
    max_payload: u32,
    taken: bool,
    contacts: Seq<Contact>,
)
    requires
        farewell_offered(reason, max_payload, taken, contacts),
    ensures
        contacts.len() > 0 && contacts.last() is Flushed,
        server_payload(ServerMessageView::Disconnect { reason }).len() <= max_payload
            ==> contacts.len() == 2 && framed(
            contacts[0],
            ServerMessageView::Disconnect { reason },
            max_payload,
        ) && taken == (contacts[0]->Frame_answer is Ok),
        server_payload(ServerMessageView::Disconnect { reason }).len() > max_payload ==> !taken
            && contacts.len() == 1,
{
    reveal(server_frame);
}

// ------------------------------------------------------------------- counts

/// How many offers were taken in a record from some point on.
pub open spec fn taken_since(history: Seq<Exchange>, since: int) -> int
    decreases history.len(),
{
    if history.len() == 0 || history.len() <= since {
        0
    } else {
        taken_since(history.drop_last(), since) + if history.last() matches Exchange::Offered {
            offer: Offer::Taken,
            ..
        } {
            1int
        } else {
            0
        }
    }
}

proof fn sending_is_counted(
    gateway: GatewayView,
    c: ConnectionId,
    message: ServerMessageView,
    h: Seq<Exchange>,
    since: int,
)
    requires
        0 <= since <= gateway.history.len(),
    ensures
        ({
            let (after, taken) = gateway.sent(c, message, h);
            &&& after.history.len() >= gateway.history.len()
            &&& taken_since(after.history, since) == taken_since(gateway.history, since)
                + if taken == Ok::<bool, NetworkErrorView>(true) {
                1int
            } else {
                0
            }
            &&& after.counters.reducer_results_sent == gateway.counters.reducer_results_sent
            &&& after.counters.tick_updates_sent == gateway.counters.tick_updates_sent
            &&& after.counters.subscription_messages_sent
                == gateway.counters.subscription_messages_sent
        }),
{
    reveal(GatewayView::sent);
    reveal(GatewayView::disconnected);
    reveal_with_fuel(taken_since, 3);
    let (after, taken) = gateway.sent(c, message, h);
    if after.history.len() == gateway.history.len() + 1 {
        assert(after.history.drop_last() =~= gateway.history);
    } else if after.history.len() == gateway.history.len() + 2 {
        assert(after.history.drop_last().drop_last() =~= gateway.history);
    }
}

proof fn counting_further(n: u64, k: int)
    requires
        k >= 0,
    ensures
        counted(((n + k) % 0x1_0000_0000_0000_0000) as u64) == (n + (k + 1))
            % 0x1_0000_0000_0000_0000,
{
    vstd::arithmetic::div_mod::lemma_add_mod_noop_right(1, n + k, 0x1_0000_0000_0000_0000);
}

proof fn taken_counts(history: Seq<Exchange>, since: int)
    ensures
        taken_since(history, since) >= 0,
    decreases history.len(),
{
    if history.len() > 0 && history.len() > since {
        taken_counts(history.drop_last(), since);
    }
}

proof fn nothing_taken_yet(history: Seq<Exchange>)
    ensures
        taken_since(history, history.len() as int) == 0,
{
}

/// The answers that calls get, because their session was detached or because
/// their results came in, are counted as they are taken: as many more as the
/// transport took, and one that was withheld or refused is not counted.
pub proof fn answers_are_counted_when_taken(
    gateway: GatewayView,
    c: ConnectionId,
    ids: Seq<u64>,
    reason: Seq<char>,
    id: u64,
    call: PendingView,
    reply: ServerMessageView,
    h: Seq<Exchange>,
)
    ensures
        ({
            let n = gateway.history.len() as int;
            let failed = gateway.calls_failed(c, ids, reason, h);
            let answered = gateway.call_answered(id, call, reply, h);
            let before = gateway.counters.reducer_results_sent;
            &&& failed.counters.reducer_results_sent == (before + taken_since(failed.history, n))
                % 0x1_0000_0000_0000_0000
            &&& answered.counters.reducer_results_sent == (before + taken_since(
                answered.history,
                n,
            )) % 0x1_0000_0000_0000_0000
        }),
    decreases ids.len(),
{
    let n = gateway.history.len() as int;
    let before = gateway.counters.reducer_results_sent;
    nothing_taken_yet(gateway.history);
    reveal(GatewayView::call_answered);
    let forgotten = gateway.call_forgotten(id, call);
    sending_is_counted(forgotten, call.connection, reply, h, n);
    counting_further(before, 0);
    if ids.len() > 0 {
        let shorter = ids.drop_last();
        answers_are_counted_when_taken(gateway, c, shorter, reason, id, call, reply, h);
        let earlier = gateway.calls_failed(c, shorter, reason, h);
        failing_is_local(gateway, c, shorter, reason, h);
        sending_is_counted(earlier, c, call_failure(ids.last(), reason), h, n);
        taken_counts(earlier.history, n);
        counting_further(before, taken_since(earlier.history, n));
    }
}

/// Broadcasts and subscription messages are counted as they are taken, too.
pub proof fn updates_are_counted_when_taken(
    gateway: GatewayView,
    c: ConnectionId,
    messages: Seq<ServerMessageView>,
    ids: Seq<u64>,
    message: ServerMessageView,
    report: StepReport,
    h: Seq<Exchange>,
)
    ensures
        ({
            let n = gateway.history.len() as int;
            let told = gateway.updates_sent(c, messages, h);
            let (heard, after) = gateway.broadcast(ids, message, report, h);
            let counters = gateway.counters;
            &&& told.counters.subscription_messages_sent == (counters.subscription_messages_sent
                + taken_since(told.history, n)) % 0x1_0000_0000_0000_0000
            &&& heard.counters.tick_updates_sent == (counters.tick_updates_sent + taken_since(
                heard.history,
                n,
            )) % 0x1_0000_0000_0000_0000
            &&& after.tick_updates_sent == (report.tick_updates_sent + taken_since(
                heard.history,
                n,
            )) % 0x1_0000_0000_0000_0000
        }),
    decreases messages.len() + ids.len(),
{
    let n = gateway.history.len() as int;
    nothing_taken_yet(gateway.history);
    if messages.len() > 0 {
        let shorter = messages.drop_last();
        updates_are_counted_when_taken(gateway, c, shorter, ids, message, report, h);
        let earlier = gateway.updates_sent(c, shorter, h);
        telling_is_local(gateway, c, shorter, h);
        sending_is_counted(earlier, c, messages.last(), h, n);
        taken_counts(earlier.history, n);
        counting_further(
            gateway.counters.subscription_messages_sent,
            taken_since(earlier.history, n),
        );
    }
    if ids.len() > 0 {
        let shorter = ids.drop_last();
        updates_are_counted_when_taken(gateway, c, messages, shorter, message, report, h);
        let (earlier, _) = gateway.broadcast(shorter, message, report, h);
        broadcasting_goes_on(gateway, shorter, message, report, h);
        sending_is_counted(earlier, ConnectionId(ids.last()), message, h, n);
        taken_counts(earlier.history, n);
        counting_further(gateway.counters.tick_updates_sent, taken_since(earlier.history, n));
        counting_further(report.tick_updates_sent, taken_since(earlier.history, n));
    }
}

/// A call whose world no longer runs is told so, by the world's number.
pub proof fn abandoned_calls_name_their_world(world: WorldId)
    ensures
        GatewayView::not_running_text(world) == "world "@ + decimal(world.0 as nat)
            + " is no longer running; the call could not commit"@,
{
}

} // verus!
