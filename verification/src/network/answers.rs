//! Laws of answers: every reducer call that a client makes is answered, once,
//! to that client and under the client's own request id.

use vstd::prelude::*;

use crate::base::error::ErrorView;
use crate::base::ids::{ConnectionId, SubscriptionId, WorldId};
use crate::base::message::{CallResultView, ReducerCallView, TickResultView};
use crate::base::subscription::SubscriptionUpdateView;
use crate::base::table::{ascending, ascending_lists};
use crate::base::value::ValueView;
use crate::network::gateway_laws::sending_keeps_calls;
use crate::network::gateway_model::{
    call_failure, calls_valid, update_message, update_messages, updates_for, whole_updates,
    with_caller, GatewayView, PendingView, StepReport,
};
use crate::network::host::{Exchange, Operation, PendingUpdatesView};
use crate::network::laws::{
    ended_subscriptions_are_settled, no_call_is_left_waiting, no_new_calls,
    same_but_for_subscriptions, shrinks,
};
use crate::network::metrics::NetworkCounters;
use crate::network::protocol::ServerMessageView;
use crate::network::rate::RateBucket;
use crate::reducer::args::Entries;
use crate::runtime::metrics::counted;

verus! {

/// The messages offered to connections in a record, in order.
pub open spec fn offered(history: Seq<Exchange>) -> Seq<(ConnectionId, ServerMessageView)>
    decreases history.len(),
{
    if history.len() == 0 {
        Seq::empty()
    } else {
        let earlier = offered(history.drop_last());
        match history.last() {
            Exchange::Offered { connection, message, .. } => earlier.push((connection, message)),
            _ => earlier,
        }
    }
}

/// Whether a message answers a reducer call with some request id.
pub open spec fn answers_call(message: ServerMessageView, id: u64) -> bool {
    message matches ServerMessageView::ReducerResult { request_id, .. } && request_id == id
}

/// The answers, among some messages, to a connection's calls with some
/// request id, in order.
pub open spec fn answers(
    messages: Seq<(ConnectionId, ServerMessageView)>,
    c: ConnectionId,
    id: u64,
) -> Seq<ServerMessageView>
    decreases messages.len(),
{
    if messages.len() == 0 {
        Seq::empty()
    } else {
        let earlier = answers(messages.drop_last(), c, id);
        if messages.last().0 == c && answers_call(messages.last().1, id) {
            earlier.push(messages.last().1)
        } else {
            earlier
        }
    }
}

proof fn one_more_exchange(history: Seq<Exchange>, exchange: Exchange)
    ensures
        offered(history.push(exchange)) == match exchange {
            Exchange::Offered { connection, message, .. } => offered(history).push(
                (connection, message),
            ),
            _ => offered(history),
        },
{
    assert(history.push(exchange).drop_last() =~= history);
}

proof fn one_more_message(
    messages: Seq<(ConnectionId, ServerMessageView)>,
    to: ConnectionId,
    message: ServerMessageView,
    c: ConnectionId,
    id: u64,
)
    ensures
        answers(messages.push((to, message)), c, id) == if to == c && answers_call(message, id) {
            answers(messages, c, id).push(message)
        } else {
            answers(messages, c, id)
        },
{
    assert(messages.push((to, message)).drop_last() =~= messages);
}

/// Sending a message to a registered connection offers that message to it,
/// and no message to anyone else.
pub proof fn sending_offers_one_message(
    gateway: GatewayView,
    c: ConnectionId,
    message: ServerMessageView,
    h: Seq<Exchange>,
)
    ensures
        offered(gateway.sent(c, message, h).0.history) == if gateway.connections.contains_key(
            c.0,
        ) {
            offered(gateway.history).push((c, message))
        } else {
            offered(gateway.history)
        },
{
    reveal(GatewayView::sent);
    reveal(GatewayView::disconnected);
    if gateway.connections.contains_key(c.0) {
        let after = gateway.sent(c, message, h).0.history;
        let first = after[gateway.history.len() as int];
        one_more_exchange(gateway.history, first);
        if after.len() == gateway.history.len() + 1 {
            assert(after =~= gateway.history.push(first));
        } else {
            let second = after[gateway.history.len() as int + 1];
            one_more_exchange(gateway.history.push(first), second);
            assert(after =~= gateway.history.push(first).push(second));
        }
    }
}

// ------------------------------------------------------------------ fan-out

/// Where a call stands that a gateway had waiting, later in a pass: unless its
/// connection was lost, it still waits and was not answered, or it waits no
/// more and was answered once, with some reply.
pub open spec fn stands(
    gateway: GatewayView,
    later: GatewayView,
    g: u64,
    reply: Option<ServerMessageView>,
) -> bool {
    let call = gateway.pending[g];
    let before = answers(offered(gateway.history), call.connection, call.client_request_id);
    let after = answers(offered(later.history), call.connection, call.client_request_id);
    &&& shrinks(gateway, later)
    &&& later.connections.contains_key(call.connection.0) ==> match reply {
        None => later.pending.contains_key(g) && after == before,
        Some(message) => !later.pending.contains_key(g) && after == before.push(message),
    }
}

proof fn stands_through_sending(
    gateway: GatewayView,
    later: GatewayView,
    g: u64,
    reply: Option<ServerMessageView>,
    c: ConnectionId,
    message: ServerMessageView,
    h: Seq<Exchange>,
)
    requires
        stands(gateway, later, g, reply),
        c != gateway.pending[g].connection || !answers_call(
            message,
            gateway.pending[g].client_request_id,
        ),
    ensures
        stands(gateway, later.sent(c, message, h).0, g, reply),
{
    let call = gateway.pending[g];
    sending_keeps_calls(later, c, message, h);
    sending_offers_one_message(later, c, message, h);
    one_more_message(
        offered(later.history),
        c,
        message,
        call.connection,
        call.client_request_id,
    );
}

proof fn stands_through_telling(
    gateway: GatewayView,
    later: GatewayView,
    g: u64,
    reply: Option<ServerMessageView>,
    c: ConnectionId,
    messages: Seq<ServerMessageView>,
    h: Seq<Exchange>,
)
    requires
        stands(gateway, later, g, reply),
        forall|i: int| 0 <= i < messages.len() ==> !(#[trigger] messages[i] is ReducerResult),
    ensures
        stands(gateway, later.updates_sent(c, messages, h), g, reply),
    decreases messages.len(),
{
    if messages.len() > 0 {
        let earlier = messages.drop_last();
        assert forall|i: int| 0 <= i < earlier.len() implies !(#[trigger] earlier[i]
            is ReducerResult) by {
            assert(earlier[i] == messages[i]);
        }
        stands_through_telling(gateway, later, g, reply, c, earlier, h);
        assert(messages[messages.len() - 1] == messages.last());
        stands_through_sending(
            gateway,
            later.updates_sent(c, earlier, h),
            g,
            reply,
            c,
            messages.last(),
            h,
        );
    }
}

proof fn whole_updates_answer_nothing(
    subscription: SubscriptionId,
    request_id: u64,
    updates: Seq<SubscriptionUpdateView>,
)
    ensures
        forall|i: int|
            0 <= i < whole_updates(subscription, request_id, updates).len()
                ==> !(#[trigger] whole_updates(subscription, request_id, updates)[i]
                is ReducerResult),
    decreases updates.len(),
{
    if updates.len() > 0 {
        whole_updates_answer_nothing(subscription, request_id, updates.drop_last());
        assert(!(update_message(subscription, request_id, updates.last()) is ReducerResult));
    }
}

proof fn updates_answer_nothing(
    subscription: SubscriptionId,
    request_id: u64,
    updates: Seq<SubscriptionUpdateView>,
)
    ensures
        forall|i: int|
            0 <= i < update_messages(subscription, request_id, updates).len()
                ==> !(#[trigger] update_messages(subscription, request_id, updates)[i]
                is ReducerResult),
{
    whole_updates_answer_nothing(subscription, request_id, updates);
    if updates.len() == 1 {
        assert(!(update_message(subscription, request_id, updates[0]) is ReducerResult));
    }
}

proof fn stands_through_subscriptions(
    gateway: GatewayView,
    later: GatewayView,
    g: u64,
    reply: Option<ServerMessageView>,
    c: ConnectionId,
    ids: Seq<u64>,
    drained: Seq<PendingUpdatesView>,
    h: Seq<Exchange>,
)
    requires
        stands(gateway, later, g, reply),
    ensures
        stands(gateway, later.subscriptions_told(c, ids, drained, h), g, reply),
    decreases ids.len(),
{
    if ids.len() > 0 {
        stands_through_subscriptions(gateway, later, g, reply, c, ids.drop_last(), drained, h);
        let subscription = SubscriptionId(ids.last());
        if let Some(updates) = updates_for(drained, subscription) {
            updates_answer_nothing(subscription, 0, updates);
            stands_through_telling(
                gateway,
                later.subscriptions_told(c, ids.drop_last(), drained, h),
                g,
                reply,
                c,
                update_messages(subscription, 0, updates),
                h,
            );
        }
    }
}

proof fn stands_through_connections(
    gateway: GatewayView,
    later: GatewayView,
    g: u64,
    reply: Option<ServerMessageView>,
    ids: Seq<u64>,
    world: WorldId,
    drained: Seq<PendingUpdatesView>,
    h: Seq<Exchange>,
)
    requires
        stands(gateway, later, g, reply),
    ensures
        stands(gateway, later.connections_told(ids, world, drained, h), g, reply),
    decreases ids.len(),
{
    if ids.len() > 0 {
        stands_through_connections(gateway, later, g, reply, ids.drop_last(), world, drained, h);
        let before = later.connections_told(ids.drop_last(), world, drained, h);
        stands_through_subscriptions(
            gateway,
            before,
            g,
            reply,
            ConnectionId(ids.last()),
            ascending(before.subscriptions_on(ids.last(), world)),
            drained,
            h,
        );
    }
}

proof fn stands_through_deltas(
    gateway: GatewayView,
    later: GatewayView,
    g: u64,
    reply: Option<ServerMessageView>,
    world: WorldId,
    h: Seq<Exchange>,
)
    requires
        stands(gateway, later, g, reply),
    ensures
        stands(gateway, later.deltas_delivered(world, h), g, reply),
{
    reveal(GatewayView::deltas_delivered);
    let answer = match later.next(h) {
        Exchange::DrainedAll { answer, .. } => answer,
        _ => Ok(Seq::empty()),
    };
    let exchange = Exchange::DrainedAll { world, answer };
    one_more_exchange(later.history, exchange);
    assert(stands(gateway, later.recorded(exchange), g, reply));
    if let Ok(updates) = answer {
        stands_through_connections(
            gateway,
            later.recorded(exchange),
            g,
            reply,
            ascending(later.connections.dom()),
            world,
            updates,
            h,
        );
    }
}

proof fn stands_through_broadcast(
    gateway: GatewayView,
    later: GatewayView,
    g: u64,
    reply: Option<ServerMessageView>,
    ids: Seq<u64>,
    message: ServerMessageView,
    report: StepReport,
    h: Seq<Exchange>,
)
    requires
        stands(gateway, later, g, reply),
        !(message is ReducerResult),
    ensures
        stands(gateway, later.broadcast(ids, message, report, h).0, g, reply),
    decreases ids.len(),
{
    if ids.len() > 0 {
        stands_through_broadcast(gateway, later, g, reply, ids.drop_last(), message, report, h);
        stands_through_sending(
            gateway,
            later.broadcast(ids.drop_last(), message, report, h).0,
            g,
            reply,
            ConnectionId(ids.last()),
            message,
            h,
        );
    }
}

proof fn stands_through_answering(
    gateway: GatewayView,
    later: GatewayView,
    g: u64,
    reply: Option<ServerMessageView>,
    id: u64,
    answer: ServerMessageView,
    h: Seq<Exchange>,
)
    requires
        gateway.valid(),
        gateway.pending.contains_key(g),
        gateway.pending.contains_key(id),
        stands(gateway, later, g, reply),
        answers_call(answer, gateway.pending[id].client_request_id),
        id == g && later.connections.contains_key(gateway.pending[g].connection.0)
            ==> reply is None,
    ensures
        stands(
            gateway,
            later.call_answered(id, gateway.pending[id], answer, h),
            g,
            if id == g {
                Some(answer)
            } else {
                reply
            },
        ),
        forall|c: u64| #[trigger]
            later.call_answered(id, gateway.pending[id], answer, h).connections.contains_key(c)
                ==> later.connections.contains_key(c),
{
    reveal(GatewayView::call_answered);
    reveal(calls_valid);
    let call = gateway.pending[g];
    let other = gateway.pending[id];
    let forgotten = later.call_forgotten(id, other);
    assert(forgotten.connections.dom() =~= later.connections.dom());
    assert forall|c: u64| #[trigger] forgotten.connections.contains_key(
        c,
    ) <==> later.connections.contains_key(c) by {
        assert(forgotten.connections.dom().contains(c) <==> later.connections.dom().contains(c));
    }
    sending_keeps_calls(forgotten, other.connection, answer, h);
    if id == g {
        sending_offers_one_message(forgotten, call.connection, answer, h);
        one_more_message(
            offered(forgotten.history),
            call.connection,
            answer,
            call.connection,
            call.client_request_id,
        );
    } else {
        assert(stands(gateway, forgotten, g, reply));
        stands_through_sending(gateway, forgotten, g, reply, other.connection, answer, h);
    }
}

/// What came of a call, among the results of a tick, if anything did.
pub open spec fn outcome_in(results: Seq<CallResultView>, g: u64) -> Option<
    Result<ValueView, ErrorView>,
>
    decreases results.len(),
{
    if results.len() == 0 {
        None
    } else {
        match outcome_in(results.drop_last(), g) {
            Some(outcome) => Some(outcome),
            None => if results.last().request_id == g {
                Some(results.last().outcome)
            } else {
                None
            },
        }
    }
}

/// What came of a call to a world, among the results of a step, if anything
/// did.
pub open spec fn outcome_of(
    results: Seq<(WorldId, TickResultView)>,
    world: WorldId,
    g: u64,
) -> Option<Result<ValueView, ErrorView>>
    decreases results.len(),
{
    if results.len() == 0 {
        None
    } else {
        match outcome_of(results.drop_last(), world, g) {
            Some(outcome) => Some(outcome),
            None => if results.last().0 == world {
                outcome_in(results.last().1.reducer_results, g)
            } else {
                None
            },
        }
    }
}

spec fn reply_with(call: PendingView, outcome: Option<Result<ValueView, ErrorView>>) -> Option<
    ServerMessageView,
> {
    match outcome {
        Some(outcome) => Some(GatewayView::call_reply(call.client_request_id, outcome)),
        None => None,
    }
}

spec fn routed_reply(
    call: PendingView,
    reply: Option<ServerMessageView>,
    world: WorldId,
    results: Seq<CallResultView>,
    g: u64,
) -> Option<ServerMessageView> {
    if reply is None && call.world == world {
        reply_with(call, outcome_in(results, g))
    } else {
        reply
    }
}

proof fn stands_through_routing(
    gateway: GatewayView,
    later: GatewayView,
    g: u64,
    reply: Option<ServerMessageView>,
    world: WorldId,
    results: Seq<CallResultView>,
    h: Seq<Exchange>,
)
    requires
        gateway.valid(),
        gateway.pending.contains_key(g),
        stands(gateway, later, g, reply),
    ensures
        stands(
            gateway,
            later.results_routed(world, results, h),
            g,
            routed_reply(gateway.pending[g], reply, world, results, g),
        ),
    decreases results.len(),
{
    if results.len() > 0 {
        let call = gateway.pending[g];
        let earlier = results.drop_last();
        stands_through_routing(gateway, later, g, reply, world, earlier, h);
        let before = later.results_routed(world, earlier, h);
        let so_far = routed_reply(call, reply, world, earlier, g);
        let id = results.last().request_id;
        if before.pending.contains_key(id) && before.pending[id].world == world {
            assert(gateway.pending.contains_key(id));
            stands_through_answering(
                gateway,
                before,
                g,
                so_far,
                id,
                GatewayView::call_reply(
                    before.pending[id].client_request_id,
                    results.last().outcome,
                ),
                h,
            );
        }
    }
}

proof fn stands_through_world(
    gateway: GatewayView,
    later: GatewayView,
    g: u64,
    reply: Option<ServerMessageView>,
    world: WorldId,
    result: TickResultView,
    report: StepReport,
    h: Seq<Exchange>,
)
    requires
        gateway.valid(),
        gateway.pending.contains_key(g),
        stands(gateway, later, g, reply),
    ensures
        stands(
            gateway,
            later.world_fanned_out(world, result, report, h).0,
            g,
            routed_reply(gateway.pending[g], reply, world, result.reducer_results, g),
        ),
{
    reveal(GatewayView::world_fanned_out);
    let begun = StepReport { worlds: counted(report.worlds), ..report };
    let told = later.tick_told(world, result, begun, h).0;
    assert(stands(gateway, told, g, reply)) by {
        reveal(GatewayView::tick_told);
        stands_through_broadcast(
            gateway,
            later,
            g,
            reply,
            ascending(later.attached_to(world)),
            later.tick_update(world, result),
            begun,
            h,
        );
    }
    stands_through_deltas(gateway, told, g, reply, world, h);
    let delivered = if result.changes.len() > 0 {
        told.deltas_delivered(world, h)
    } else {
        told
    };
    stands_through_routing(gateway, delivered, g, reply, world, result.reducer_results, h);
}

proof fn stands_through_worlds(
    gateway: GatewayView,
    g: u64,
    results: Seq<(WorldId, TickResultView)>,
    h: Seq<Exchange>,
)
    requires
        gateway.valid(),
        gateway.pending.contains_key(g),
    ensures
        stands(
            gateway,
            gateway.worlds_fanned_out(results, h).0,
            g,
            reply_with(
                gateway.pending[g],
                outcome_of(results, gateway.pending[g].world, g),
            ),
        ),
    decreases results.len(),
{
    if results.len() > 0 {
        let call = gateway.pending[g];
        let earlier = results.drop_last();
        stands_through_worlds(gateway, g, earlier, h);
        let (before, report) = gateway.worlds_fanned_out(earlier, h);
        stands_through_world(
            gateway,
            before,
            g,
            reply_with(call, outcome_of(earlier, call.world, g)),
            results.last().0,
            results.last().1,
            report,
            h,
        );
    }
}

spec fn not_running(call: PendingView) -> ServerMessageView {
    call_failure(call.client_request_id, GatewayView::not_running_text(call.world))
}

proof fn stands_through_abandoning(
    gateway: GatewayView,
    later: GatewayView,
    g: u64,
    reply: Option<ServerMessageView>,
    ids: Seq<u64>,
    h: Seq<Exchange>,
)
    requires
        gateway.valid(),
        gateway.pending.contains_key(g),
        stands(gateway, later, g, reply),
        ids.no_duplicates(),
        forall|i: int| 0 <= i < ids.len() ==> later.pending.contains_key(#[trigger] ids[i]),
    ensures
        stands(
            gateway,
            later.calls_abandoned(ids, later.pending, h),
            g,
            if ids.contains(g) {
                Some(not_running(gateway.pending[g]))
            } else {
                reply
            },
        ),
        forall|c: u64| #[trigger]
            later.calls_abandoned(ids, later.pending, h).connections.contains_key(c)
                ==> later.connections.contains_key(c),
    decreases ids.len(),
{
    if ids.len() > 0 {
        let earlier = ids.drop_last();
        let id = ids.last();
        assert forall|i: int| 0 <= i < earlier.len() implies later.pending.contains_key(
            #[trigger] earlier[i],
        ) by {
            assert(earlier[i] == ids[i]);
        }
        stands_through_abandoning(gateway, later, g, reply, earlier, h);
        let before = later.calls_abandoned(earlier, later.pending, h);
        assert(ids[ids.len() - 1] == id);
        assert(later.pending.contains_key(id) && gateway.pending.contains_key(id));
        assert(!earlier.contains(id)) by {
            if earlier.contains(id) {
                let k = earlier.index_of(id);
                assert(ids[k] == ids[ids.len() - 1]);
            }
        }
        assert(ids.contains(g) <==> earlier.contains(g) || id == g) by {
            if earlier.contains(g) {
                assert(ids[earlier.index_of(g)] == g);
            }
            if ids.contains(g) && id != g {
                assert(earlier[ids.index_of(g)] == g);
            }
        }
        let so_far = if earlier.contains(g) {
            Some(not_running(gateway.pending[g]))
        } else {
            reply
        };
        stands_through_answering(
            gateway,
            before,
            g,
            so_far,
            id,
            not_running(gateway.pending[id]),
            h,
        );
    }
}

proof fn settling_offers_nothing(
    gateway: GatewayView,
    ended: Seq<(WorldId, SubscriptionId)>,
    h: Seq<Exchange>,
)
    ensures
        offered(gateway.all_ended(ended, h).history) == offered(gateway.history),
    decreases ended.len(),
{
    if ended.len() > 0 {
        settling_offers_nothing(gateway, ended.drop_last(), h);
        let before = gateway.all_ended(ended.drop_last(), h);
        let (world, subscription) = ended.last();
        let answer = match before.next(h) {
            Exchange::Unsubscribed { answer, .. } => answer,
            _ => Ok(()),
        };
        one_more_exchange(
            before.history,
            Exchange::Unsubscribed { world, subscription, answer },
        );
    }
}

/// Fanning out settles every call that waits, unless its connection is lost on
/// the way: one with a result is answered once, with that result; one without
/// whose world does not run is answered once, with a failure that says so; and
/// one without whose world runs stays as it was and is not answered. Answers
/// go to the connection that made the call, under its own request id. Whatever
/// happens, no call of a world that does not run still waits.
pub proof fn fanning_out_settles_every_call(
    gateway: GatewayView,
    results: Seq<(WorldId, TickResultView)>,
    g: u64,
    h: Seq<Exchange>,
)
    requires
        gateway.valid(),
        gateway.pending.contains_key(g),
    ensures
        ({
            let after = gateway.fanned_out(results, h).0;
            let call = gateway.pending[g];
            let c = call.connection;
            let id = call.client_request_id;
            let told_before = answers(offered(gateway.history), c, id);
            let told_after = answers(offered(after.history), c, id);
            &&& after.connections.contains_key(c.0) ==> match outcome_of(results, call.world, g) {
                Some(outcome) => !after.pending.contains_key(g) && told_after == told_before.push(
                    GatewayView::call_reply(id, outcome),
                ),
                None => if gateway.runtime.ticks(call.world.0) {
                    after.pending.contains_key(g) && after.pending[g] == call && told_after
                        == told_before
                } else {
                    !after.pending.contains_key(g) && told_after == told_before.push(
                        call_failure(id, GatewayView::not_running_text(call.world)),
                    )
                },
            }
            &&& !gateway.runtime.ticks(call.world.0) ==> !after.pending.contains_key(g)
            &&& no_new_calls(gateway, after)
            &&& same_but_for_subscriptions(gateway.runtime, after.runtime)
        }),
{
    reveal(calls_valid);
    reveal(GatewayView::fanned_out);
    reveal(GatewayView::ended_settled);
    no_call_is_left_waiting(gateway, results, h);
    let call = gateway.pending[g];
    let told = gateway.worlds_fanned_out(results, h).0;
    let reply = reply_with(call, outcome_of(results, call.world, g));
    stands_through_worlds(gateway, g, results, h);
    let waiting = told.unresolved();
    assert(waiting.subset_of(gateway.pending.dom()));
    vstd::set_lib::lemma_len_subset(waiting, gateway.pending.dom());
    ascending_lists(waiting);
    let ids = ascending(waiting);
    assert forall|i: int| 0 <= i < ids.len() implies told.pending.contains_key(
        #[trigger] ids[i],
    ) by {
        assert(ids.to_set().contains(ids[i]));
    }
    stands_through_abandoning(gateway, told, g, reply, ids, h);
    let answered = told.calls_abandoned(ids, told.pending, h);
    ended_subscriptions_are_settled(answered, h);
    settling_offers_nothing(
        GatewayView { ended: Seq::empty(), ..answered },
        answered.ended,
        h,
    );
    assert(ids.contains(g) <==> waiting.contains(g)) by {
        assert(ids.to_set().contains(g) <==> waiting.contains(g));
    }
    let after = gateway.fanned_out(results, h).0;
    let w = call.world.0;
    assert(gateway.runtime.worlds.contains_key(w) <==> after.runtime.worlds.contains_key(w));
}

// ------------------------------------------------------------------ refusal

/// Why a reducer call is rejected, if it is, whoever rejects it: the rate
/// limit, the checks before the policy is asked, the policy, or the runtime.
pub open spec fn call_rejection(
    gateway: GatewayView,
    c: ConnectionId,
    request_id: u64,
    reducer: Seq<char>,
    args: Entries,
    now: u64,
    h: Seq<Exchange>,
) -> Option<Seq<char>> {
    let (taken, allowed) = gateway.rate_taken(c, RateBucket::Reducer, now);
    let entry = taken.connections[c.0];
    let principal = entry.session->0.principal;
    let world = entry.world()->0;
    let call = ReducerCallView {
        request_id: taken.next_gateway_request,
        reducer,
        args: with_caller(args, principal.id),
    };
    if !allowed {
        Some("rate limit exceeded"@)
    } else if taken.call_refusal(c, request_id, reducer, args) is Some {
        taken.call_refusal(c, request_id, reducer, args)
    } else if !taken.authorized(principal, Operation::Call { world, reducer }, h).1 {
        Some("not authorized by game policy"@)
    } else {
        match taken.runtime.call_submitted(world, call).1 {
            Ok(_) => None,
            Err(error) => Some(error.text()),
        }
    }
}

/// A call of a connection was rejected between two points: one message went
/// out, to that connection; nothing was queued on any world; no call started
/// to wait, and none stopped waiting unless the connection was lost; and the
/// rejection was counted.
pub open spec fn rejected_once(
    before: GatewayView,
    after: GatewayView,
    c: ConnectionId,
    answer: ServerMessageView,
) -> bool {
    &&& offered(after.history) == offered(before.history).push((c, answer))
    &&& after.runtime.worlds == before.runtime.worlds
    &&& no_new_calls(before, after)
    &&& forall|g: u64| #[trigger]
        before.pending.contains_key(g) && !after.pending.contains_key(g)
            ==> before.pending[g].connection == c && !after.connections.contains_key(c.0)
    &&& after.counters.reducer_calls_rejected == counted(before.counters.reducer_calls_rejected)
}

proof fn rejected_since(
    earlier: GatewayView,
    before: GatewayView,
    after: GatewayView,
    c: ConnectionId,
    answer: ServerMessageView,
)
    requires
        rejected_once(before, after, c, answer),
        offered(before.history) == offered(earlier.history),
        before.runtime.worlds == earlier.runtime.worlds,
        before.pending == earlier.pending,
        before.counters.reducer_calls_rejected == earlier.counters.reducer_calls_rejected,
    ensures
        rejected_once(earlier, after, c, answer),
{
}

proof fn refusing_answers_once(
    gateway: GatewayView,
    c: ConnectionId,
    request_id: u64,
    reason: Seq<char>,
    h: Seq<Exchange>,
)
    requires
        gateway.connections.contains_key(c.0),
    ensures
        rejected_once(
            gateway,
            gateway.call_refused(c, request_id, reason, h),
            c,
            call_failure(request_id, reason),
        ),
{
    let message = call_failure(request_id, reason);
    sending_offers_one_message(gateway, c, message, h);
    sending_keeps_calls(gateway, c, message, h);
    reveal(GatewayView::call_refused);
    reveal(GatewayView::replied);
    reveal(GatewayView::sent);
    reveal(GatewayView::disconnected);
}

/// A reducer call that is rejected, by whomever, is answered once: one message
/// goes out, to the caller, a failure with the caller's own request id and the
/// reason. Nothing is queued on any world, no call starts to wait, and none
/// stops waiting unless the connection is lost over the answer.
pub proof fn rejected_calls_are_answered_once(
    gateway: GatewayView,
    c: ConnectionId,
    request_id: u64,
    reducer: Seq<char>,
    args: Entries,
    now: u64,
    h: Seq<Exchange>,
)
    requires
        gateway.connections.contains_key(c.0),
        call_rejection(gateway, c, request_id, reducer, args, now, h) is Some,
    ensures
        rejected_once(
            gateway,
            gateway.call_handled(c, request_id, reducer, args, now, h),
            c,
            call_failure(
                request_id,
                call_rejection(gateway, c, request_id, reducer, args, now, h)->0,
            ),
        ),
{
    reveal(GatewayView::call_handled);
    reveal(GatewayView::call_admitted);
    reveal(GatewayView::call_queued);
    let reason = call_rejection(gateway, c, request_id, reducer, args, now, h)->0;
    let after = gateway.call_handled(c, request_id, reducer, args, now, h);
    let (taken, allowed) = gateway.rate_taken(c, RateBucket::Reducer, now);
    let entry = taken.connections[c.0];
    let principal = entry.session->0.principal;
    let world = entry.world()->0;
    if !allowed || taken.call_refusal(c, request_id, reducer, args) is Some {
        refusing_answers_once(taken, c, request_id, reason, h);
        rejected_since(gateway, taken, after, c, call_failure(request_id, reason));
    } else {
        let operation = Operation::Call { world, reducer };
        let (asked, granted) = taken.authorized(principal, operation, h);
        one_more_exchange(
            taken.history,
            Exchange::Authorized { principal, operation, allowed: granted },
        );
        if !granted {
            let denied = asked.with_counters(
                NetworkCounters {
                    policy_rejections: counted(asked.counters.policy_rejections),
                    ..asked.counters
                },
            );
            refusing_answers_once(denied, c, request_id, reason, h);
            rejected_since(gateway, denied, after, c, call_failure(request_id, reason));
        } else {
            let call = ReducerCallView {
                request_id: taken.next_gateway_request,
                reducer,
                args: with_caller(args, principal.id),
            };
            let submitted = GatewayView {
                runtime: asked.runtime.call_submitted(world, call).0,
                next_gateway_request: (asked.next_gateway_request + 1) as u64,
                ..asked
            };
            refusing_answers_once(submitted, c, request_id, reason, h);
            rejected_since(gateway, submitted, after, c, call_failure(request_id, reason));
        }
    }
}

/// A reducer call that nobody rejects is queued on the caller's world, with
/// the caller's identity in its arguments, and waits under an id of the
/// gateway's own; nothing goes out.
pub proof fn accepted_calls_wait(
    gateway: GatewayView,
    c: ConnectionId,
    request_id: u64,
    reducer: Seq<char>,
    args: Entries,
    now: u64,
    h: Seq<Exchange>,
)
    requires
        gateway.connections.contains_key(c.0),
        call_rejection(gateway, c, request_id, reducer, args, now, h) is None,
    ensures
        ({
            let after = gateway.call_handled(c, request_id, reducer, args, now, h);
            let entry = gateway.connections[c.0];
            let world = entry.world()->0;
            let g = gateway.next_gateway_request;
            &&& offered(after.history) == offered(gateway.history)
            &&& after.pending == gateway.pending.insert(
                g,
                PendingView { world, connection: c, client_request_id: request_id },
            )
            &&& after.runtime.worlds.contains_key(world.0)
            &&& after.runtime.worlds[world.0].calls == gateway.runtime.worlds[world.0].calls.push(
                (ReducerCallView {
                    request_id: g,
                    reducer,
                    args: with_caller(args, entry.session->0.principal.id),
                }),
            )
        }),
{
    reveal(GatewayView::call_handled);
    reveal(GatewayView::call_admitted);
    reveal(GatewayView::call_queued);
    let taken = gateway.rate_taken(c, RateBucket::Reducer, now).0;
    let entry = taken.connections[c.0];
    let principal = entry.session->0.principal;
    let operation = Operation::Call { world: entry.world()->0, reducer };
    let allowed = taken.authorized(principal, operation, h).1;
    one_more_exchange(taken.history, Exchange::Authorized { principal, operation, allowed });
}

} // verus!
