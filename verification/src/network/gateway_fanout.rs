//! The gateway's fan-out: the results of a step go to the clients, connections
//! ascending, then subscriptions ascending, then calls in call order.

use vstd::prelude::*;

use crate::base::ids::{ConnectionId, SubscriptionId, WorldId};
use crate::base::message::{CallResult, TickResult};
use crate::base::table::{ascending, ascending_is, is_ascending, put_back, Table};
use crate::base::text::with_number;
use crate::base::value::{duplicate_all, views};
use crate::network::auth::Authenticator;
use crate::network::error::{NetworkError, NetworkErrorView};
use crate::network::gateway::{NetworkGateway, PendingCall};
use crate::network::gateway_handlers::messages_of_updates;
use crate::network::gateway_laws::{
    extends_transitive, forgetting_a_call_keeps_valid, sending_keeps_calls,
};
use crate::network::gateway_model::{advanced, ended_of, updates_for, GatewayView, StepReport};
use crate::network::host::{
    asking_in_touch, drained_all_view, extends, goes_on, host_part, host_part_grows, in_touch,
    in_touch_transitive, staying_in_touch, Exchange, PendingUpdates, SubscriptionHost,
};
use crate::network::policy::GamePolicy;
use crate::network::protocol::{server_encodable, ServerMessage};
use crate::network::transport::Connection;
use crate::runtime::coordinator::results_view;
use crate::runtime::error::RuntimeErrorView;
use crate::runtime::metrics::count;
use crate::runtime::tick::TickRun;
use crate::runtime::world::WorldLifecycle;

verus! {

broadcast use {
    put_back,
    host_part_grows,
    asking_in_touch,
    staying_in_touch,
    in_touch_transitive,
};

proof fn push_adds(s: Seq<u64>, v: u64)
    ensures
        forall|x: u64| #[trigger] s.push(v).contains(x) <==> s.contains(x) || x == v,
{
    assert forall|x: u64| #[trigger] s.push(v).contains(x) <==> s.contains(x) || x == v by {
        if s.contains(x) {
            let i = s.index_of(x);
            assert(s.push(v)[i] == x);
        }
        assert(s.push(v)[s.len() as int] == v);
        if s.push(v).contains(x) && x != v {
            let i = s.push(v).index_of(x);
            assert(s[i] == x);
        }
    }
}

/// The keys of a listing that satisfy a condition, in order.
pub open spec fn picked(keys: Seq<u64>, upto: int, chosen: Seq<u64>, condition: spec_fn(u64) -> bool) -> bool {
    &&& is_ascending(chosen)
    &&& forall|x: u64| #[trigger]
        chosen.contains(x) <==> keys.take(upto).contains(x) && condition(x)
    &&& forall|j: int, k: int|
        #![trigger chosen[j], keys[k]]
        0 <= j < chosen.len() && upto <= k < keys.len() ==> chosen[j] < keys[k]
}

proof fn picking_starts(keys: Seq<u64>, condition: spec_fn(u64) -> bool)
    ensures
        picked(keys, 0, Seq::empty(), condition),
{
}

proof fn picking_goes_on(
    keys: Seq<u64>,
    upto: int,
    chosen: Seq<u64>,
    condition: spec_fn(u64) -> bool,
)
    requires
        is_ascending(keys),
        0 <= upto < keys.len(),
        picked(keys, upto, chosen, condition),
    ensures
        condition(keys[upto]) ==> picked(keys, upto + 1, chosen.push(keys[upto]), condition),
        !condition(keys[upto]) ==> picked(keys, upto + 1, chosen, condition),
{
    let key = keys[upto];
    assert(keys.take(upto + 1) =~= keys.take(upto).push(key));
    push_adds(keys.take(upto), key);
    push_adds(chosen, key);
    if condition(key) {
        let after = chosen.push(key);
        assert forall|i: int, j: int| 0 <= i < j < after.len() implies (#[trigger] after[i]) < (
        #[trigger] after[j]) by {
            if j == chosen.len() {
                assert(chosen[i] < keys[upto]);
            }
        }
        assert forall|j: int, k: int|
            #![trigger after[j], keys[k]]
            0 <= j < after.len() && upto + 1 <= k < keys.len() implies after[j] < keys[k] by {
            if j < chosen.len() {
                assert(chosen[j] < keys[k]);
            }
        }
    }
}

proof fn picking_ends(
    keys: Seq<u64>,
    chosen: Seq<u64>,
    condition: spec_fn(u64) -> bool,
    set: Set<u64>,
)
    requires
        picked(keys, keys.len() as int, chosen, condition),
        forall|x: u64| #[trigger] set.contains(x) <==> keys.contains(x) && condition(x),
    ensures
        chosen == ascending(set),
{
    assert(keys.take(keys.len() as int) =~= keys);
    assert(chosen.to_set() =~= set);
    ascending_is(chosen, set);
}

/// The keys of a table with one value, in ascending order.
fn keys_of_world(table: &Table<WorldId>, world: WorldId) -> (keys: Vec<u64>)
    ensures
        keys@ == ascending(
            Set::new(|s: u64| table@.contains_key(s) && table@[s] == world),
        ),
{
    let all = table.keys();
    let mut keys: Vec<u64> = Vec::new();
    let ghost condition = |s: u64| table@.contains_key(s) && table@[s] == world;
    proof {
        picking_starts(all@, condition);
    }
    let mut i: usize = 0;
    while i < all.len()
        invariant
            i <= all@.len(),
            is_ascending(all@),
            all@.to_set() == table@.dom(),
            condition == (|s: u64| table@.contains_key(s) && table@[s] == world),
            picked(all@, i as int, keys@, condition),
        decreases all@.len() - i,
    {
        proof {
            picking_goes_on(all@, i as int, keys@, condition);
            assert(all@.to_set().contains(all@[i as int]));
        }
        if let Some(on) = table.get(all[i]) {
            if *on == world {
                keys.push(all[i]);
            }
        }
        i = i + 1;
    }
    proof {
        let set = Set::new(|s: u64| table@.contains_key(s) && table@[s] == world);
        assert forall|x: u64| #[trigger] set.contains(x) <==> all@.contains(x) && condition(x) by {
            assert(all@.to_set().contains(x) == table@.dom().contains(x));
        }
        picking_ends(all@, keys@, condition, set);
    }
    keys
}

impl<C: Connection, A: Authenticator, P: GamePolicy> NetworkGateway<C, A, P> {
    /// The connections attached to a world, in ascending order.
    fn attached_connections(&self, world: WorldId) -> (ids: Vec<u64>)
        ensures
            ids@ == ascending(self@.attached_to(world)),
    {
        let all = self.connections.keys();
        let mut ids: Vec<u64> = Vec::new();
        let ghost condition = |c: u64|
            self@.connections.contains_key(c) && self@.connections[c].world() == Some(world);
        proof {
            picking_starts(all@, condition);
        }
        let mut i: usize = 0;
        while i < all.len()
            invariant
                i <= all@.len(),
                is_ascending(all@),
                all@.to_set() == self@.connections.dom(),
                condition == (|c: u64|
                    self@.connections.contains_key(c) && self@.connections[c].world() == Some(
                        world,
                    )),
                picked(all@, i as int, ids@, condition),
            decreases all@.len() - i,
        {
            proof {
                picking_goes_on(all@, i as int, ids@, condition);
                assert(all@.to_set().contains(all@[i as int]));
            }
            if let Some(entry) = self.connections.get(all[i]) {
                if let Some(session) = &entry.session {
                    if let Some(on) = session.attached_world() {
                        if on == world {
                            ids.push(all[i]);
                        }
                    }
                }
            }
            i = i + 1;
        }
        proof {
            let set = self@.attached_to(world);
            assert forall|x: u64| #[trigger]
                set.contains(x) <==> all@.contains(x) && condition(x) by {
                assert(all@.to_set().contains(x) == self@.connections.dom().contains(x));
            }
            picking_ends(all@, ids@, condition, set);
        }
        ids
    }

    /// Sends a tick update to every connection listed.
    fn broadcast(&mut self, ids: &Vec<u64>, message: &ServerMessage, report: StepReport) -> (after:
        StepReport)
        requires
            old(self).wf(),
            server_encodable(message@),
        ensures
            final(self).wf(),
            final(self).judged_as(*old(self)),
            goes_on(old(self)@.history, final(self)@.history),
            forall|h: Seq<Exchange>| #[trigger]
                extends(final(self)@.history, h) ==> (final(self)@, after) == old(
                    self,
                )@.broadcast(ids@, message@, report, h),
    {
        let mut tally = report;
        let mut i: usize = 0;
        assert(ids@.take(0) =~= Seq::empty());
        while i < ids.len()
            invariant
                i <= ids@.len(),
                self.wf(),
                self.judged_as(*old(self)),
                server_encodable(message@),
                goes_on(old(self)@.history, self@.history),
                forall|h: Seq<Exchange>| #[trigger]
                    extends(self@.history, h) ==> (self@, tally) == old(self)@.broadcast(
                        ids@.take(i as int),
                        message@,
                        report,
                        h,
                    ),
            decreases ids@.len() - i,
        {
            let ghost before = self@;
            assert(ids@.take(i + 1).drop_last() =~= ids@.take(i as int));
            let taken = self.send(ConnectionId::from_u64(ids[i]), message);
            let ghost sent = self@;
            if let Ok(true) = taken {
                tally.tick_updates_sent = count(tally.tick_updates_sent);
                self.counters.tick_updates_sent = count(self.counters.tick_updates_sent);
            } else {
                tally.messages_dropped = count(tally.messages_dropped);
            }
            assert forall|h: Seq<Exchange>| #[trigger] extends(
                self@.history,
                h,
            ) implies (self@, tally) == old(self)@.broadcast(
                ids@.take(i + 1),
                message@,
                report,
                h,
            ) by {
                extends_transitive(before.history, self@.history, h);
                assert(extends(sent.history, h));
            }
            proof {
                extends_transitive(old(self)@.history, before.history, self@.history);
            }
            i = i + 1;
        }
        assert(ids@.take(ids@.len() as int) =~= ids@);
        tally
    }

    /// The subscriptions a connection has on a world, in ascending order.
    fn subscriptions_on(&self, c: u64, world: WorldId) -> (ids: Vec<u64>)
        ensures
            ids@ == ascending(self@.subscriptions_on(c, world)),
    {
        match self.connections.get(c) {
            Some(entry) => {
                let ids = keys_of_world(&entry.subscriptions, world);
                assert(self@.subscriptions_on(c, world) =~= Set::new(
                    |s: u64|
                        entry.subscriptions@.contains_key(s) && entry.subscriptions@[s] == world,
                ));
                ids
            },
            None => {
                let ids: Vec<u64> = Vec::new();
                proof {
                    assert(ids@.to_set() =~= self@.subscriptions_on(c, world));
                    ascending_is(ids@, self@.subscriptions_on(c, world));
                }
                ids
            },
        }
    }

    /// Whether any connection has a subscription on a world.
    fn watched(&self, world: WorldId) -> (watched: bool)
        ensures
            watched == self@.watched(world),
    {
        let ids = self.connections.keys();
        let mut i: usize = 0;
        while i < ids.len()
            invariant
                i <= ids@.len(),
                ids@.to_set() == self@.connections.dom(),
                forall|j: int, s: u64|
                    #![trigger self@.subscriptions_on(ids@[j], world).contains(s)]
                    0 <= j < i ==> !self@.subscriptions_on(ids@[j], world).contains(s),
            decreases ids@.len() - i,
        {
            let ghost c = ids@[i as int];
            let mut found = false;
            if let Some(entry) = self.connections.get(ids[i]) {
                found = holds_world(&entry.subscriptions, world);
                proof {
                    if found {
                        let s = choose|s: u64| #[trigger]
                            entry.subscriptions@.contains_key(s) && entry.subscriptions@[s]
                                == world;
                        assert(self@.subscriptions_on(c, world).contains(s));
                    }
                }
            }
            if found {
                return true;
            }
            i = i + 1;
        }
        proof {
            assert forall|c: u64, s: u64| !#[trigger] self@.subscriptions_on(c, world).contains(
                s,
            ) by {
                if self@.subscriptions_on(c, world).contains(s) {
                    assert(self@.connections.dom().contains(c));
                    assert(ids@.to_set().contains(c));
                    let j = ids@.index_of(c);
                    assert(!self@.subscriptions_on(ids@[j], world).contains(s));
                }
            }
        }
        false
    }

    /// Tells a connection's subscriptions what was drained.
    fn tell_subscriptions(
        &mut self,
        c: ConnectionId,
        ids: &Vec<u64>,
        drained: &Vec<PendingUpdates>,
    )
        requires
            old(self).wf(),
        ensures
            final(self).wf(),
            final(self).judged_as(*old(self)),
            goes_on(old(self)@.history, final(self)@.history),
            forall|h: Seq<Exchange>| #[trigger]
                extends(final(self)@.history, h) ==> final(self)@ == old(
                    self,
                )@.subscriptions_told(c, ids@, views(drained@), h),
    {
        let ghost all = views(drained@);
        let mut i: usize = 0;
        assert(ids@.take(0) =~= Seq::empty());
        while i < ids.len()
            invariant
                i <= ids@.len(),
                self.wf(),
                self.judged_as(*old(self)),
                all == views(drained@),
                goes_on(old(self)@.history, self@.history),
                forall|h: Seq<Exchange>| #[trigger]
                    extends(self@.history, h) ==> self@ == old(self)@.subscriptions_told(
                        c,
                        ids@.take(i as int),
                        all,
                        h,
                    ),
            decreases ids@.len() - i,
        {
            let ghost before = self@;
            assert(ids@.take(i + 1).drop_last() =~= ids@.take(i as int));
            let subscription = SubscriptionId::from_u64(ids[i]);
            if let Some(at) = find_updates(drained, subscription) {
                let messages = messages_of_updates(subscription, 0, &drained[at].updates);
                self.send_updates(c, &messages);
            }
            assert forall|h: Seq<Exchange>| #[trigger] extends(
                self@.history,
                h,
            ) implies self@ == old(self)@.subscriptions_told(c, ids@.take(i + 1), all, h) by {
                extends_transitive(before.history, self@.history, h);
            }
            proof {
                extends_transitive(old(self)@.history, before.history, self@.history);
            }
            i = i + 1;
        }
        assert(ids@.take(ids@.len() as int) =~= ids@);
    }

    /// Tells every connection listed what was drained of a world.
    fn tell_connections(&mut self, ids: &Vec<u64>, world: WorldId, drained: &Vec<PendingUpdates>)
        requires
            old(self).wf(),
        ensures
            final(self).wf(),
            final(self).judged_as(*old(self)),
            goes_on(old(self)@.history, final(self)@.history),
            forall|h: Seq<Exchange>| #[trigger]
                extends(final(self)@.history, h) ==> final(self)@ == old(self)@.connections_told(
                    ids@,
                    world,
                    views(drained@),
                    h,
                ),
    {
        let ghost all = views(drained@);
        let mut i: usize = 0;
        assert(ids@.take(0) =~= Seq::empty());
        while i < ids.len()
            invariant
                i <= ids@.len(),
                self.wf(),
                self.judged_as(*old(self)),
                all == views(drained@),
                goes_on(old(self)@.history, self@.history),
                forall|h: Seq<Exchange>| #[trigger]
                    extends(self@.history, h) ==> self@ == old(self)@.connections_told(
                        ids@.take(i as int),
                        world,
                        all,
                        h,
                    ),
            decreases ids@.len() - i,
        {
            let ghost before = self@;
            assert(ids@.take(i + 1).drop_last() =~= ids@.take(i as int));
            let subscriptions = self.subscriptions_on(ids[i], world);
            self.tell_subscriptions(ConnectionId::from_u64(ids[i]), &subscriptions, drained);
            assert forall|h: Seq<Exchange>| #[trigger] extends(
                self@.history,
                h,
            ) implies self@ == old(self)@.connections_told(ids@.take(i + 1), world, all, h) by {
                extends_transitive(before.history, self@.history, h);
            }
            proof {
                extends_transitive(old(self)@.history, before.history, self@.history);
            }
            i = i + 1;
        }
        assert(ids@.take(ids@.len() as int) =~= ids@);
    }

    /// Delivers a world's pending subscription updates.
    fn deliver_deltas<R: SubscriptionHost>(&mut self, host: &mut R, world: WorldId)
        requires
            old(self).wf(),
        ensures
            final(self).wf(),
            final(self).judged_as(*old(self)),
            extends(old(self)@.history, final(self)@.history),
            in_touch(
                old(host).exchanges(),
                host_part(old(self)@.history),
                final(host).exchanges(),
                host_part(final(self)@.history),
            ),
            forall|h: Seq<Exchange>| #[trigger]
                extends(final(self)@.history, h) ==> final(self)@ == old(self)@.deltas_delivered(
                    world,
                    h,
                ),
    {
        proof {
            reveal(GatewayView::deltas_delivered);
        }
        if !self.watched(world) {
            return;
        }
        if self.runtime.check_world(world).is_err() {
            return;
        }
        let ids = self.connections.keys();
        let ghost log = host.exchanges();
        let ghost part = host_part(self@.history);
        let answer = host.drain_all(world);
        let ghost n = self@.history.len() as int;
        let ghost said = drained_all_view(answer);
        self.record(Ghost(Exchange::DrainedAll { world, answer: said }));
        assert(in_touch(
            log,
            part,
            host.exchanges(),
            host_part(self@.history),
        ));
        let ghost asked = self@;
        if let Ok(drained) = answer {
            self.tell_connections(&ids, world, &drained);
        }
        assert forall|h: Seq<Exchange>| #[trigger] extends(
            self@.history,
            h,
        ) implies self@ == old(self)@.deltas_delivered(world, h) by {
            extends_transitive(asked.history, self@.history, h);
            assert(asked.history[n] == h[n]);
        }
    }

    /// Forgets a pending call and answers it.
    fn answer_call(&mut self, id: u64, call: &PendingCall, reply: &ServerMessage)
        requires
            old(self).wf(),
            server_encodable(reply@),
            old(self)@.call_forgotten(id, call@).valid(),
        ensures
            final(self).wf(),
            final(self).judged_as(*old(self)),
            goes_on(old(self)@.history, final(self)@.history),
            forall|h: Seq<Exchange>| #[trigger]
                extends(final(self)@.history, h) ==> final(self)@ == old(self)@.call_answered(
                    id,
                    call@,
                    reply@,
                    h,
                ),
            keeps_calls(old(self)@.call_forgotten(id, call@), final(self)@),
    {
        proof {
            reveal(GatewayView::call_answered);
        }
        let c = call.connection;
        self.pending.remove(id);
        if let Some(mut entry) = self.connections.remove(c.as_u64()) {
            entry.pending_ids.remove(call.client_request_id);
            self.connections.insert(c.as_u64(), entry);
        } else {
            assert(self.connections@ =~= old(self).connections@);
        }
        let ghost forgotten = self@;
        assert(forgotten == old(self)@.call_forgotten(id, call@));
        let taken = self.send(c, reply);
        proof {
            assert(extends(self@.history, self@.history));
            sending_keeps_calls(forgotten, c, reply@, self@.history);
        }
        let ghost sent = self@;
        if let Ok(true) = taken {
            self.counters.reducer_results_sent = count(self.counters.reducer_results_sent);
        }
        assert forall|h: Seq<Exchange>| #[trigger] extends(
            self@.history,
            h,
        ) implies self@ == old(self)@.call_answered(id, call@, reply@, h) by {
            assert(extends(sent.history, h));
        }
    }

    /// Routes the results of a world's reducer calls to the connections that
    /// wait for them.
    fn route_results(&mut self, world: WorldId, results: &Vec<CallResult>)
        requires
            old(self).wf(),
        ensures
            final(self).wf(),
            final(self).judged_as(*old(self)),
            goes_on(old(self)@.history, final(self)@.history),
            forall|h: Seq<Exchange>| #[trigger]
                extends(final(self)@.history, h) ==> final(self)@ == old(self)@.results_routed(
                    world,
                    views(results@),
                    h,
                ),
    {
        let ghost all = views(results@);
        let mut i: usize = 0;
        assert(all.take(0) =~= Seq::empty());
        while i < results.len()
            invariant
                i <= results@.len(),
                self.wf(),
                self.judged_as(*old(self)),
                all == views(results@),
                goes_on(old(self)@.history, self@.history),
                forall|h: Seq<Exchange>| #[trigger]
                    extends(self@.history, h) ==> self@ == old(self)@.results_routed(
                        world,
                        all.take(i as int),
                        h,
                    ),
            decreases results@.len() - i,
        {
            let ghost before = self@;
            assert(all.take(i + 1).drop_last() =~= all.take(i as int));
            assert(all.take(i + 1).last() == results@[i as int]@);
            let id: u64 = results[i].request_id;
            let found = match self.pending.get(id) {
                Some(call) => if call.world == world {
                    Some(*call)
                } else {
                    None
                },
                None => None,
            };
            if let Some(call) = found {
                let reply = reply_to_call(call.client_request_id, &results[i]);
                proof {
                    forgetting_a_call_keeps_valid(self@, id);
                }
                self.answer_call(id, &call, &reply);
            }
            assert forall|h: Seq<Exchange>| #[trigger] extends(
                self@.history,
                h,
            ) implies self@ == old(self)@.results_routed(world, all.take(i + 1), h) by {
                extends_transitive(before.history, self@.history, h);
            }
            proof {
                extends_transitive(old(self)@.history, before.history, self@.history);
            }
            i = i + 1;
        }
        assert(all.take(all.len() as int) =~= all);
    }

    /// Tells the attached sessions of a committed tick.
    fn tell_tick(&mut self, world: WorldId, result: &TickResult, report: StepReport) -> (after:
        StepReport)
        requires
            old(self).wf(),
        ensures
            final(self).wf(),
            final(self).judged_as(*old(self)),
            goes_on(old(self)@.history, final(self)@.history),
            forall|h: Seq<Exchange>| #[trigger]
                extends(final(self)@.history, h) ==> (final(self)@, after) == old(
                    self,
                )@.tick_told(world, result@, report, h),
    {
        proof {
            reveal(GatewayView::tick_told);
        }
        let changes = if self.config.tick_update_changes() {
            duplicate_all(&result.changes)
        } else {
            Vec::new()
        };
        assert(views(changes@) =~= self@.tick_update(world, result@)->TickUpdate_changes);
        let events = duplicate_all(&result.events);
        let has_content = changes.len() > 0 || events.len() > 0;
        if !has_content && self.config.skip_empty_broadcast() {
            return report;
        }
        let message = ServerMessage::TickUpdate {
            world,
            tick: result.tick,
            tx_id: result.tx_id,
            changes,
            events,
        };
        let ids = self.attached_connections(world);
        self.broadcast(&ids, &message, report)
    }

    /// Fans one committed tick out.
    #[verifier::spinoff_prover]
    #[verifier::rlimit(40)]
    fn fan_out_world<R: SubscriptionHost>(
        &mut self,
        host: &mut R,
        world: WorldId,
        result: &TickResult,
        report: StepReport,
    ) -> (after: StepReport)
        requires
            old(self).wf(),
        ensures
            final(self).wf(),
            final(self).judged_as(*old(self)),
            extends(old(self)@.history, final(self)@.history),
            in_touch(
                old(host).exchanges(),
                host_part(old(self)@.history),
                final(host).exchanges(),
                host_part(final(self)@.history),
            ),
            forall|h: Seq<Exchange>| #[trigger]
                extends(final(self)@.history, h) ==> (final(self)@, after) == old(
                    self,
                )@.world_fanned_out(world, result@, report, h),
    {
        let mut tally = report;
        tally.worlds = count(tally.worlds);
        tally = self.tell_tick(world, result, tally);
        let ghost told = self@;
        let earlier: u64 = self.counters.subscription_messages_sent;
        if result.changes.len() > 0 {
            self.deliver_deltas(host, world);
        }
        let ghost delivered = self@;
        tally.subscription_messages_sent = advance(
            tally.subscription_messages_sent,
            earlier,
            self.counters.subscription_messages_sent,
        );
        self.route_results(world, &result.reducer_results);
        proof {
            extends_transitive(old(self)@.history, told.history, delivered.history);
            extends_transitive(old(self)@.history, delivered.history, self@.history);
        }
        assert forall|h: Seq<Exchange>| #[trigger] extends(
            self@.history,
            h,
        ) implies (self@, tally) == old(self)@.world_fanned_out(world, result@, report, h) by {
            reveal(GatewayView::world_fanned_out);
            extends_transitive(delivered.history, self@.history, h);
            extends_transitive(told.history, delivered.history, h);
        }
        tally
    }

    /// The pending calls whose world can produce no result any more, in
    /// ascending order.
    fn unresolved_calls(&self) -> (ids: Vec<u64>)
        ensures
            ids@ == ascending(self@.unresolved()),
            is_ascending(ids@),
            ids@.to_set() == self@.unresolved(),
    {
        let all = self.pending.keys();
        let mut ids: Vec<u64> = Vec::new();
        let ghost condition = |g: u64|
            self@.pending.contains_key(g) && !self@.runtime.ticks(self@.pending[g].world.0);
        proof {
            picking_starts(all@, condition);
        }
        let mut i: usize = 0;
        while i < all.len()
            invariant
                i <= all@.len(),
                is_ascending(all@),
                all@.to_set() == self@.pending.dom(),
                condition == (|g: u64|
                    self@.pending.contains_key(g) && !self@.runtime.ticks(
                        self@.pending[g].world.0,
                    )),
                picked(all@, i as int, ids@, condition),
            decreases all@.len() - i,
        {
            proof {
                picking_goes_on(all@, i as int, ids@, condition);
                assert(all@.to_set().contains(all@[i as int]));
            }
            if let Some(call) = self.pending.get(all[i]) {
                let running = match self.runtime.world_status(call.world) {
                    Ok(status) => status.state == WorldLifecycle::Running,
                    Err(_) => false,
                };
                if !running {
                    ids.push(all[i]);
                }
            }
            i = i + 1;
        }
        proof {
            let set = self@.unresolved();
            assert forall|x: u64| #[trigger]
                set.contains(x) <==> all@.contains(x) && condition(x) by {
                assert(all@.to_set().contains(x) == self@.pending.dom().contains(x));
            }
            picking_ends(all@, ids@, condition, set);
            assert(all@.take(all@.len() as int) =~= all@);
            assert(ids@.to_set() =~= set);
        }
        ids
    }

    /// Answers every pending call whose world no longer runs.
    #[verifier::spinoff_prover]
    #[verifier::rlimit(40)]
    fn abandon_calls(&mut self)
        requires
            old(self).wf(),
        ensures
            final(self).wf(),
            final(self).judged_as(*old(self)),
            goes_on(old(self)@.history, final(self)@.history),
            forall|h: Seq<Exchange>| #[trigger]
                extends(final(self)@.history, h) ==> final(self)@ == old(self)@.calls_abandoned(
                    ascending(old(self)@.unresolved()),
                    old(self)@.pending,
                    h,
                ),
    {
        let ids = self.unresolved_calls();
        let ghost calls = self@.pending;
        let list = self.calls_listed(&ids);
        assert forall|j: int| 0 <= j < ids@.len() implies calls.contains_key(#[trigger] ids@[j])
            && list@[j]@ == calls[ids@[j]] by {
            assert(self@.unresolved().contains(ids@[j])) by {
                assert(ids@.to_set().contains(ids@[j]));
            }
            let call = list@[j];
        }
        let mut i: usize = 0;
        assert(ids@.take(0) =~= Seq::empty());
        while i < ids.len()
            invariant
                i <= ids@.len(),
                self.wf(),
                self.judged_as(*old(self)),
                list@.len() == ids@.len(),
                is_ascending(ids@),
                calls == old(self)@.pending,
                forall|j: int|
                    0 <= j < list@.len() ==> calls.contains_key(ids@[j]) && (#[trigger] list@[j])@
                        == calls[ids@[j]],
                forall|g: u64| #[trigger]
                    self@.pending.contains_key(g) ==> calls.contains_key(g) && self@.pending[g]
                        == calls[g],
                forall|j: int|
                    i <= j < ids@.len() ==> self@.pending.contains_key(#[trigger] ids@[j])
                        || !self@.connections.contains_key(calls[ids@[j]].connection.0),
                goes_on(old(self)@.history, self@.history),
                forall|h: Seq<Exchange>| #[trigger]
                    extends(self@.history, h) ==> self@ == old(self)@.calls_abandoned(
                        ids@.take(i as int),
                        calls,
                        h,
                    ),
            decreases ids@.len() - i,
        {
            let ghost before = self@;
            let id: u64 = ids[i];
            assert(ids@.take(i + 1).drop_last() =~= ids@.take(i as int));
            let text = with_number(
                "world ",
                list[i].world.as_u64(),
                " is no longer running; the call could not commit",
            );
            let reply = ServerMessage::ReducerResult {
                request_id: list[i].client_request_id,
                ok: false,
                value: None,
                error: Some(text),
            };
            let ghost call = list@[i as int]@;
            proof {
                assert(self@.pending.contains_key(ids@[i as int])
                    || !self@.connections.contains_key(calls[ids@[i as int]].connection.0));
                if self@.pending.contains_key(id) {
                    forgetting_a_call_keeps_valid(self@, id);
                } else {
                    assert(self@.pending.remove(id) =~= self@.pending);
                    assert(self@.call_forgotten(id, call) == self@);
                }
            }
            let ghost forgotten = self@.call_forgotten(id, call);
            self.answer_call(id, &list[i], &reply);
            assert forall|j: int| i + 1 <= j < ids@.len() implies self@.pending.contains_key(
                #[trigger] ids@[j],
            ) || !self@.connections.contains_key(calls[ids@[j]].connection.0) by {
                assert(ids@[i as int] < ids@[j]);
                assert(before.pending.contains_key(ids@[j]) || !before.connections.contains_key(
                    calls[ids@[j]].connection.0,
                ));
                if before.pending.contains_key(ids@[j]) {
                    assert(forgotten.pending.contains_key(ids@[j]));
                } else {
                    assert(!forgotten.connections.contains_key(calls[ids@[j]].connection.0));
                }
            }
            assert forall|g: u64| #[trigger]
                self@.pending.contains_key(g) implies calls.contains_key(g) && self@.pending[g]
                == calls[g] by {
                assert(forgotten.pending.contains_key(g));
                assert(before.pending.contains_key(g));
            }
            assert forall|h: Seq<Exchange>| #[trigger] extends(
                self@.history,
                h,
            ) implies self@ == old(self)@.calls_abandoned(ids@.take(i + 1), calls, h) by {
                extends_transitive(before.history, self@.history, h);
            }
            proof {
                extends_transitive(old(self)@.history, before.history, self@.history);
            }
            i = i + 1;
        }
        assert(ids@.take(ids@.len() as int) =~= ids@);
    }

    /// The pending calls with the ids listed.
    fn calls_listed(&self, ids: &Vec<u64>) -> (list: Vec<PendingCall>)
        requires
            ids@.to_set().subset_of(self@.pending.dom()),
        ensures
            list@.len() == ids@.len(),
            forall|j: int|
                0 <= j < list@.len() ==> self@.pending.contains_key(ids@[j]) && (#[trigger] list@[
                j])@ == self@.pending[ids@[j]],
    {
        let mut list: Vec<PendingCall> = Vec::new();
        let mut i: usize = 0;
        while i < ids.len()
            invariant
                i <= ids@.len(),
                ids@.to_set().subset_of(self@.pending.dom()),
                list@.len() == i,
                forall|j: int|
                    0 <= j < list@.len() ==> self@.pending.contains_key(ids@[j]) && (
                    #[trigger] list@[j])@ == self@.pending[ids@[j]],
            decreases ids@.len() - i,
        {
            assert(ids@.to_set().contains(ids@[i as int]));
            if let Some(call) = self.pending.get(ids[i]) {
                list.push(*call);
            }
            i = i + 1;
        }
        list
    }

    /// Fans the results of one step out to the clients: per committed tick a
    /// broadcast to every attached session, subscription updates and
    /// reducer-call results; then every pending call whose world can no
    /// longer produce a result is answered with a failure, so no caller is
    /// left waiting, and the subscriptions of connections lost on the way
    /// end. Deterministic: connections ascending, subscriptions
    /// ascending, call order.
    pub fn fan_out_results<R: SubscriptionHost>(
        &mut self,
        host: &mut R,
        results: &Vec<(WorldId, TickResult)>,
    ) -> (report: StepReport)
        requires
            old(self).wf(),
        ensures
            final(self).wf(),
            final(self).judged_as(*old(self)),
            extends(old(self)@.history, final(self)@.history),
            in_touch(
                old(host).exchanges(),
                host_part(old(self)@.history),
                final(host).exchanges(),
                host_part(final(self)@.history),
            ),
            forall|h: Seq<Exchange>| #[trigger]
                extends(final(self)@.history, h) ==> (final(self)@, report) == old(
                    self,
                )@.fanned_out(results_view(results@), h),
    {
        proof {
            reveal(GatewayView::fanned_out);
        }
        let ghost all = results_view(results@);
        let mut report = StepReport {
            worlds: 0,
            tick_updates_sent: 0,
            subscription_messages_sent: 0,
            messages_dropped: 0,
        };
        let mut i: usize = 0;
        assert(all.take(0) =~= Seq::empty());
        while i < results.len()
            invariant
                i <= results@.len(),
                self.wf(),
                self.judged_as(*old(self)),
                all == results_view(results@),
                extends(old(self)@.history, self@.history),
                in_touch(
                    old(host).exchanges(),
                    host_part(old(self)@.history),
                    host.exchanges(),
                    host_part(self@.history),
                ),
                forall|h: Seq<Exchange>| #[trigger]
                    extends(self@.history, h) ==> (self@, report) == old(
                        self,
                    )@.worlds_fanned_out(all.take(i as int), h),
            decreases results@.len() - i,
        {
            let ghost before = self@;
            assert(all.take(i + 1).drop_last() =~= all.take(i as int));
            assert(all.take(i + 1).last() == (results@[i as int].0, results@[i as int].1@));
            report = self.fan_out_world(host, results[i].0, &results[i].1, report);
            assert forall|h: Seq<Exchange>| #[trigger] extends(
                self@.history,
                h,
            ) implies (self@, report) == old(self)@.worlds_fanned_out(all.take(i + 1), h) by {
                extends_transitive(before.history, self@.history, h);
            }
            proof {
                extends_transitive(old(self)@.history, before.history, self@.history);
            }
            i = i + 1;
        }
        assert(all.take(all.len() as int) =~= all);
        let ghost told = self@;
        self.abandon_calls();
        let ghost answered = self@;
        self.settle_ended(host);
        proof {
            extends_transitive(told.history, answered.history, self@.history);
            extends_transitive(old(self)@.history, told.history, self@.history);
        }
        assert forall|h: Seq<Exchange>| #[trigger] extends(
            self@.history,
            h,
        ) implies (self@, report) == old(self)@.fanned_out(all, h) by {
            extends_transitive(answered.history, self@.history, h);
            extends_transitive(told.history, answered.history, h);
        }
        report
    }

    /// Advances every running world by one tick, given how each tick ran, and
    /// fans the results out; then what is buffered is written.
    pub fn step_worlds<R: SubscriptionHost>(&mut self, host: &mut R, runs: Vec<TickRun>) -> (report:
        Result<StepReport, NetworkError>)
        requires
            old(self).wf(),
        ensures
            final(self).wf(),
            final(self).judged_as(*old(self)),
            extends(old(self)@.history, final(self)@.history),
            in_touch(
                old(host).exchanges(),
                host_part(old(self)@.history),
                final(host).exchanges(),
                host_part(final(self)@.history),
            ),
            match report {
                Ok(report) => old(self)@.runtime.running() && forall|h: Seq<Exchange>| #[trigger]
                    extends(final(self)@.history, h) ==> (final(self)@, report) == (GatewayView {
                        runtime: old(self)@.runtime.ticks_settled(views(runs@)).0,
                        ..old(self)@
                    }).stepped(old(self)@.runtime.committed_results(views(runs@)), h),
                Err(e) => !old(self)@.runtime.running() && final(self)@ == old(self)@ && e@
                    == NetworkErrorView::Runtime(RuntimeErrorView::Shutdown),
            },
    {
        let results = match self.runtime.step_detailed(runs) {
            Ok(results) => results,
            Err(error) => {
                return Err(NetworkError::Runtime(error));
            },
        };
        let ghost settled = self@;
        let report = self.fan_out_results(host, &results);
        let ghost told = self@;
        self.flush_connections();
        let ghost flushed = self@;
        self.settle_ended(host);
        proof {
            extends_transitive(settled.history, told.history, flushed.history);
            extends_transitive(settled.history, flushed.history, self@.history);
        }
        assert forall|h: Seq<Exchange>| #[trigger] extends(
            self@.history,
            h,
        ) implies (self@, report) == settled.stepped(results_view(results@), h) by {
            reveal(GatewayView::stepped);
            extends_transitive(flushed.history, self@.history, h);
            extends_transitive(told.history, flushed.history, h);
        }
        Ok(report)
    }

    /// Every subscription, connections ascending, then subscriptions
    /// ascending.
    fn all_subscriptions(&self) -> (list: Vec<(ConnectionId, WorldId, SubscriptionId)>)
        ensures
            list@ == self@.subscriptions_of(ascending(self@.connections.dom())),
    {
        let ids = self.connections.keys();
        let mut list: Vec<(ConnectionId, WorldId, SubscriptionId)> = Vec::new();
        let mut i: usize = 0;
        assert(ids@.take(0) =~= Seq::empty());
        while i < ids.len()
            invariant
                i <= ids@.len(),
                ids@.to_set() == self@.connections.dom(),
                list@ == self@.subscriptions_of(ids@.take(i as int)),
            decreases ids@.len() - i,
        {
            assert(ids@.take(i + 1).drop_last() =~= ids@.take(i as int));
            assert(ids@.to_set().contains(ids@[i as int]));
            if let Some(entry) = self.connections.get(ids[i]) {
                let ghost before = list@;
                let keys = entry.subscriptions.keys();
                let ghost own = ended_of(entry.subscriptions@);
                let ghost tail = Seq::new(
                    own.len(),
                    |k: int| (ConnectionId(ids@[i as int]), own[k].0, own[k].1),
                );
                let mut j: usize = 0;
                assert(before + tail.take(0) =~= before);
                while j < keys.len()
                    invariant
                        j <= keys@.len(),
                        keys@ == ascending(entry.subscriptions@.dom()),
                        keys@.to_set() == entry.subscriptions@.dom(),
                        own == ended_of(entry.subscriptions@),
                        tail == Seq::new(
                            own.len(),
                            |k: int| (ConnectionId(ids@[i as int]), own[k].0, own[k].1),
                        ),
                        i < ids@.len(),
                        list@ == before + tail.take(j as int),
                    decreases keys@.len() - j,
                {
                    assert(keys@.to_set().contains(keys@[j as int]));
                    if let Some(world) = entry.subscriptions.get(keys[j]) {
                        list.push(
                            (
                                ConnectionId::from_u64(ids[i]),
                                *world,
                                SubscriptionId::from_u64(keys[j]),
                            ),
                        );
                        assert(list@ =~= before + tail.take(j + 1));
                    }
                    j = j + 1;
                }
                assert(tail.take(tail.len() as int) =~= tail);
            }
            i = i + 1;
        }
        assert(ids@.take(ids@.len() as int) =~= ids@);
        list
    }

    /// Drains every network subscription, for when no tick ran. Yields the
    /// number of messages sent.
    #[verifier::spinoff_prover]
    #[verifier::rlimit(40)]
    pub fn pump_subscriptions<R: SubscriptionHost>(&mut self, host: &mut R) -> (sent: u64)
        requires
            old(self).wf(),
        ensures
            final(self).wf(),
            final(self).judged_as(*old(self)),
            extends(old(self)@.history, final(self)@.history),
            in_touch(
                old(host).exchanges(),
                host_part(old(self)@.history),
                final(host).exchanges(),
                host_part(final(self)@.history),
            ),
            forall|h: Seq<Exchange>| #[trigger]
                extends(final(self)@.history, h) ==> (final(self)@, sent) == old(
                    self,
                )@.subscriptions_pumped(h),
    {
        proof {
            reveal(GatewayView::subscriptions_pumped);
        }
        let list = self.all_subscriptions();
        let earlier: u64 = self.counters.subscription_messages_sent;
        let mut i: usize = 0;
        assert(list@.take(0) =~= Seq::empty());
        while i < list.len()
            invariant
                i <= list@.len(),
                self.wf(),
                self.judged_as(*old(self)),
                extends(old(self)@.history, self@.history),
                in_touch(
                    old(host).exchanges(),
                    host_part(old(self)@.history),
                    host.exchanges(),
                    host_part(self@.history),
                ),
                forall|h: Seq<Exchange>| #[trigger]
                    extends(self@.history, h) ==> self@ == old(self)@.all_pumped(
                        list@.take(i as int),
                        h,
                    ),
            decreases list@.len() - i,
        {
            let ghost before = self@;
            assert(list@.take(i + 1).drop_last() =~= list@.take(i as int));
            let (c, world, subscription) = list[i];
            self.pump_subscription(host, c, world, subscription, 0);
            assert forall|h: Seq<Exchange>| #[trigger] extends(
                self@.history,
                h,
            ) implies self@ == old(self)@.all_pumped(list@.take(i + 1), h) by {
                extends_transitive(before.history, self@.history, h);
            }
            proof {
                extends_transitive(old(self)@.history, before.history, self@.history);
            }
            i = i + 1;
        }
        assert(list@.take(list@.len() as int) =~= list@);
        let ghost pumped = self@;
        let sent: u64 = advance(0, earlier, self.counters.subscription_messages_sent);
        self.flush_connections();
        let ghost flushed = self@;
        self.settle_ended(host);
        proof {
            extends_transitive(old(self)@.history, pumped.history, flushed.history);
            extends_transitive(old(self)@.history, flushed.history, self@.history);
        }
        assert forall|h: Seq<Exchange>| #[trigger] extends(
            self@.history,
            h,
        ) implies (self@, sent) == old(self)@.subscriptions_pumped(h) by {
            extends_transitive(flushed.history, self@.history, h);
            extends_transitive(pumped.history, flushed.history, h);
        }
        sent
    }
}

/// The calls that wait in a gateway after messages were sent: none is new,
/// and those that are gone went with their connection.
pub open spec fn keeps_calls(before: GatewayView, after: GatewayView) -> bool {
    &&& forall|g: u64| #[trigger]
        after.pending.contains_key(g) ==> before.pending.contains_key(g) && after.pending[g]
            == before.pending[g]
    &&& forall|g: u64| #[trigger]
        before.pending.contains_key(g) && !after.pending.contains_key(g)
            ==> !after.connections.contains_key(before.pending[g].connection.0)
    &&& forall|c: u64| #[trigger]
        after.connections.contains_key(c) ==> before.connections.contains_key(c)
    &&& after.runtime == before.runtime
}

/// Advances a total by as much as a counter went from one value to another.
fn advance(total: u64, earlier: u64, later: u64) -> (advanced_total: u64)
    ensures
        advanced_total == advanced(total, earlier, later),
{
    total.wrapping_add(later.wrapping_sub(earlier))
}

/// Whether a table holds a world.
fn holds_world(table: &Table<WorldId>, world: WorldId) -> (found: bool)
    ensures
        found == exists|s: u64| #[trigger] table@.contains_key(s) && table@[s] == world,
{
    let keys = table.keys();
    let mut i: usize = 0;
    while i < keys.len()
        invariant
            i <= keys@.len(),
            keys@.to_set() == table@.dom(),
            forall|j: int| 0 <= j < i ==> table@[#[trigger] keys@[j]] != world,
        decreases keys@.len() - i,
    {
        assert(keys@.to_set().contains(keys@[i as int]));
        if let Some(on) = table.get(keys[i]) {
            if *on == world {
                assert(table@.contains_key(keys@[i as int]));
                return true;
            }
        }
        i = i + 1;
    }
    assert forall|s: u64| #[trigger] table@.contains_key(s) implies table@[s] != world by {
        assert(keys@.to_set().contains(s));
        let j = keys@.index_of(s);
        assert(table@[keys@[j]] != world);
    }
    false
}

/// Where a subscription's updates stand among those drained.
fn find_updates(drained: &Vec<PendingUpdates>, subscription: SubscriptionId) -> (at: Option<usize>)
    ensures
        match at {
            Some(at) => at < drained@.len() && updates_for(views(drained@), subscription) == Some(
                views(drained@[at as int].updates@),
            ),
            None => updates_for(views(drained@), subscription) is None,
        },
{
    let ghost all = views(drained@);
    let mut n: usize = drained.len();
    assert(all.take(all.len() as int) =~= all);
    while n > 0
        invariant
            n <= drained@.len(),
            all == views(drained@),
            updates_for(all, subscription) == updates_for(all.take(n as int), subscription),
        decreases n,
    {
        assert(all.take(n as int).drop_last() =~= all.take(n - 1));
        assert(all.take(n as int).last() == drained@[n - 1]@);
        n = n - 1;
        if drained[n].subscription == subscription {
            return Some(n);
        }
    }
    None
}

/// The answer to a reducer call.
fn reply_to_call(client_request_id: u64, result: &CallResult) -> (reply: ServerMessage)
    ensures
        reply@ == GatewayView::call_reply(client_request_id, result@.outcome),
        server_encodable(reply@),
{
    match &result.outcome {
        Ok(value) => ServerMessage::ReducerResult {
            request_id: client_request_id,
            ok: true,
            value: Some(value.clone()),
            error: None,
        },
        Err(error) => ServerMessage::ReducerResult {
            request_id: client_request_id,
            ok: false,
            value: None,
            error: Some(error.to_text()),
        },
    }
}

} // verus!
