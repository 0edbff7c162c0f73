//! The gateway's events and metrics.

use vstd::prelude::*;

use crate::base::ids::WorldId;
use crate::base::table::{ascending, is_ascending, put_back, tally, tally_counts, Table};
use crate::base::value::views;
use crate::network::auth::Authenticator;
use crate::network::config::NetworkEvent;
use crate::network::gateway::NetworkGateway;
use crate::network::gateway_model::GatewayView;
use crate::network::metrics::{GatewayStepProfile, NetworkMetrics};
use crate::network::policy::GamePolicy;
use crate::network::transport::Connection;
use crate::runtime::report::wrapped_sum;

verus! {

broadcast use put_back;

/// The ids of the worlds of a listing.
pub open spec fn world_keys(list: Seq<(WorldId, u64)>) -> Seq<u64> {
    Seq::new(list.len(), |i: int| list[i].0.0)
}

impl GatewayView {
    /// The connections with a session.
    pub open spec fn with_sessions(self) -> Set<u64> {
        Set::new(|c: u64| self.connections.contains_key(c) && self.connections[c].session is Some)
    }

    /// The connections whose session is attached to a world.
    pub open spec fn with_worlds(self) -> Set<u64> {
        Set::new(|c: u64| self.connections.contains_key(c) && self.connections[c].world() is Some)
    }

    /// The connections that are stale.
    pub open spec fn with_stale_sessions(self) -> Set<u64> {
        Set::new(|c: u64| self.connections.contains_key(c) && self.connections[c].stale)
    }

    /// The number of subscriptions of several connections, modulo the range
    /// of a machine word.
    pub open spec fn subscription_total(self, ids: Seq<u64>) -> usize
        decreases ids.len(),
    {
        if ids.len() == 0 {
            0
        } else {
            wrapped_sum(
                self.subscription_total(ids.drop_last()),
                self.connections[ids.last()].subscriptions.len() as usize,
            )
        }
    }

    /// A metrics snapshot of the gateway: its counters, and the gauges as
    /// they stand. The worlds that have attached connections are listed in
    /// ascending order, each with their number.
    pub open spec fn measured(self, metrics: NetworkMetrics) -> bool {
        &&& metrics.counters() == self.counters
        &&& metrics.last_step == GatewayStepProfile::zero()
        &&& metrics.connections == self.connections.len()
        &&& metrics.sessions == self.with_sessions().len()
        &&& metrics.attached == self.with_worlds().len()
        &&& metrics.subscriptions == self.subscription_total(ascending(self.connections.dom()))
        &&& metrics.sessions_stale == self.with_stale_sessions().len()
        &&& is_ascending(world_keys(metrics.connections_per_world@))
        &&& forall|i: int|
            0 <= i < metrics.connections_per_world@.len() ==> {
                let (world, connections) = #[trigger] metrics.connections_per_world@[i];
                connections > 0 && connections == self.attached_to(world).len()
            }
        &&& forall|world: WorldId|
            self.attached_to(world).len() > 0 ==> exists|i: int|
                0 <= i < metrics.connections_per_world@.len() && (
                #[trigger] metrics.connections_per_world@[i]).0 == world
    }
}

impl<C: Connection, A: Authenticator, P: GamePolicy> NetworkGateway<C, A, P> {
    /// Takes every buffered event in order, clearing the log.
    pub fn drain_events(&mut self) -> (events: Vec<NetworkEvent>)
        requires
            old(self).wf(),
        ensures
            final(self).wf(),
            final(self).judged_as(*old(self)),
            views(events@) == old(self)@.events,
            final(self)@ == (GatewayView { events: Seq::empty(), ..old(self)@ }),
    {
        self.events.drain()
    }

    /// The number of buffered events.
    pub fn event_count(&self) -> (count: usize)
        ensures
            count == self@.events.len(),
    {
        self.events.len()
    }

    /// The number of connections attached to each world that has any.
    fn attached_counts(&self) -> (counts: Table<u64>)
        requires
            self.wf(),
        ensures
            forall|w: u64| #[trigger]
                counts@.contains_key(w) <==> self@.attached_to(WorldId(w)).len() > 0,
            forall|w: u64| #[trigger]
                counts@.contains_key(w) ==> counts@[w] == self@.attached_to(WorldId(w)).len(),
    {
        let ids = self.connections.keys();
        let ghost on = |w: u64| (|c: u64| self@.connections[c].world() == Some(WorldId(w)));
        let mut counts: Table<u64> = Table::new();
        let mut i: usize = 0;
        assert(ids@.take(0) =~= Seq::empty());
        while i < ids.len()
            invariant
                i <= ids@.len(),
                ids@.to_set() == self@.connections.dom(),
                on == (|w: u64| (|c: u64| self@.connections[c].world() == Some(WorldId(w)))),
                forall|w: u64| #[trigger]
                    counts@.contains_key(w) <==> tally(ids@.take(i as int), on(w)) > 0,
                forall|w: u64| #[trigger]
                    counts@.contains_key(w) ==> counts@[w] == tally(ids@.take(i as int), on(w)),
                forall|w: u64| #[trigger] tally(ids@.take(i as int), on(w)) <= i,
            decreases ids@.len() - i,
        {
            let ghost key = ids@[i as int];
            let ghost earlier = counts@;
            proof {
                assert(ids@.take(i + 1).drop_last() =~= ids@.take(i as int));
                assert(ids@.to_set().contains(key));
                assert forall|w: u64| #[trigger]
                    tally(ids@.take(i + 1), on(w)) == tally(ids@.take(i as int), on(w)) + (if (
                    on(w))(key) {
                        1nat
                    } else {
                        0nat
                    }) by {
                    assert(ids@.take(i + 1).last() == key);
                }
                assert forall|w: u64| #[trigger] tally(ids@.take(i + 1), on(w)) <= i + 1 by {
                    assert(tally(ids@.take(i as int), on(w)) <= i);
                }
            }
            if let Some(entry) = self.connections.get(ids[i]) {
                if let Some(session) = &entry.session {
                    if let Some(world) = session.attached_world() {
                        let before: u64 = match counts.get(world.as_u64()) {
                            Some(n) => *n,
                            None => 0,
                        };
                        proof {
                            let w = world.0;
                            assert(tally(ids@.take(i as int), on(w)) <= i);
                            assert(counts@.contains_key(w) <==> tally(ids@.take(i as int), on(w))
                                > 0);
                        }
                        counts.insert(world.as_u64(), before.wrapping_add(1));
                    }
                }
            }
            proof {
                assert forall|w: u64| #[trigger]
                    counts@.contains_key(w) <==> tally(ids@.take(i + 1), on(w)) > 0 by {
                    assert(earlier.contains_key(w) <==> tally(ids@.take(i as int), on(w)) > 0);
                }
                assert forall|w: u64| #[trigger] counts@.contains_key(w) implies counts@[w]
                    == tally(ids@.take(i + 1), on(w)) by {
                    assert(earlier.contains_key(w) <==> tally(ids@.take(i as int), on(w)) > 0);
                }
            }
            i = i + 1;
        }
        proof {
            assert(ids@.take(ids@.len() as int) =~= ids@);
            assert forall|w: u64|
                #[trigger] self@.attached_to(WorldId(w)).len() == tally(ids@, on(w)) by {
                tally_counts(ids@, on(w));
                assert(self@.attached_to(WorldId(w)) =~= Set::new(
                    |c: u64| ids@.contains(c) && (on(w))(c),
                )) by {
                    assert forall|c: u64| ids@.contains(c) == self@.connections.contains_key(c) by {
                        assert(ids@.to_set().contains(c) == self@.connections.dom().contains(c));
                    }
                }
            }
        }
        counts
    }

    /// A point-in-time metrics snapshot: the gauges are derived from the live
    /// connections; the counters only grow.
    pub fn metrics(&self) -> (metrics: NetworkMetrics)
        requires
            self.wf(),
        ensures
            self@.measured(metrics),
            self@.with_sessions().finite(),
            self@.with_worlds().finite(),
            self@.with_stale_sessions().finite(),
    {
        let mut metrics = NetworkMetrics::of(self.counters);
        metrics.connections = self.connections.len();
        let ids = self.connections.keys();
        let ghost known = |c: u64| self@.connections[c].session is Some;
        let ghost attached = |c: u64| self@.connections[c].world() is Some;
        let ghost stale = |c: u64| self@.connections[c].stale;
        let mut i: usize = 0;
        assert(ids@.take(0) =~= Seq::empty());
        while i < ids.len()
            invariant
                i <= ids@.len(),
                ids@.to_set() == self@.connections.dom(),
                known == (|c: u64| self@.connections[c].session is Some),
                attached == (|c: u64| self@.connections[c].world() is Some),
                stale == (|c: u64| self@.connections[c].stale),
                metrics.counters() == self@.counters,
                metrics.last_step == GatewayStepProfile::zero(),
                metrics.connections == self@.connections.len(),
                metrics.connections_per_world@.len() == 0,
                metrics.sessions == tally(ids@.take(i as int), known) <= i,
                metrics.attached == tally(ids@.take(i as int), attached) <= i,
                metrics.sessions_stale == tally(ids@.take(i as int), stale) <= i,
                metrics.subscriptions == self@.subscription_total(ids@.take(i as int)),
            decreases ids@.len() - i,
        {
            proof {
                assert(ids@.take(i + 1).drop_last() =~= ids@.take(i as int));
                assert(ids@.to_set().contains(ids@[i as int]));
            }
            if let Some(entry) = self.connections.get(ids[i]) {
                if let Some(session) = &entry.session {
                    metrics.sessions = metrics.sessions + 1;
                    if session.attached_world().is_some() {
                        metrics.attached = metrics.attached + 1;
                    }
                }
                if entry.stale {
                    metrics.sessions_stale = metrics.sessions_stale + 1;
                }
                metrics.subscriptions = metrics.subscriptions.wrapping_add(
                    entry.subscriptions.len(),
                );
            }
            i = i + 1;
        }
        proof {
            assert(ids@.take(ids@.len() as int) =~= ids@);
            assert forall|c: u64| ids@.contains(c) == self@.connections.contains_key(c) by {
                assert(ids@.to_set().contains(c) == self@.connections.dom().contains(c));
            }
            tally_counts(ids@, known);
            tally_counts(ids@, attached);
            tally_counts(ids@, stale);
            assert(self@.with_sessions() =~= Set::new(|c: u64| ids@.contains(c) && known(c)));
            assert(self@.with_worlds() =~= Set::new(|c: u64| ids@.contains(c) && attached(c)));
            assert(self@.with_stale_sessions() =~= Set::new(
                |c: u64| ids@.contains(c) && stale(c),
            ));
        }
        let ghost gauges = metrics;
        let counts = self.attached_counts();
        let worlds = counts.keys();
        let mut list: Vec<(WorldId, u64)> = Vec::new();
        let mut j: usize = 0;
        while j < worlds.len()
            invariant
                j <= worlds@.len(),
                worlds@.to_set() == counts@.dom(),
                list@.len() == j,
                forall|k: int|
                    0 <= k < j ==> counts@.contains_key(worlds@[k]) && #[trigger] list@[k] == (
                        WorldId(worlds@[k]),
                        counts@[worlds@[k]],
                    ),
            decreases worlds@.len() - j,
        {
            assert(worlds@.to_set().contains(worlds@[j as int]));
            if let Some(n) = counts.get(worlds[j]) {
                list.push((WorldId::from_u64(worlds[j]), *n));
            }
            j = j + 1;
        }
        metrics.connections_per_world = list;
        proof {
            assert forall|i: int| 0 <= i < list@.len() implies {
                let (world, connections) = #[trigger] list@[i];
                connections > 0 && connections == self@.attached_to(world).len()
            } by {
                assert(counts@.contains_key(worlds@[i]));
            }
            assert(world_keys(list@) =~= worlds@);
            assert forall|world: WorldId| self@.attached_to(world).len() > 0 implies exists|i: int|
                0 <= i < list@.len() && (#[trigger] list@[i]).0 == world by {
                assert(world == WorldId(world.0));
                assert(counts@.contains_key(world.0));
                assert(worlds@.to_set().contains(world.0));
                let i = worlds@.index_of(world.0);
                assert(list@[i].0 == world);
            }
            assert(metrics.counters() == self@.counters);
            assert(self@.measured(metrics));
        }
        metrics
    }
}

/// The gauges of a measurement are counts of connections: all of them, those
/// with a session, those whose session is attached to a world, and those that
/// have fallen behind; per world, those attached to it.
pub proof fn gauges_count_connections(gateway: GatewayView, metrics: NetworkMetrics, world: WorldId)
    requires
        gateway.measured(metrics),
    ensures
        metrics.connections == gateway.connections.dom().len(),
        metrics.sessions == gateway.connections.dom().filter(
            |c: u64| gateway.connections[c].session is Some,
        ).len(),
        metrics.attached == gateway.connections.dom().filter(
            |c: u64|
                gateway.connections[c].session is Some
                    && gateway.connections[c].session->0.attached_world is Some,
        ).len(),
        metrics.sessions_stale == gateway.connections.dom().filter(
            |c: u64| gateway.connections[c].stale,
        ).len(),
        forall|i: int|
            0 <= i < metrics.connections_per_world@.len() && (
            #[trigger] metrics.connections_per_world@[i]).0 == world
                ==> metrics.connections_per_world@[i].1 == gateway.connections.dom().filter(
                |c: u64|
                    gateway.connections[c].session is Some
                        && gateway.connections[c].session->0.attached_world == Some(world),
            ).len(),
{
    let dom = gateway.connections.dom();
    assert(gateway.with_sessions() =~= dom.filter(
        |c: u64| gateway.connections[c].session is Some,
    ));
    assert(gateway.with_worlds() =~= dom.filter(
        |c: u64|
            gateway.connections[c].session is Some
                && gateway.connections[c].session->0.attached_world is Some,
    ));
    assert(gateway.with_stale_sessions() =~= dom.filter(|c: u64| gateway.connections[c].stale));
    assert(gateway.attached_to(world) =~= dom.filter(
        |c: u64|
            gateway.connections[c].session is Some
                && gateway.connections[c].session->0.attached_world == Some(world),
    ));
}

} // verus!
