//! Laws of the order of ticks: however many workers there are, and in
//! whatever order their worlds are visited, the worlds' ticks take in the
//! same, the worlds end up the same, and their queues hold the same messages.

use vstd::prelude::*;

use crate::base::ids::WorldId;
use crate::base::message::PartitionMessageView;
use crate::runtime::config::RuntimeConfigView;
use crate::runtime::laws::{
    arrival_never_enters_a_tick, delivery_splits_the_queue, distinct_keys, filtered_multiset,
    inputs_taken_elsewhere, same_routes_same_partition, tick_order_lists_every_world_once,
};
use crate::runtime::model::{delivers_to, partition_of, RuntimeView};
use crate::runtime::partition::{deliverable, undeliverable};
use crate::runtime::tick::{TickAnswersView, TickInputView, TickRunView};
use crate::runtime::world::WorldView;

verus! {

/// Two worlds that differ at most in the worker that owns them.
pub open spec fn same_world(a: WorldView, b: WorldView) -> bool {
    a == (WorldView { worker: a.worker, ..b })
}

/// Two configurations that differ at most in the number of workers.
pub open spec fn same_rules(a: RuntimeConfigView, b: RuntimeConfigView) -> bool {
    a == (RuntimeConfigView { worker_count: a.worker_count, ..b })
}

/// Two runtimes that differ at most in their workers, in the order in which
/// messages wait, and in their logs and counters.
pub open spec fn alike_but_for_workers(a: RuntimeView, b: RuntimeView) -> bool {
    &&& a.state == b.state
    &&& same_rules(a.config, b.config)
    &&& forall|w: u64| #[trigger] a.worlds.contains_key(w) <==> b.worlds.contains_key(w)
    &&& forall|w: u64| #[trigger]
        a.worlds.contains_key(w) ==> same_world(a.worlds[w], b.worlds[w])
    &&& forall|p: u64| #[trigger] a.partitions.contains_key(p) <==> b.partitions.contains_key(p)
    &&& forall|p: u64| #[trigger]
        a.partitions.contains_key(p) ==> a.partitions[p].world == b.partitions[p].world
            && a.partitions[p].inbound.to_multiset() == b.partitions[p].inbound.to_multiset()
}

/// The messages among some that are for a partition, in order.
pub open spec fn addressed(messages: Seq<PartitionMessageView>, p: u64) -> Seq<PartitionMessageView>
    decreases messages.len(),
{
    if messages.len() == 0 {
        Seq::empty()
    } else {
        let earlier = addressed(messages.drop_last(), p);
        if messages.last().to.0 == p {
            earlier.push(messages.last())
        } else {
            earlier
        }
    }
}

/// The messages for a partition among two lists are those among the first,
/// then those among the second.
pub proof fn addressed_splits(
    a: Seq<PartitionMessageView>,
    b: Seq<PartitionMessageView>,
    p: u64,
)
    ensures
        addressed(a + b, p) == addressed(a, p) + addressed(b, p),
    decreases b.len(),
{
    if b.len() == 0 {
        assert(a + b =~= a);
        assert(addressed(a, p) + addressed(b, p) =~= addressed(a, p));
    } else {
        addressed_splits(a, b.drop_last(), p);
        assert((a + b).drop_last() =~= a + b.drop_last());
        assert((a + b).last() == b.last());
        assert(addressed(a + b, p) =~= addressed(a, p) + addressed(b, p));
    }
}

/// The messages that leave a tick that was run: those of a committed and
/// durable one.
pub open spec fn leaving(runtime: RuntimeView, run: TickRunView) -> Seq<PartitionMessageView> {
    if !runtime.running() || !runtime.worlds.contains_key(run.input.world.0) {
        Seq::empty()
    } else {
        match run.answers.outcome {
            Ok(result) => if runtime.durable(run) {
                result.outbound
            } else {
                Seq::empty()
            },
            Err(_) => Seq::empty(),
        }
    }
}

/// The messages that leave several ticks, in order.
pub open spec fn all_leaving(runtime: RuntimeView, runs: Seq<TickRunView>) -> Seq<
    PartitionMessageView,
>
    decreases runs.len(),
{
    if runs.len() == 0 {
        Seq::empty()
    } else {
        all_leaving(runtime, runs.drop_last()) + leaving(runtime, runs.last())
    }
}

/// Two runtimes agree on what decides which messages leave a tick.
pub open spec fn same_standing(a: RuntimeView, b: RuntimeView) -> bool {
    &&& a.state == b.state
    &&& forall|w: u64| #[trigger] a.worlds.contains_key(w) <==> b.worlds.contains_key(w)
    &&& forall|w: u64| #[trigger]
        a.worlds.contains_key(w) ==> a.worlds[w].persistent == b.worlds[w].persistent
}

/// Which messages leave a tick depends on the standing of the runtime alone.
pub proof fn same_leave(a: RuntimeView, b: RuntimeView, runs: Seq<TickRunView>)
    requires
        same_standing(a, b),
    ensures
        all_leaving(a, runs) == all_leaving(b, runs),
    decreases runs.len(),
{
    if runs.len() > 0 {
        same_leave(a, b, runs.drop_last());
        let w = runs.last().input.world.0;
        assert(a.worlds.contains_key(w) <==> b.worlds.contains_key(w));
    }
}

/// Queueing messages adds and moves no partition, and touches no world.
pub proof fn queueing_keeps(runtime: RuntimeView, messages: Seq<PartitionMessageView>)
    ensures
        ({
            let after = runtime.messages_enqueued(messages);
            &&& after.worlds == runtime.worlds
            &&& after.config == runtime.config
            &&& after.state == runtime.state
            &&& forall|p: u64| #[trigger]
                after.partitions.contains_key(p) <==> runtime.partitions.contains_key(p)
            &&& forall|p: u64| #[trigger]
                runtime.partitions.contains_key(p) ==> after.partitions[p].world
                    == runtime.partitions[p].world
        }),
    decreases messages.len(),
{
    if messages.len() > 0 {
        queueing_keeps(runtime, messages.drop_last());
    }
}

/// Queueing messages puts those for a partition, in order, at the end of its
/// queue, if there is room.
pub proof fn queueing_appends(runtime: RuntimeView, messages: Seq<PartitionMessageView>, p: u64)
    requires
        runtime.partitions.contains_key(p),
        runtime.partitions[p].inbound.len() + addressed(messages, p).len()
            <= runtime.config.max_queued_partition_messages,
    ensures
        runtime.messages_enqueued(messages).partitions[p].inbound == runtime.partitions[p].inbound
            + addressed(messages, p),
    decreases messages.len(),
{
    let start = runtime.partitions[p].inbound;
    if messages.len() == 0 {
        assert(start + addressed(messages, p) =~= start);
    } else {
        queueing_keeps(runtime, messages.drop_last());
        queueing_appends(runtime, messages.drop_last(), p);
        assert(runtime.messages_enqueued(messages).partitions[p].inbound =~= start + addressed(
            messages,
            p,
        ));
    }
}

proof fn queueing_is_local(a: RuntimeView, b: RuntimeView, messages: Seq<PartitionMessageView>)
    requires
        a.partitions == b.partitions,
        a.config == b.config,
    ensures
        a.messages_enqueued(messages).partitions == b.messages_enqueued(messages).partitions,
    decreases messages.len(),
{
    if messages.len() > 0 {
        queueing_is_local(a, b, messages.drop_last());
        queueing_keeps(a, messages.drop_last());
        queueing_keeps(b, messages.drop_last());
    }
}

proof fn settling_one(runtime: RuntimeView, run: TickRunView)
    ensures
        ({
            let after = runtime.tick_settled(run).0;
            &&& same_standing(runtime, after)
            &&& after.config == runtime.config
            &&& after.partitions == runtime.messages_enqueued(leaving(runtime, run)).partitions
            &&& forall|w: u64|
                w != run.input.world.0 ==> #[trigger] after.worlds[w] == runtime.worlds[w]
        }),
{
    if runtime.running() && runtime.worlds.contains_key(run.input.world.0) {
        if let Ok(result) = run.answers.outcome {
            let done = runtime.tick_completed(run, result);
            let appended = done.tick_appended(run.input.world, run.answers.snapshot_written);
            queueing_keeps(done, result.outbound);
            queueing_keeps(appended, result.outbound);
            queueing_is_local(runtime, done, result.outbound);
            queueing_is_local(runtime, appended, result.outbound);
        }
    }
}

proof fn settling_is_local(a: RuntimeView, b: RuntimeView, run: TickRunView)
    requires
        a.state == b.state,
        same_rules(a.config, b.config),
        a.worlds.contains_key(run.input.world.0),
        b.worlds.contains_key(run.input.world.0),
        same_world(a.worlds[run.input.world.0], b.worlds[run.input.world.0]),
    ensures
        same_world(
            a.tick_settled(run).0.worlds[run.input.world.0],
            b.tick_settled(run).0.worlds[run.input.world.0],
        ),
        a.tick_settled(run).1 == b.tick_settled(run).1,
{
    if let Ok(result) = run.answers.outcome {
        let world = run.input.world;
        let written = run.answers.snapshot_written;
        queueing_keeps(a.tick_completed(run, result), result.outbound);
        queueing_keeps(b.tick_completed(run, result), result.outbound);
        queueing_keeps(
            a.tick_completed(run, result).tick_appended(world, written),
            result.outbound,
        );
        queueing_keeps(
            b.tick_completed(run, result).tick_appended(world, written),
            result.outbound,
        );
    }
}

/// Settling ticks keeps the standing of the runtime, and adds and moves no
/// partition.
pub proof fn settling_all(runtime: RuntimeView, runs: Seq<TickRunView>)
    ensures
        ({
            let after = runtime.ticks_settled(runs).0;
            &&& same_standing(runtime, after)
            &&& after.config == runtime.config
            &&& forall|p: u64| #[trigger]
                after.partitions.contains_key(p) <==> runtime.partitions.contains_key(p)
            &&& forall|p: u64| #[trigger]
                runtime.partitions.contains_key(p) ==> after.partitions[p].world
                    == runtime.partitions[p].world
        }),
    decreases runs.len(),
{
    if runs.len() > 0 {
        settling_all(runtime, runs.drop_last());
        let before = runtime.ticks_settled(runs.drop_last()).0;
        settling_one(before, runs.last());
        queueing_keeps(before, leaving(before, runs.last()));
        let after = runtime.ticks_settled(runs).0;
        assert forall|w: u64| #[trigger]
            runtime.worlds.contains_key(w) implies runtime.worlds[w].persistent
            == after.worlds[w].persistent by {
            assert(before.worlds.contains_key(w));
        }
        assert forall|p: u64| #[trigger]
            runtime.partitions.contains_key(p) implies after.partitions[p].world
            == runtime.partitions[p].world by {
            assert(before.partitions.contains_key(p));
        }
    }
}

/// Settling ticks puts the messages that leave them for a partition, in order,
/// at the end of its queue, if there is room.
pub proof fn settling_appends(runtime: RuntimeView, runs: Seq<TickRunView>, p: u64)
    requires
        runtime.partitions.contains_key(p),
        runtime.partitions[p].inbound.len() + addressed(all_leaving(runtime, runs), p).len()
            <= runtime.config.max_queued_partition_messages,
    ensures
        runtime.ticks_settled(runs).0.partitions[p].inbound == runtime.partitions[p].inbound
            + addressed(all_leaving(runtime, runs), p),
    decreases runs.len(),
{
    let start = runtime.partitions[p].inbound;
    if runs.len() == 0 {
        assert(start + addressed(all_leaving(runtime, runs), p) =~= start);
    } else {
        let shorter = runs.drop_last();
        let before = runtime.ticks_settled(shorter).0;
        let last = leaving(runtime, runs.last());
        addressed_splits(all_leaving(runtime, shorter), last, p);
        settling_appends(runtime, shorter, p);
        settling_all(runtime, shorter);
        settling_one(before, runs.last());
        assert(leaving(before, runs.last()) == last) by {
            let w = runs.last().input.world.0;
            assert(runtime.worlds.contains_key(w) <==> before.worlds.contains_key(w));
        }
        queueing_appends(before, last, p);
        assert((start + addressed(all_leaving(runtime, shorter), p)) + addressed(last, p) =~= start
            + (addressed(all_leaving(runtime, shorter), p) + addressed(last, p)));
    }
}

/// No two of some ticks are of the same world.
pub open spec fn distinct_worlds(runs: Seq<TickRunView>) -> bool {
    forall|i: int, j: int|
        #![trigger runs[i], runs[j]]
        0 <= i < j < runs.len() ==> runs[i].input.world != runs[j].input.world
}

proof fn shorter_is_distinct(runs: Seq<TickRunView>)
    requires
        distinct_worlds(runs),
        runs.len() > 0,
    ensures
        distinct_worlds(runs.drop_last()),
{
    let shorter = runs.drop_last();
    assert forall|i: int, j: int|
        #![trigger shorter[i], shorter[j]]
        0 <= i < j < shorter.len() implies shorter[i].input.world != shorter[j].input.world by {
        assert(runs[i].input.world != runs[j].input.world);
    }
}

proof fn settling_elsewhere(runtime: RuntimeView, runs: Seq<TickRunView>, w: u64)
    requires
        forall|i: int| 0 <= i < runs.len() ==> (#[trigger] runs[i]).input.world.0 != w,
    ensures
        runtime.ticks_settled(runs).0.worlds[w] == runtime.worlds[w],
    decreases runs.len(),
{
    if runs.len() > 0 {
        let shorter = runs.drop_last();
        assert forall|i: int| 0 <= i < shorter.len() implies (#[trigger] shorter[i]).input.world.0
            != w by {
            assert(runs[i].input.world.0 != w);
        }
        settling_elsewhere(runtime, shorter, w);
        settling_one(runtime.ticks_settled(shorter).0, runs.last());
        assert(runs[runs.len() - 1].input.world.0 != w);
    }
}

proof fn settling_here(runtime: RuntimeView, runs: Seq<TickRunView>, i: int)
    requires
        distinct_worlds(runs),
        0 <= i < runs.len(),
        runtime.worlds.contains_key(runs[i].input.world.0),
    ensures
        same_world(
            runtime.ticks_settled(runs).0.worlds[runs[i].input.world.0],
            runtime.tick_settled(runs[i]).0.worlds[runs[i].input.world.0],
        ),
    decreases runs.len(),
{
    let shorter = runs.drop_last();
    let before = runtime.ticks_settled(shorter).0;
    let w = runs[i].input.world.0;
    shorter_is_distinct(runs);
    settling_one(before, runs.last());
    settling_all(runtime, shorter);
    if i == runs.len() - 1 {
        assert forall|k: int| 0 <= k < shorter.len() implies (#[trigger] shorter[k]).input.world.0
            != w by {
            assert(runs[k].input.world != runs[i].input.world);
        }
        settling_elsewhere(runtime, shorter, w);
        assert(runtime.worlds.contains_key(w) <==> before.worlds.contains_key(w));
        settling_is_local(before, runtime, runs[i]);
    } else {
        assert(shorter[i] == runs[i]);
        settling_here(runtime, shorter, i);
        assert(runs[i].input.world != runs[runs.len() - 1].input.world);
    }
}

proof fn leaving_without(runtime: RuntimeView, runs: Seq<TickRunView>, i: int, p: u64)
    requires
        0 <= i < runs.len(),
    ensures
        addressed(all_leaving(runtime, runs), p).to_multiset() == addressed(
            all_leaving(runtime, runs.remove(i)),
            p,
        ).to_multiset().add(addressed(leaving(runtime, runs[i]), p).to_multiset()),
    decreases runs.len(),
{
    broadcast use vstd::seq_lib::group_to_multiset_ensures;

    let shorter = runs.drop_last();
    let last = leaving(runtime, runs.last());
    addressed_splits(all_leaving(runtime, shorter), last, p);
    vstd::seq_lib::lemma_multiset_commutative(
        addressed(all_leaving(runtime, shorter), p),
        addressed(last, p),
    );
    if i == runs.len() - 1 {
        assert(runs.remove(i) =~= shorter);
    } else {
        leaving_without(runtime, shorter, i, p);
        assert(runs.remove(i).drop_last() =~= shorter.remove(i));
        assert(runs.remove(i).last() == runs.last());
        let rest = all_leaving(runtime, shorter.remove(i));
        addressed_splits(rest, last, p);
        vstd::seq_lib::lemma_multiset_commutative(addressed(rest, p), addressed(last, p));
        assert(shorter[i] == runs[i]);
        assert(addressed(all_leaving(runtime, runs), p).to_multiset() =~= addressed(
            all_leaving(runtime, runs.remove(i)),
            p,
        ).to_multiset().add(addressed(leaving(runtime, runs[i]), p).to_multiset()));
    }
}

/// The messages that leave ticks for a partition are the same whatever the
/// order of the ticks.
pub proof fn leaving_in_any_order(
    runtime: RuntimeView,
    runs: Seq<TickRunView>,
    other: Seq<TickRunView>,
    p: u64,
)
    requires
        runs.to_multiset() == other.to_multiset(),
    ensures
        addressed(all_leaving(runtime, runs), p).to_multiset() == addressed(
            all_leaving(runtime, other),
            p,
        ).to_multiset(),
    decreases runs.len(),
{
    broadcast use vstd::seq_lib::group_to_multiset_ensures;

    assert(runs.to_multiset().len() == runs.len());
    assert(other.to_multiset().len() == other.len());
    if runs.len() == 0 {
        assert(runs =~= other);
    } else {
        let run = runs.last();
        let n = runs.len() - 1;
        assert(runs.contains(run)) by {
            assert(runs[n] == run);
        }
        assert(other.contains(run)) by {
            assert(runs.to_multiset().count(run) > 0);
        }
        let i = choose|i: int| 0 <= i < other.len() && other[i] == run;
        assert(runs.remove(n) =~= runs.drop_last());
        assert(runs.remove(n).to_multiset() =~= runs.to_multiset().remove(runs[n]));
        assert(other.remove(i).to_multiset() =~= other.to_multiset().remove(other[i]));
        leaving_in_any_order(runtime, runs.drop_last(), other.remove(i), p);
        leaving_without(runtime, runs, n, p);
        leaving_without(runtime, other, i, p);
    }
}

/// The order in which ticks are settled does not matter: two runtimes that
/// differ at most in their workers, given the same ticks in whatever order,
/// differ in no more after settling them, provided that no queue overflows.
/// Which messages are dropped when one does is the one thing that their order
/// decides.
pub proof fn settling_order_does_not_matter(
    a: RuntimeView,
    b: RuntimeView,
    runs: Seq<TickRunView>,
    other: Seq<TickRunView>,
)
    requires
        alike_but_for_workers(a, b),
        runs.to_multiset() == other.to_multiset(),
        distinct_worlds(runs),
        distinct_worlds(other),
        forall|p: u64| #[trigger]
            a.partitions.contains_key(p) ==> a.partitions[p].inbound.len() + addressed(
                all_leaving(a, runs),
                p,
            ).len() <= a.config.max_queued_partition_messages,
    ensures
        alike_but_for_workers(a.ticks_settled(runs).0, b.ticks_settled(other).0),
{
    broadcast use vstd::seq_lib::group_to_multiset_ensures;

    let x = a.ticks_settled(runs).0;
    let y = b.ticks_settled(other).0;
    settling_all(a, runs);
    settling_all(b, other);
    same_leave(a, b, other);
    assert forall|w: u64| #[trigger] x.worlds.contains_key(w) <==> y.worlds.contains_key(w) by {
        assert(a.worlds.contains_key(w) <==> x.worlds.contains_key(w));
        assert(b.worlds.contains_key(w) <==> y.worlds.contains_key(w));
        assert(a.worlds.contains_key(w) <==> b.worlds.contains_key(w));
    }
    assert forall|w: u64| #[trigger] x.worlds.contains_key(w) implies same_world(
        x.worlds[w],
        y.worlds[w],
    ) by {
        assert(a.worlds.contains_key(w) <==> x.worlds.contains_key(w));
        assert(a.worlds.contains_key(w) <==> b.worlds.contains_key(w));
        settling_a_world_in_any_order(a, b, runs, other, w);
    }
    assert forall|p: u64| #[trigger] x.partitions.contains_key(p) <==> y.partitions.contains_key(
        p,
    ) by {
        assert(x.partitions.contains_key(p) <==> a.partitions.contains_key(p));
        assert(y.partitions.contains_key(p) <==> b.partitions.contains_key(p));
        assert(a.partitions.contains_key(p) <==> b.partitions.contains_key(p));
    }
    assert forall|p: u64| #[trigger] x.partitions.contains_key(p) implies x.partitions[p].world
        == y.partitions[p].world && x.partitions[p].inbound.to_multiset()
        == y.partitions[p].inbound.to_multiset() by {
        assert(a.partitions.contains_key(p));
        assert(b.partitions.contains_key(p));
        let before = a.partitions[p].inbound;
        let also = b.partitions[p].inbound;
        let first = addressed(all_leaving(a, runs), p);
        let second = addressed(all_leaving(b, other), p);
        leaving_in_any_order(a, runs, other, p);
        assert(first.to_multiset().len() == first.len());
        assert(second.to_multiset().len() == second.len());
        assert(before.to_multiset().len() == before.len());
        assert(also.to_multiset().len() == also.len());
        settling_appends(a, runs, p);
        settling_appends(b, other, p);
        vstd::seq_lib::lemma_multiset_commutative(before, first);
        vstd::seq_lib::lemma_multiset_commutative(also, second);
    }
}

proof fn settling_a_world_in_any_order(
    a: RuntimeView,
    b: RuntimeView,
    runs: Seq<TickRunView>,
    other: Seq<TickRunView>,
    w: u64,
)
    requires
        alike_but_for_workers(a, b),
        runs.to_multiset() == other.to_multiset(),
        distinct_worlds(runs),
        distinct_worlds(other),
        a.worlds.contains_key(w),
    ensures
        same_world(a.ticks_settled(runs).0.worlds[w], b.ticks_settled(other).0.worlds[w]),
{
    broadcast use vstd::seq_lib::group_to_multiset_ensures;

    assert(b.worlds.contains_key(w));
    if exists|i: int| 0 <= i < runs.len() && (#[trigger] runs[i]).input.world.0 == w {
        let i = choose|i: int| 0 <= i < runs.len() && (#[trigger] runs[i]).input.world.0 == w;
        let run = runs[i];
        assert(runs.contains(run));
        assert(runs.to_multiset().count(run) > 0);
        assert(other.contains(run));
        let j = choose|j: int| 0 <= j < other.len() && other[j] == run;
        settling_here(a, runs, i);
        settling_here(b, other, j);
        settling_is_local(a, b, run);
    } else {
        assert forall|j: int| 0 <= j < other.len() implies (#[trigger] other[j]).input.world.0
            != w by {
            assert(other.contains(other[j]));
            assert(other.to_multiset().count(other[j]) > 0);
            assert(runs.contains(other[j]));
            let i = choose|i: int| 0 <= i < runs.len() && runs[i] == other[j];
            assert(runs[i].input.world.0 != w);
        }
        settling_elsewhere(a, runs, w);
        settling_elsewhere(b, other, w);
    }
}

// ----------------------------------------------------------------- planning

/// What the running worlds of a list would each be given alone, in order.
pub open spec fn listed(runtime: RuntimeView, order: Seq<u64>) -> Seq<TickInputView>
    decreases order.len(),
{
    if order.len() == 0 {
        Seq::empty()
    } else {
        let earlier = listed(runtime, order.drop_last());
        if runtime.ticks(order.last()) {
            earlier.push(runtime.tick_input(WorldId(order.last())))
        } else {
            earlier
        }
    }
}

/// A listing of registered worlds, none of them twice.
pub open spec fn visits(runtime: RuntimeView, order: Seq<u64>) -> bool {
    &&& order.no_duplicates()
    &&& forall|i: int| 0 <= i < order.len() ==> runtime.worlds.contains_key(#[trigger] order[i])
}

proof fn shorter_visits(runtime: RuntimeView, order: Seq<u64>)
    requires
        visits(runtime, order),
        order.len() > 0,
    ensures
        visits(runtime, order.drop_last()),
        !order.drop_last().contains(order.last()),
{
    let shorter = order.drop_last();
    assert forall|i: int| 0 <= i < shorter.len() implies runtime.worlds.contains_key(
        #[trigger] shorter[i],
    ) by {
        assert(shorter[i] == order[i]);
    }
    assert forall|i: int, j: int| 0 <= i < shorter.len() && 0 <= j < shorter.len() && i
        != j implies shorter[i] != shorter[j] by {
        assert(order[i] != order[j]);
    }
    if shorter.contains(order.last()) {
        let i = choose|i: int| 0 <= i < shorter.len() && shorter[i] == order.last();
        assert(order[i] == order[order.len() - 1]);
    }
}

/// A step gives each running world of a list what it would be given alone, in
/// order.
pub proof fn inputs_are_listed(runtime: RuntimeView, order: Seq<u64>)
    requires
        runtime.valid(),
        visits(runtime, order),
    ensures
        runtime.inputs_taken(order).1 == listed(runtime, order),
    decreases order.len(),
{
    if order.len() > 0 {
        let shorter = order.drop_last();
        let w = order.last();
        shorter_visits(runtime, order);
        inputs_are_listed(runtime, shorter);
        inputs_taken_elsewhere(runtime, shorter, w);
        let before = runtime.inputs_taken(shorter).0;
        assert(runtime.worlds.contains_key(order[order.len() - 1]));
        same_routes_same_partition(runtime.partitions, before.partitions, w);
        assert(before.tick_input(WorldId(w)) == runtime.tick_input(WorldId(w))) by {
            if let Some(p) = partition_of(runtime.partitions, w) {
                assert(delivers_to(runtime.partitions, p, w));
                assert(runtime.partitions.contains_key(p));
            }
        }
    }
}

/// What taking inputs does to a world and to the partitions that address it.
pub proof fn planned(runtime: RuntimeView, order: Seq<u64>, w: u64)
    requires
        runtime.valid(),
        visits(runtime, order),
        order.contains(w),
    ensures
        ({
            let after = runtime.inputs_taken(order).0;
            let alone = if runtime.ticks(w) {
                runtime.input_taken(WorldId(w))
            } else {
                runtime
            };
            &&& after.worlds[w] == alone.worlds[w]
            &&& forall|p: u64| #[trigger]
                runtime.partitions.contains_key(p) && runtime.partitions[p].world.0 == w
                    ==> after.partitions[p] == alone.partitions[p]
        }),
    decreases order.len(),
{
    let shorter = order.drop_last();
    let v = order.last();
    shorter_visits(runtime, order);
    let before = runtime.inputs_taken(shorter).0;
    let after = runtime.inputs_taken(order).0;
    assert(runtime.worlds.contains_key(order[order.len() - 1]));
    inputs_taken_elsewhere(runtime, shorter, v);
    same_routes_same_partition(runtime.partitions, before.partitions, v);
    if v == w {
        if let Some(p) = partition_of(runtime.partitions, w) {
            assert(delivers_to(runtime.partitions, p, w));
        }
        assert forall|p: u64| #[trigger]
            runtime.partitions.contains_key(p) && runtime.partitions[p].world.0
                == w implies after.partitions[p] == (if runtime.ticks(w) {
            runtime.input_taken(WorldId(w))
        } else {
            runtime
        }).partitions[p] by {
            assert(before.partitions[p] == runtime.partitions[p]);
        }
    } else {
        assert(shorter.contains(w)) by {
            let i = choose|i: int| 0 <= i < order.len() && order[i] == w;
            assert(shorter[i] == w);
        }
        planned(runtime, shorter, w);
        if before.ticks(v) {
            if let Some(q) = partition_of(before.partitions, v) {
                assert(delivers_to(before.partitions, q, v));
                assert(runtime.partitions.contains_key(q) <==> before.partitions.contains_key(q));
            }
        }
    }
}

proof fn queues_left_alike(
    a: Seq<PartitionMessageView>,
    b: Seq<PartitionMessageView>,
    tick: u64,
)
    requires
        a.to_multiset() == b.to_multiset(),
    ensures
        undeliverable(a, tick).to_multiset() == undeliverable(b, tick).to_multiset(),
{
    filtered_multiset(a, tick);
    filtered_multiset(b, tick);
    delivery_splits_the_queue(a, tick);
    delivery_splits_the_queue(b, tick);
    let left = undeliverable(a, tick).to_multiset();
    let also = undeliverable(b, tick).to_multiset();
    let due = deliverable(a, tick).to_multiset();
    assert forall|m: PartitionMessageView| left.count(m) == also.count(m) by {
        assert(due.add(left).count(m) == due.count(m) + left.count(m));
        assert(due.add(also).count(m) == due.count(m) + also.count(m));
    }
    assert(left =~= also);
}

/// Planning a step keeps two runtimes alike that differ at most in their
/// workers, in whatever order each visits its worlds.
pub proof fn planning_order_does_not_matter(
    a: RuntimeView,
    b: RuntimeView,
    order: Seq<u64>,
    other: Seq<u64>,
)
    requires
        a.valid(),
        b.valid(),
        alike_but_for_workers(a, b),
        visits(a, order),
        visits(b, other),
        forall|w: u64| #[trigger] order.contains(w) <==> other.contains(w),
    ensures
        alike_but_for_workers(a.inputs_taken(order).0, b.inputs_taken(other).0),
{
    let x = a.inputs_taken(order).0;
    let y = b.inputs_taken(other).0;
    inputs_taken_elsewhere(a, order, 0);
    inputs_taken_elsewhere(b, other, 0);
    assert forall|p: u64|
        (#[trigger] a.partitions.contains_key(p) <==> b.partitions.contains_key(p)) && (
        a.partitions.contains_key(p) ==> a.partitions[p].world == b.partitions[p].world) by {
        assert(a.partitions.contains_key(p) <==> b.partitions.contains_key(p));
    }
    assert forall|w: u64| #[trigger] x.worlds.contains_key(w) <==> y.worlds.contains_key(w) by {
        assert(x.worlds.dom().contains(w) <==> a.worlds.dom().contains(w));
        assert(y.worlds.dom().contains(w) <==> b.worlds.dom().contains(w));
        assert(a.worlds.contains_key(w) <==> b.worlds.contains_key(w));
    }
    assert forall|w: u64| #[trigger] x.worlds.contains_key(w) implies same_world(
        x.worlds[w],
        y.worlds[w],
    ) by {
        assert(a.worlds.dom().contains(w));
        assert(a.worlds.contains_key(w));
        assert(b.worlds.contains_key(w));
        if order.contains(w) {
            planned(a, order, w);
            planned(b, other, w);
        } else {
            assert(!other.contains(w));
            inputs_taken_elsewhere(a, order, w);
            inputs_taken_elsewhere(b, other, w);
        }
    }
    assert forall|p: u64| #[trigger] x.partitions.contains_key(p) <==> y.partitions.contains_key(
        p,
    ) by {
        assert(a.partitions.contains_key(p) <==> x.partitions.contains_key(p));
        assert(b.partitions.contains_key(p) <==> y.partitions.contains_key(p));
        assert(a.partitions.contains_key(p) <==> b.partitions.contains_key(p));
    }
    assert forall|p: u64| #[trigger] x.partitions.contains_key(p) implies x.partitions[p].world
        == y.partitions[p].world && x.partitions[p].inbound.to_multiset()
        == y.partitions[p].inbound.to_multiset() by {
        assert(a.partitions.contains_key(p) <==> x.partitions.contains_key(p));
        assert(a.partitions.contains_key(p));
        assert(b.partitions.contains_key(p));
        let w = a.partitions[p].world.0;
        if order.contains(w) {
            planned(a, order, w);
            planned(b, other, w);
            same_routes_same_partition(a.partitions, b.partitions, w);
            let i = choose|i: int| 0 <= i < order.len() && order[i] == w;
            assert(a.worlds.contains_key(order[i]));
            assert(b.worlds.contains_key(w));
            queues_left_alike(
                a.partitions[p].inbound,
                b.partitions[p].inbound,
                a.worlds[w].next_tick.0,
            );
        } else {
            assert(!other.contains(w));
            inputs_taken_elsewhere(a, order, w);
            inputs_taken_elsewhere(b, other, w);
        }
    }
}

proof fn listed_alike(a: RuntimeView, b: RuntimeView, order: Seq<u64>)
    requires
        alike_but_for_workers(a, b),
        forall|p: u64| #[trigger]
            a.partitions.contains_key(p) ==> distinct_keys(a.partitions[p].inbound),
    ensures
        listed(a, order) == listed(b, order),
    decreases order.len(),
{
    if order.len() > 0 {
        listed_alike(a, b, order.drop_last());
        let w = order.last();
        assert(a.worlds.contains_key(w) <==> b.worlds.contains_key(w));
        if a.worlds.contains_key(w) {
            arrival_never_enters_a_tick(a, b, WorldId(w));
        }
    }
}

spec fn alone(runtime: RuntimeView, w: u64) -> Seq<TickInputView> {
    if runtime.ticks(w) {
        seq![runtime.tick_input(WorldId(w))]
    } else {
        Seq::empty()
    }
}

proof fn listed_without(runtime: RuntimeView, order: Seq<u64>, i: int)
    requires
        0 <= i < order.len(),
    ensures
        listed(runtime, order).to_multiset() == listed(
            runtime,
            order.remove(i),
        ).to_multiset().add(alone(runtime, order[i]).to_multiset()),
    decreases order.len(),
{
    broadcast use vstd::seq_lib::group_to_multiset_ensures;

    let shorter = order.drop_last();
    let last = alone(runtime, order.last());
    assert(listed(runtime, order) =~= listed(runtime, shorter) + last);
    vstd::seq_lib::lemma_multiset_commutative(listed(runtime, shorter), last);
    if i == order.len() - 1 {
        assert(order.remove(i) =~= shorter);
    } else {
        listed_without(runtime, shorter, i);
        let without = order.remove(i);
        assert(without.drop_last() =~= shorter.remove(i));
        assert(without.last() == order.last());
        assert(listed(runtime, without) =~= listed(runtime, shorter.remove(i)) + last);
        vstd::seq_lib::lemma_multiset_commutative(listed(runtime, shorter.remove(i)), last);
        assert(shorter[i] == order[i]);
        assert(listed(runtime, order).to_multiset() =~= listed(runtime, without).to_multiset().add(
            alone(runtime, order[i]).to_multiset(),
        ));
    }
}

proof fn listed_in_any_order(runtime: RuntimeView, order: Seq<u64>, other: Seq<u64>)
    requires
        order.to_multiset() == other.to_multiset(),
    ensures
        listed(runtime, order).to_multiset() == listed(runtime, other).to_multiset(),
    decreases order.len(),
{
    broadcast use vstd::seq_lib::group_to_multiset_ensures;

    assert(order.to_multiset().len() == order.len());
    assert(other.to_multiset().len() == other.len());
    if order.len() == 0 {
        assert(order =~= other);
    } else {
        let w = order.last();
        let n = order.len() - 1;
        assert(order.contains(w)) by {
            assert(order[n] == w);
        }
        assert(other.contains(w)) by {
            assert(order.to_multiset().count(w) > 0);
        }
        let i = choose|i: int| 0 <= i < other.len() && other[i] == w;
        assert(order.remove(n) =~= order.drop_last());
        assert(order.remove(n).to_multiset() =~= order.to_multiset().remove(order[n]));
        assert(other.remove(i).to_multiset() =~= other.to_multiset().remove(other[i]));
        listed_in_any_order(runtime, order.drop_last(), other.remove(i));
        listed_without(runtime, order, n);
        listed_without(runtime, other, i);
    }
}

proof fn same_members_same_multiset(order: Seq<u64>, other: Seq<u64>)
    requires
        order.no_duplicates(),
        other.no_duplicates(),
        forall|w: u64| #[trigger] order.contains(w) <==> other.contains(w),
    ensures
        order.to_multiset() == other.to_multiset(),
{
    broadcast use vstd::seq_lib::group_to_multiset_ensures;

    order.lemma_multiset_has_no_duplicates();
    other.lemma_multiset_has_no_duplicates();
    assert forall|w: u64| order.to_multiset().count(w) == other.to_multiset().count(w) by {
        assert(order.contains(w) <==> other.contains(w));
        assert(order.contains(w) <==> order.to_multiset().count(w) > 0);
        assert(other.contains(w) <==> other.to_multiset().count(w) > 0);
        if order.contains(w) {
            assert(order.to_multiset().contains(w));
            assert(other.to_multiset().contains(w));
        }
    }
    assert(order.to_multiset() =~= other.to_multiset());
}

/// The ticks that ran on some inputs, when what comes of a tick depends on its
/// input alone.
pub open spec fn ran_on(
    inputs: Seq<TickInputView>,
    answers: spec_fn(TickInputView) -> TickAnswersView,
) -> Seq<TickRunView> {
    Seq::new(
        inputs.len(),
        |i: int| TickRunView { input: inputs[i], answers: answers(inputs[i]) },
    )
}

proof fn ran_in_any_order(
    inputs: Seq<TickInputView>,
    other: Seq<TickInputView>,
    answers: spec_fn(TickInputView) -> TickAnswersView,
)
    requires
        inputs.to_multiset() == other.to_multiset(),
    ensures
        ran_on(inputs, answers).to_multiset() == ran_on(other, answers).to_multiset(),
    decreases inputs.len(),
{
    broadcast use vstd::seq_lib::group_to_multiset_ensures;

    assert(inputs.to_multiset().len() == inputs.len());
    assert(other.to_multiset().len() == other.len());
    if inputs.len() == 0 {
        assert(inputs =~= other);
    } else {
        let input = inputs.last();
        let n = inputs.len() - 1;
        assert(inputs.contains(input)) by {
            assert(inputs[n] == input);
        }
        assert(other.contains(input)) by {
            assert(inputs.to_multiset().count(input) > 0);
        }
        let i = choose|i: int| 0 <= i < other.len() && other[i] == input;
        assert(inputs.remove(n).to_multiset() =~= inputs.to_multiset().remove(inputs[n]));
        assert(other.remove(i).to_multiset() =~= other.to_multiset().remove(other[i]));
        ran_in_any_order(inputs.remove(n), other.remove(i), answers);
        let runs = ran_on(inputs, answers);
        let also = ran_on(other, answers);
        assert(ran_on(inputs.remove(n), answers) =~= runs.remove(n));
        assert(ran_on(other.remove(i), answers) =~= also.remove(i));
        assert(runs.remove(n).push(runs[n]).to_multiset() =~= runs.to_multiset()) by {
            assert(runs.remove(n).push(runs[n]) =~= runs);
        }
        assert(runs[n] == also[i]);
        assert(runs.contains(runs[n]));
        assert(also.contains(also[i]));
        assert(runs.to_multiset() =~= runs.to_multiset().remove(runs[n]).insert(runs[n]));
        assert(also.to_multiset() =~= also.to_multiset().remove(also[i]).insert(also[i]));
    }
}

/// The inputs listed are of worlds on the list, no two of the same.
pub proof fn listed_worlds(runtime: RuntimeView, order: Seq<u64>)
    requires
        order.no_duplicates(),
    ensures
        forall|k: int|
            0 <= k < listed(runtime, order).len() ==> order.contains(
                (#[trigger] listed(runtime, order)[k]).world.0,
            ),
        forall|i: int, j: int|
            #![trigger listed(runtime, order)[i], listed(runtime, order)[j]]
            0 <= i < j < listed(runtime, order).len() ==> listed(runtime, order)[i].world
                != listed(runtime, order)[j].world,
    decreases order.len(),
{
    if order.len() > 0 {
        let shorter = order.drop_last();
        assert forall|i: int, j: int| 0 <= i < shorter.len() && 0 <= j < shorter.len() && i
            != j implies shorter[i] != shorter[j] by {
            assert(order[i] != order[j]);
        }
        listed_worlds(runtime, shorter);
        let inputs = listed(runtime, order);
        let earlier = listed(runtime, shorter);
        assert forall|k: int| 0 <= k < inputs.len() implies order.contains(
            (#[trigger] inputs[k]).world.0,
        ) by {
            if k < earlier.len() {
                assert(inputs[k] == earlier[k]);
                let i = choose|i: int| 0 <= i < shorter.len() && shorter[i] == earlier[k].world.0;
                assert(order[i] == earlier[k].world.0);
            } else {
                assert(order[order.len() - 1] == inputs[k].world.0);
            }
        }
        assert forall|i: int, j: int|
            #![trigger inputs[i], inputs[j]]
            0 <= i < j < inputs.len() implies inputs[i].world != inputs[j].world by {
            assert(inputs[i] == earlier[i]);
            if j < earlier.len() {
                assert(inputs[j] == earlier[j]);
            } else {
                let k = choose|k: int| 0 <= k < shorter.len() && shorter[k] == earlier[i].world.0;
                assert(order[k] != order[order.len() - 1]);
            }
        }
    }
}

/// The number of workers never enters a step: two runtimes that differ at
/// most in their workers, each visiting its worlds in the order of its own
/// workers, give their worlds the same inputs; when what comes of a tick
/// depends on its input alone, the same ticks come of them, and they differ in
/// no more after the step, provided that no queue overflows.
pub proof fn steps_do_not_depend_on_workers(
    a: RuntimeView,
    b: RuntimeView,
    answers: spec_fn(TickInputView) -> TickAnswersView,
)
    requires
        a.valid(),
        b.valid(),
        alike_but_for_workers(a, b),
        forall|p: u64| #[trigger]
            a.partitions.contains_key(p) ==> distinct_keys(a.partitions[p].inbound),
        ({
            let (planned, inputs) = a.inputs_taken(a.tick_order());
            forall|p: u64| #[trigger]
                planned.partitions.contains_key(p) ==> planned.partitions[p].inbound.len()
                    + addressed(all_leaving(planned, ran_on(inputs, answers)), p).len()
                    <= planned.config.max_queued_partition_messages
        }),
    ensures
        ({
            let (planned, inputs) = a.inputs_taken(a.tick_order());
            let (also, others) = b.inputs_taken(b.tick_order());
            &&& inputs.to_multiset() == others.to_multiset()
            &&& ran_on(inputs, answers).to_multiset() == ran_on(others, answers).to_multiset()
            &&& alike_but_for_workers(planned, also)
            &&& alike_but_for_workers(
                planned.ticks_settled(ran_on(inputs, answers)).0,
                also.ticks_settled(ran_on(others, answers)).0,
            )
        }),
{
    let order = a.tick_order();
    let other = b.tick_order();
    tick_order_lists_every_world_once(a);
    tick_order_lists_every_world_once(b);
    assert forall|i: int| 0 <= i < order.len() implies a.worlds.contains_key(
        #[trigger] order[i],
    ) by {
        assert(order.contains(order[i]));
    }
    assert forall|i: int| 0 <= i < other.len() implies b.worlds.contains_key(
        #[trigger] other[i],
    ) by {
        assert(other.contains(other[i]));
    }
    assert forall|w: u64| #[trigger] order.contains(w) <==> other.contains(w) by {
        assert(a.worlds.contains_key(w) <==> b.worlds.contains_key(w));
    }
    planning_order_does_not_matter(a, b, order, other);
    inputs_are_listed(a, order);
    inputs_are_listed(b, other);
    same_members_same_multiset(order, other);
    listed_in_any_order(a, order, other);
    listed_alike(a, b, other);
    let (x, inputs) = a.inputs_taken(order);
    let (y, others) = b.inputs_taken(other);
    ran_in_any_order(inputs, others, answers);
    listed_worlds(a, order);
    listed_worlds(b, other);
    let runs = ran_on(inputs, answers);
    let also = ran_on(others, answers);
    assert forall|i: int, j: int|
        #![trigger runs[i], runs[j]]
        0 <= i < j < runs.len() implies runs[i].input.world != runs[j].input.world by {
        assert(listed(a, order)[i].world != listed(a, order)[j].world);
    }
    assert forall|i: int, j: int|
        #![trigger also[i], also[j]]
        0 <= i < j < also.len() implies also[i].input.world != also[j].input.world by {
        assert(listed(b, other)[i].world != listed(b, other)[j].world);
    }
    settling_order_does_not_matter(x, y, runs, also);
}

} // verus!
