//! Laws of the runtime's operations: what each accepts, what it changes of the
//! worlds, workers, partitions and queues, and what it leaves alone.

use vstd::prelude::*;

use crate::base::error::ErrorView;
use crate::base::ids::{PartitionId, SubscriptionId, WorkerId, WorldId};
use crate::base::input::InputFrameView;
use crate::base::message::{PartitionMessageView, ReducerCallView, TickResultView};
use crate::base::table::{ascending, ascending_lists};
use crate::base::text::decimal;
use crate::reducer::args::Entries;
use crate::runtime::config::{PersistencePolicy, RuntimeConfigView, TickFailurePolicy};
use crate::runtime::error::RuntimeErrorView;
use crate::runtime::event::RuntimeEventView;
use crate::runtime::laws::{
    delivery_order_is_a_permutation, delivery_splits_the_queue, owned_worlds_finite,
    step_inputs_are_local, tick_order_lists_every_world_once,
};
use crate::runtime::model::{
    bound_to, delivers_to, partition_of, running_worker_from, RuntimeState, RuntimeView,
};
use crate::runtime::order::{
    addressed, inputs_are_listed, listed, listed_worlds, planned, queueing_appends, queueing_keeps,
    ran_on, visits,
};
use crate::runtime::partition::{deliverable, precedes, undeliverable};
use crate::runtime::report::{failure_of, FlushFailureView};
use crate::runtime::setup::{LogSetupView, RecoverySetupView, WorldSetupView};
use crate::runtime::steps::{after_steps, answers_at, stepping_keeps_valid};
use crate::runtime::tick::{TickAnswersView, TickErrorView, TickInputView, TickRunView};
use crate::runtime::worker::{WorkerState, WorkerView};
use crate::runtime::world::{WorldLifecycle, WorldView};

verus! {

/// A counter after one more count; counters wrap.
pub open spec fn one_more(count: u64) -> int {
    if count == u64::MAX {
        0
    } else {
        count + 1
    }
}

/// Two runtimes that differ at most in one world's entry, in the counters and
/// in the log.
pub open spec fn same_but_for_world(a: RuntimeView, b: RuntimeView, world: WorldId) -> bool {
    &&& b.config == a.config
    &&& b.state == a.state
    &&& b.workers == a.workers
    &&& b.partitions == a.partitions
    &&& b.topology == a.topology
    &&& b.sent_seq == a.sent_seq
    &&& b.assign_counter == a.assign_counter
    &&& forall|w: u64| #[trigger] b.worlds.contains_key(w) <==> a.worlds.contains_key(w)
    &&& forall|w: u64| w != world.0 ==> #[trigger] b.worlds[w] == a.worlds[w]
}

/// Two runtimes that differ at most in the counters and in the log.
pub open spec fn same_but_for_counts(a: RuntimeView, b: RuntimeView) -> bool {
    &&& b.config == a.config
    &&& b.state == a.state
    &&& b.workers == a.workers
    &&& b.worlds == a.worlds
    &&& b.partitions == a.partitions
    &&& b.topology == a.topology
    &&& b.sent_seq == a.sent_seq
    &&& b.assign_counter == a.assign_counter
}

// ------------------------------------------------------------------- inputs

/// An input is accepted exactly if the runtime runs, the world is registered
/// and runs, the frame's tick has not passed, and the queue has room. It then
/// goes behind every frame accepted before it, and nothing else of any world
/// changes; a refused one changes no world.
pub proof fn inputs_are_accepted_in_time(
    runtime: RuntimeView,
    world: WorldId,
    frame: InputFrameView,
)
    ensures
        ({
            let (after, outcome) = runtime.input_submitted(world, frame);
            let entry = runtime.worlds[world.0];
            let known = runtime.state == RuntimeState::Running && runtime.worlds.contains_key(
                world.0,
            );
            &&& outcome is Ok <==> known && entry.state == WorldLifecycle::Running && frame.tick.0
                >= entry.next_tick.0 && entry.inputs.len() < runtime.config.max_queued_inputs
            &&& outcome is Ok ==> same_but_for_world(runtime, after, world)
                && after.worlds[world.0] == (WorldView {
                inputs: entry.inputs + seq![frame],
                ..entry
            }) && after.metrics.inputs_accepted == one_more(runtime.metrics.inputs_accepted)
                && after.metrics.inputs_rejected == runtime.metrics.inputs_rejected
            &&& outcome is Err ==> same_but_for_counts(runtime, after)
                && after.metrics.inputs_accepted == runtime.metrics.inputs_accepted
            &&& outcome is Err && known ==> after.metrics.inputs_rejected == one_more(
                runtime.metrics.inputs_rejected,
            )
            &&& runtime.state != RuntimeState::Running ==> outcome == Err::<(), RuntimeErrorView>(
                RuntimeErrorView::Shutdown,
            )
            &&& runtime.state == RuntimeState::Running && !runtime.worlds.contains_key(world.0)
                ==> outcome == Err::<(), RuntimeErrorView>(RuntimeErrorView::UnknownWorld(world))
            &&& known && entry.state != WorldLifecycle::Running ==> (outcome matches Err(
                RuntimeErrorView::InvalidWorldState { world: named, state, .. },
            ) && named == world && state == entry.state)
            &&& known && entry.state == WorldLifecycle::Running && frame.tick.0
                < entry.next_tick.0 ==> (outcome matches Err(
                RuntimeErrorView::InputRejected { world: named, reason },
            ) && named == world && reason is InvalidArgument && after.events.len() > 0
                && after.events.last() == (RuntimeEventView::InputRejected { world, reason }))
            &&& known && entry.state == WorldLifecycle::Running && frame.tick.0
                >= entry.next_tick.0 && entry.inputs.len() >= runtime.config.max_queued_inputs ==> (
            outcome matches Err(RuntimeErrorView::InputRejected { world: named, reason }) && named
                == world && reason is Capacity && after.events.len() > 0 && after.events.last() == (
            RuntimeEventView::InputRejected { world, reason }))
        }),
{
    let entry = runtime.worlds[world.0];
    assert(entry.inputs + seq![frame] =~= entry.inputs.push(frame));
}

/// A reducer call is accepted exactly if the runtime runs, the world is
/// registered and runs, the call names a reducer, and the queue has room. It
/// then goes behind every call accepted before it, and nothing else of any
/// world changes; a refused one changes no world.
pub proof fn calls_are_accepted_while_there_is_room(
    runtime: RuntimeView,
    world: WorldId,
    call: ReducerCallView,
)
    ensures
        ({
            let (after, outcome) = runtime.call_submitted(world, call);
            let entry = runtime.worlds[world.0];
            let known = runtime.state == RuntimeState::Running && runtime.worlds.contains_key(
                world.0,
            );
            &&& outcome is Ok <==> known && entry.state == WorldLifecycle::Running
                && call.reducer.len() > 0 && entry.calls.len()
                < runtime.config.max_queued_reducer_calls
            &&& outcome is Ok ==> same_but_for_world(runtime, after, world)
                && after.worlds[world.0] == (WorldView {
                calls: entry.calls + seq![call],
                ..entry
            }) && after.metrics.reducer_calls_accepted == one_more(
                runtime.metrics.reducer_calls_accepted,
            ) && after.metrics.reducer_calls_rejected == runtime.metrics.reducer_calls_rejected
            &&& outcome is Err ==> same_but_for_counts(runtime, after)
                && after.metrics.reducer_calls_accepted == runtime.metrics.reducer_calls_accepted
            &&& outcome is Err && known ==> after.metrics.reducer_calls_rejected == one_more(
                runtime.metrics.reducer_calls_rejected,
            )
            &&& runtime.state != RuntimeState::Running ==> outcome == Err::<(), RuntimeErrorView>(
                RuntimeErrorView::Shutdown,
            )
            &&& runtime.state == RuntimeState::Running && !runtime.worlds.contains_key(world.0)
                ==> outcome == Err::<(), RuntimeErrorView>(RuntimeErrorView::UnknownWorld(world))
            &&& known && entry.state != WorldLifecycle::Running ==> (outcome matches Err(
                RuntimeErrorView::InvalidWorldState { world: named, state, .. },
            ) && named == world && state == entry.state)
            &&& known && entry.state == WorldLifecycle::Running && call.reducer.len() == 0 ==> (
            outcome matches Err(RuntimeErrorView::Core(reason)) && reason is InvalidArgument)
            &&& known && entry.state == WorldLifecycle::Running && call.reducer.len() > 0
                && entry.calls.len() >= runtime.config.max_queued_reducer_calls ==> (
            outcome matches Err(RuntimeErrorView::ReducerCallRejected { world: named, reason })
                && named == world && reason is Capacity && after.events.len() > 0
                && after.events.last() == (RuntimeEventView::ReducerCallRejected { world, reason }))
        }),
{
    let entry = runtime.worlds[world.0];
    assert(entry.calls + seq![call] =~= entry.calls.push(call));
}

/// A tick takes the oldest queued frame, or an empty frame for the world's
/// next tick if none waits, and the oldest queued calls, as many as the world
/// runs in a tick. What it does not take stays queued in its order; nothing
/// else of any world changes.
pub proof fn ticks_take_the_oldest(runtime: RuntimeView, world: WorldId)
    requires
        runtime.worlds.contains_key(world.0),
    ensures
        ({
            let entry = runtime.worlds[world.0];
            let input = runtime.tick_input(world);
            let after = runtime.input_taken(world);
            let left = after.worlds[world.0];
            &&& input.world == world
            &&& entry.inputs.len() > 0 ==> seq![input.frame] + left.inputs == entry.inputs
            &&& entry.inputs.len() == 0 ==> left.inputs.len() == 0 && input.frame.tick
                == entry.next_tick && input.frame.commands.len() == 0
            &&& input.calls + left.calls == entry.calls
            &&& input.calls.len() <= entry.calls_per_tick
            &&& left.calls.len() > 0 ==> input.calls.len() == entry.calls_per_tick
            &&& left == (WorldView { inputs: left.inputs, calls: left.calls, ..entry })
            &&& forall|w: u64| #[trigger]
                after.worlds.contains_key(w) <==> runtime.worlds.contains_key(w)
            &&& forall|w: u64| w != world.0 ==> #[trigger] after.worlds[w] == runtime.worlds[w]
            &&& after.workers == runtime.workers
        }),
{
    let entry = runtime.worlds[world.0];
    if entry.inputs.len() > 0 {
        assert(seq![entry.inputs[0]] + entry.inputs.drop_first() =~= entry.inputs);
    }
    let n = if entry.calls.len() < entry.calls_per_tick {
        entry.calls.len() as int
    } else {
        entry.calls_per_tick as int
    };
    assert(entry.calls.take(n) + entry.calls.skip(n) =~= entry.calls);
}

// ----------------------------------------------------------------- messages

/// Whether one message goes before another, or they tie: the earlier sent
/// first, of those sent in one tick the lower sender first, and of those of
/// one sender the lower sequence number first.
pub open spec fn not_behind(a: PartitionMessageView, b: PartitionMessageView) -> bool {
    if a.sent_tick.0 != b.sent_tick.0 {
        a.sent_tick.0 < b.sent_tick.0
    } else if a.from.0 != b.from.0 {
        a.from.0 < b.from.0
    } else {
        a.seq <= b.seq
    }
}

/// The messages that a tick delivers are those that wait for its world and
/// were sent in an earlier tick, each once, ordered by the tick they were sent
/// in, then by sender, then by sequence number. Those sent in the same or a
/// later tick stay queued in their order. They wait in the queue of the least
/// partition that addresses the world; a world without one is delivered none.
pub proof fn ticks_deliver_what_was_sent_before(runtime: RuntimeView, world: WorldId)
    requires
        runtime.worlds.contains_key(world.0),
    ensures
        ({
            let now = runtime.worlds[world.0].next_tick.0;
            let batch = runtime.tick_input(world).delivered;
            let after = runtime.input_taken(world);
            &&& forall|i: int, j: int|
                #![trigger batch[i], batch[j]]
                0 <= i < j < batch.len() ==> not_behind(batch[i], batch[j])
            &&& forall|i: int| 0 <= i < batch.len() ==> (#[trigger] batch[i]).sent_tick.0 < now
            &&& forall|p: u64| #[trigger]
                after.partitions.contains_key(p) <==> runtime.partitions.contains_key(p)
            &&& forall|p: u64|
                #![trigger runtime.partitions[p]]
                #![trigger after.partitions[p]]
                runtime.partitions.contains_key(p) ==> {
                    let least = runtime.partitions[p].world == world && forall|q: u64|
                        #[trigger]
                        runtime.partitions.contains_key(q) && runtime.partitions[q].world == world
                            ==> p <= q;
                    let waiting = runtime.partitions[p].inbound;
                    let left = after.partitions[p].inbound;
                    &&& after.partitions[p].world == runtime.partitions[p].world
                    &&& after.partitions[p].worker == runtime.partitions[p].worker
                    &&& !least ==> left == waiting
                    &&& least ==> left == waiting.filter(
                        |m: PartitionMessageView| m.sent_tick.0 >= now,
                    ) && batch.to_multiset().add(left.to_multiset()) == waiting.to_multiset()
                }
            &&& (forall|p: u64| #[trigger]
                runtime.partitions.contains_key(p) ==> runtime.partitions[p].world != world)
                ==> batch.len() == 0
        }),
{
    broadcast use vstd::seq_lib::group_to_multiset_ensures;

    let now = runtime.worlds[world.0].next_tick.0;
    let batch = runtime.tick_input(world).delivered;
    let after = runtime.input_taken(world);
    if let Some(p) = partition_of(runtime.partitions, world.0) {
        assert(delivers_to(runtime.partitions, p, world.0));
        let waiting = runtime.partitions[p].inbound;
        let due = deliverable(waiting, now);
        delivery_splits_the_queue(waiting, now);
        delivery_order_is_a_permutation(due);
        assert forall|i: int| 0 <= i < batch.len() implies (#[trigger] batch[i]).sent_tick.0
            < now by {
            assert(batch.contains(batch[i]));
            assert(batch.to_multiset().count(batch[i]) > 0);
            assert(due.contains(batch[i]));
            let k = due.index_of(batch[i]);
            assert(due[k].sent_tick.0 < now);
        }
        assert forall|i: int, j: int|
            #![trigger batch[i], batch[j]]
            0 <= i < j < batch.len() implies not_behind(batch[i], batch[j]) by {
            assert(!precedes(batch[j], batch[i]));
        }
        assert forall|q: u64|
            #![trigger runtime.partitions[q]]
            #![trigger after.partitions[q]]
            runtime.partitions.contains_key(q) && runtime.partitions[q].world == world && (forall|
                o: u64,
            |
                #[trigger]
                runtime.partitions.contains_key(o) && runtime.partitions[o].world == world ==> q
                    <= o) implies q == p by {
            assert(p <= q);
            assert(runtime.partitions.contains_key(p));
        }
    } else {
        assert forall|p: u64|
            #![trigger runtime.partitions[p]]
            #![trigger after.partitions[p]]
            runtime.partitions.contains_key(p) && runtime.partitions[p].world == world && (forall|
                q: u64,
            |
                #[trigger]
                runtime.partitions.contains_key(q) && runtime.partitions[q].world == world ==> p
                    <= q) implies false by {
            assert(delivers_to(runtime.partitions, p, world.0));
        }
    }
}

/// A message reaches the end of its destination's queue if that is registered
/// and has room, and is dropped otherwise, which is counted and logged. No
/// other queue changes.
pub proof fn messages_queue_in_order(runtime: RuntimeView, m: PartitionMessageView)
    ensures
        ({
            let after = runtime.message_enqueued(m);
            let taken = runtime.partitions.contains_key(m.to.0)
                && runtime.partitions[m.to.0].inbound.len()
                < runtime.config.max_queued_partition_messages;
            &&& forall|p: u64| #[trigger]
                after.partitions.contains_key(p) <==> runtime.partitions.contains_key(p)
            &&& forall|p: u64|
                p != m.to.0 ==> #[trigger] after.partitions[p] == runtime.partitions[p]
            &&& after.worlds == runtime.worlds && after.workers == runtime.workers && after.config
                == runtime.config && after.state == runtime.state && after.sent_seq
                == runtime.sent_seq
            &&& taken ==> after.partitions[m.to.0].inbound
                == runtime.partitions[m.to.0].inbound + seq![m] && after.partitions[m.to.0].world
                == runtime.partitions[m.to.0].world && after.metrics.messages_sent == one_more(
                runtime.metrics.messages_sent,
            ) && after.metrics.messages_dropped == runtime.metrics.messages_dropped
            &&& !taken ==> after.partitions == runtime.partitions && after.metrics.messages_sent
                == runtime.metrics.messages_sent && after.metrics.messages_dropped == one_more(
                runtime.metrics.messages_dropped,
            ) && after.events.len() > 0 && (after.events.last() matches
                RuntimeEventView::MessageDropped { from, to, reason } && from == m.from && to == m.to
                && (runtime.partitions.contains_key(m.to.0) ==> reason is Capacity) && (
            !runtime.partitions.contains_key(m.to.0) ==> reason is NotFound))
        }),
{
    if runtime.partitions.contains_key(m.to.0) {
        let queue = runtime.partitions[m.to.0].inbound;
        assert(queue + seq![m] =~= queue.push(m));
    }
}

/// A message that is sent between two registered partitions carries the tick
/// that the sender's world is about to run, the sender, the kind and the
/// payload given, and the sender's next sequence number, counted from 0; it goes
/// to the end of the destination's queue, if there is room. So a destination
/// at the sender's tick, or behind it, is not delivered it in that tick, and
/// the first tick after the sender's is the first that delivers it. A message
/// that is refused uses no sequence number up.
pub proof fn sent_messages_carry_the_senders_tick(
    runtime: RuntimeView,
    from: PartitionId,
    to: PartitionId,
    kind: Seq<char>,
    payload: Entries,
)
    requires
        runtime.valid(),
    ensures
        ({
            let (after, outcome) = runtime.message_sent(from, to, kind, payload);
            let able = runtime.state == RuntimeState::Running && from != to
                && runtime.partitions.contains_key(from.0) && runtime.partitions.contains_key(to.0)
                && kind.len() > 0;
            let room = runtime.partitions[to.0].inbound.len()
                < runtime.config.max_queued_partition_messages;
            let sender = runtime.worlds[runtime.partitions[from.0].world.0];
            let next = if runtime.sent_seq.contains_key(from.0) {
                runtime.sent_seq[from.0]
            } else {
                0
            };
            &&& outcome is Ok <==> able
            &&& after.worlds == runtime.worlds
            &&& forall|p: u64|
                p != to.0 ==> #[trigger] after.partitions[p] == runtime.partitions[p]
            &&& !able || !room ==> after.partitions == runtime.partitions
            &&& able && room ==> {
                let queue = after.partitions[to.0].inbound;
                let m = queue.last();
                &&& queue == runtime.partitions[to.0].inbound + seq![m]
                &&& m.sent_tick == sender.next_tick
                &&& m.from == from && m.to == to && m.kind == kind && m.payload == payload
                &&& m.seq == next
                &&& forall|tick: u64| #[trigger]
                    undeliverable(seq![m], tick).contains(m) <==> tick <= sender.next_tick.0
                &&& forall|tick: u64| #[trigger]
                    deliverable(seq![m], tick).contains(m) <==> tick > sender.next_tick.0
            }
            &&& able ==> after.sent_seq.contains_key(from.0) && after.sent_seq[from.0] == one_more(
                next,
            )
            &&& !able ==> next == if after.sent_seq.contains_key(from.0) {
                after.sent_seq[from.0]
            } else {
                0
            }
            &&& forall|p: u64|
                p != from.0 ==> (#[trigger] after.sent_seq.contains_key(p)
                    <==> runtime.sent_seq.contains_key(p)) && after.sent_seq[p]
                    == runtime.sent_seq[p]
        }),
{
    let (after, outcome) = runtime.message_sent(from, to, kind, payload);
    if outcome is Ok && runtime.partitions[to.0].inbound.len()
        < runtime.config.max_queued_partition_messages {
        let queue = after.partitions[to.0].inbound;
        let m = queue.last();
        assert(queue =~= runtime.partitions[to.0].inbound + seq![m]);
        assert forall|tick: u64| #[trigger]
            undeliverable(seq![m], tick).contains(m) <==> tick <= m.sent_tick.0 by {
            one_message(m, |x: PartitionMessageView| x.sent_tick.0 >= tick);
        }
        assert forall|tick: u64| #[trigger]
            deliverable(seq![m], tick).contains(m) <==> tick > m.sent_tick.0 by {
            one_message(m, |x: PartitionMessageView| x.sent_tick.0 < tick);
        }
    }
}

proof fn one_message(m: PartitionMessageView, keep: spec_fn(PartitionMessageView) -> bool)
    ensures
        seq![m].filter(keep).contains(m) <==> keep(m),
{
    reveal(Seq::filter);
    let alone = seq![m];
    assert(alone.drop_last() =~= Seq::<PartitionMessageView>::empty());
    assert(Seq::<PartitionMessageView>::empty().filter(keep) =~= Seq::empty());
    if keep(m) {
        assert(alone.filter(keep) =~= Seq::<PartitionMessageView>::empty().push(m));
        assert(alone.filter(keep)[0] == m);
    } else {
        assert(alone.filter(keep).len() == 0);
    }
}

// -------------------------------------------------------------------- ticks

/// A world that is registered and runs.
pub open spec fn runs(runtime: RuntimeView, world: WorldId) -> bool {
    runtime.worlds.contains_key(world.0) && runtime.worlds[world.0].state
        == WorldLifecycle::Running
}

/// What becomes of a tick that committed and, if its world has a log, was
/// appended to it: its result is yielded, its world moves on to the next tick
/// and counts one more, and every message that it sent to a registered
/// partition with room goes to the end of that partition's queue, in order.
/// The world's queues and its lifecycle stay as they are.
#[verifier::spinoff_prover]
#[verifier::rlimit(40)]
pub proof fn committed_ticks_move_the_world_on(
    runtime: RuntimeView,
    run: TickRunView,
    result: TickResultView,
)
    requires
        runtime.state == RuntimeState::Running,
        runtime.worlds.contains_key(run.input.world.0),
        run.answers.outcome == Ok::<TickResultView, TickErrorView>(result),
        !runtime.worlds[run.input.world.0].persistent || run.answers.appended is Ok,
    ensures
        ({
            let world = run.input.world;
            let (after, outcome) = runtime.tick_settled(run);
            let before = runtime.worlds[world.0];
            let entry = after.worlds[world.0];
            &&& outcome == Ok::<TickResultView, RuntimeErrorView>(result)
            &&& entry == (WorldView {
                next_tick: run.answers.next_tick,
                ticks_run: entry.ticks_run,
                ticks_since_snapshot: entry.ticks_since_snapshot,
                ..before
            })
            &&& entry.ticks_run == one_more(before.ticks_run)
            &&& forall|w: u64| w != world.0 ==> #[trigger] after.worlds[w] == runtime.worlds[w]
            &&& forall|w: u64| #[trigger]
                after.worlds.contains_key(w) <==> runtime.worlds.contains_key(w)
            &&& forall|p: u64| #[trigger]
                runtime.partitions.contains_key(p) && runtime.partitions[p].inbound.len()
                    + sent_to(result.outbound, p).len()
                    <= runtime.config.max_queued_partition_messages ==> after.partitions[p].inbound
                    == runtime.partitions[p].inbound + sent_to(result.outbound, p)
            &&& after.metrics.ticks_total == one_more(runtime.metrics.ticks_total)
            &&& after.metrics.ticks_succeeded == one_more(runtime.metrics.ticks_succeeded)
            &&& after.metrics.ticks_failed == runtime.metrics.ticks_failed
            &&& after.metrics.world_failures == runtime.metrics.world_failures
            &&& after.metrics.wal_failures == runtime.metrics.wal_failures
            &&& before.persistent ==> after.metrics.wal_appends == one_more(
                runtime.metrics.wal_appends,
            )
            &&& !before.persistent ==> after.metrics.wal_appends == runtime.metrics.wal_appends
                && after.metrics.snapshots == runtime.metrics.snapshots
                && entry.ticks_since_snapshot == before.ticks_since_snapshot
        }),
{
    let world = run.input.world;
    let done = runtime.tick_completed(run, result);
    let start = if runtime.worlds[world.0].persistent {
        done.tick_appended(world, run.answers.snapshot_written)
    } else {
        done
    };
    let after = start.messages_enqueued(result.outbound);
    assert(runtime.tick_settled(run) == (after, Ok::<TickResultView, RuntimeErrorView>(result)));
    assert(after.worlds == start.worlds && after.config == start.config) by {
        queueing_keeps(start, result.outbound);
    }
    queueing_keeps_counts(start, result.outbound);
    assert forall|p: u64| #[trigger]
        runtime.partitions.contains_key(p) && runtime.partitions[p].inbound.len() + sent_to(
            result.outbound,
            p,
        ).len() <= runtime.config.max_queued_partition_messages implies start.messages_enqueued(
        result.outbound,
    ).partitions[p].inbound == runtime.partitions[p].inbound + sent_to(result.outbound, p) by {
        addressed_are_sent(result.outbound, p);
        queueing_appends(start, result.outbound, p);
    }
}

/// The messages for a partition, in order.
pub open spec fn sent_to(messages: Seq<PartitionMessageView>, p: u64) -> Seq<PartitionMessageView> {
    messages.filter(|m: PartitionMessageView| m.to.0 == p)
}

proof fn addressed_are_sent(messages: Seq<PartitionMessageView>, p: u64)
    ensures
        addressed(messages, p) == sent_to(messages, p),
    decreases messages.len(),
{
    reveal(Seq::filter);
    if messages.len() > 0 {
        addressed_are_sent(messages.drop_last(), p);
    }
}

proof fn queueing_keeps_counts(runtime: RuntimeView, messages: Seq<PartitionMessageView>)
    ensures
        ({
            let after = runtime.messages_enqueued(messages).metrics;
            &&& after.ticks_total == runtime.metrics.ticks_total
            &&& after.ticks_succeeded == runtime.metrics.ticks_succeeded
            &&& after.ticks_failed == runtime.metrics.ticks_failed
            &&& after.world_failures == runtime.metrics.world_failures
            &&& after.wal_appends == runtime.metrics.wal_appends
            &&& after.wal_failures == runtime.metrics.wal_failures
            &&& after.snapshots == runtime.metrics.snapshots
        }),
    decreases messages.len(),
{
    if messages.len() > 0 {
        queueing_keeps_counts(runtime, messages.drop_last());
    }
}

/// What becomes of a tick that failed: the failure is yielded, counted and
/// logged, no message leaves it, the calls it took are back at the front of
/// the queue, and its world fails with it exactly if the policy says so.
#[verifier::spinoff_prover]
pub proof fn failed_ticks_follow_the_policy(runtime: RuntimeView, run: TickRunView)
    requires
        runtime.state == RuntimeState::Running,
        runtime.worlds.contains_key(run.input.world.0),
        run.answers.outcome is Err,
    ensures
        ({
            let world = run.input.world;
            let failure = run.answers.outcome->Err_0;
            let (after, outcome) = runtime.tick_settled(run);
            let before = runtime.worlds[world.0];
            let entry = after.worlds[world.0];
            let fails = runtime.config.tick_failure_policy == TickFailurePolicy::FailWorld;
            &&& outcome == Err::<TickResultView, RuntimeErrorView>(
                RuntimeErrorView::Tick { world, error: failure.error },
            )
            &&& entry == (WorldView {
                state: if fails {
                    WorldLifecycle::Failed
                } else {
                    before.state
                },
                calls: run.input.calls + before.calls,
                next_tick: run.answers.next_tick,
                ..before
            })
            &&& same_but_for_world(runtime, after, world)
            &&& after.metrics.ticks_total == one_more(runtime.metrics.ticks_total)
            &&& after.metrics.ticks_failed == one_more(runtime.metrics.ticks_failed)
            &&& after.metrics.ticks_succeeded == runtime.metrics.ticks_succeeded
            &&& after.metrics.world_failures == if fails {
                one_more(runtime.metrics.world_failures)
            } else {
                runtime.metrics.world_failures as int
            }
            &&& after.events.len() > 0
            &&& fails ==> after.events.last() == (RuntimeEventView::WorldFailed {
                world,
                reason: failure.error,
            })
            &&& !fails ==> after.events.last() == (RuntimeEventView::TickFailed {
                world,
                tick: failure.tick,
                error: failure.error,
            })
        }),
{
    let world = run.input.world;
    let failure = run.answers.outcome->Err_0;
    let after = runtime.tick_settled(run).0;
    assert(after == runtime.tick_failed(run, failure.tick, failure.error));
    match runtime.config.tick_failure_policy {
        TickFailurePolicy::FailWorld => {
            assert(same_but_for_world(runtime, after, world));
        },
        TickFailurePolicy::Continue => {
            assert(same_but_for_world(runtime, after, world));
        },
    }
}

/// A snapshot falls due with every so-many-th durable tick since the last one
/// was written, as many as the configured interval says, and never without an
/// interval; one that could not be written stays due.
#[verifier::spinoff_prover]
#[verifier::rlimit(40)]
pub proof fn snapshots_come_at_their_interval(runtime: RuntimeView, run: TickRunView)
    requires
        runtime.state == RuntimeState::Running,
        runtime.worlds.contains_key(run.input.world.0),
        runtime.worlds[run.input.world.0].persistent,
        run.answers.outcome is Ok,
        run.answers.appended is Ok,
        runtime.worlds[run.input.world.0].ticks_since_snapshot < u64::MAX,
    ensures
        ({
            let world = run.input.world;
            let after = runtime.tick_settled(run).0;
            let since = runtime.worlds[world.0].ticks_since_snapshot;
            let now = after.worlds[world.0].ticks_since_snapshot;
            &&& runtime.snapshot_due(world) <==> (runtime.config.snapshot_interval matches Some(n)
                && since + 1 >= n)
            &&& match runtime.config.snapshot_interval {
                None => now == since && after.metrics.snapshots == runtime.metrics.snapshots,
                Some(n) => if since + 1 >= n && run.answers.snapshot_written {
                    now == 0 && after.metrics.snapshots == one_more(runtime.metrics.snapshots)
                } else {
                    now == since + 1 && after.metrics.snapshots == runtime.metrics.snapshots
                },
            }
        }),
{
    let result = run.answers.outcome->Ok_0;
    let done = runtime.tick_completed(run, result);
    let appended = done.tick_appended(run.input.world, run.answers.snapshot_written);
    queueing_keeps(appended, result.outbound);
    queueing_keeps_counts(appended, result.outbound);
}

proof fn queues_survive_settling(runtime: RuntimeView, ticks: Seq<TickRunView>, w: u64)
    ensures
        ({
            let after = runtime.ticks_settled(ticks).0;
            &&& after.worlds[w].inputs == runtime.worlds[w].inputs
            &&& after.worlds.contains_key(w) <==> runtime.worlds.contains_key(w)
        }),
    decreases ticks.len(),
{
    if ticks.len() > 0 {
        queues_survive_settling(runtime, ticks.drop_last(), w);
        let before = runtime.ticks_settled(ticks.drop_last()).0;
        let run = ticks.last();
        if before.running() && before.worlds.contains_key(run.input.world.0) {
            if let Ok(result) = run.answers.outcome {
                let done = before.tick_completed(run, result);
                queueing_keeps(done, result.outbound);
                queueing_keeps(
                    done.tick_appended(run.input.world, run.answers.snapshot_written),
                    result.outbound,
                );
            }
        }
    }
}

proof fn visits_every_world(runtime: RuntimeView)
    requires
        runtime.valid(),
    ensures
        visits(runtime, runtime.tick_order()),
        forall|w: u64| #[trigger]
            runtime.tick_order().contains(w) <==> runtime.worlds.contains_key(w),
{
    let order = runtime.tick_order();
    tick_order_lists_every_world_once(runtime);
    assert forall|i: int| 0 <= i < order.len() implies runtime.worlds.contains_key(
        #[trigger] order[i],
    ) by {
        assert(order.contains(order[i]));
    }
}

proof fn listed_includes(runtime: RuntimeView, order: Seq<u64>, world: WorldId)
    requires
        order.contains(world.0),
        runs(runtime, world),
    ensures
        listed(runtime, order).contains(runtime.tick_input(world)),
    decreases order.len(),
{
    let shorter = order.drop_last();
    let inputs = listed(runtime, order);
    if order.last() == world.0 {
        assert(inputs[inputs.len() - 1] == runtime.tick_input(world));
    } else {
        let i = choose|i: int| 0 <= i < order.len() && order[i] == world.0;
        assert(shorter[i] == world.0);
        listed_includes(runtime, shorter, world);
        let earlier = listed(runtime, shorter);
        let k = choose|k: int| 0 <= k < earlier.len() && earlier[k] == runtime.tick_input(world);
        assert(inputs[k] == earlier[k]);
    }
}

/// A step runs one tick of every running world, and of no other, on what that
/// world's tick takes in.
pub proof fn steps_tick_every_running_world(runtime: RuntimeView)
    requires
        runtime.valid(),
    ensures
        ({
            let inputs = runtime.inputs_taken(runtime.tick_order()).1;
            &&& forall|world: WorldId|
                runs(runtime, world) <==> exists|i: int|
                    0 <= i < inputs.len() && (#[trigger] inputs[i]).world == world
            &&& forall|i: int|
                0 <= i < inputs.len() ==> (#[trigger] inputs[i]) == runtime.tick_input(
                    inputs[i].world,
                )
            &&& forall|i: int, j: int|
                #![trigger inputs[i], inputs[j]]
                0 <= i < j < inputs.len() ==> inputs[i].world != inputs[j].world
        }),
{
    let order = runtime.tick_order();
    let inputs = runtime.inputs_taken(order).1;
    visits_every_world(runtime);
    step_inputs_are_local(runtime, order);
    inputs_are_listed(runtime, order);
    listed_worlds(runtime, order);
    assert forall|world: WorldId|
        runs(runtime, world) <==> exists|i: int|
            0 <= i < inputs.len() && (#[trigger] inputs[i]).world == world by {
        if runs(runtime, world) {
            assert(order.contains(world.0));
            listed_includes(runtime, order, world);
            let i = choose|i: int|
                0 <= i < inputs.len() && inputs[i] == runtime.tick_input(world);
            assert(inputs[i].world == world);
        }
    }
}

/// Inputs are consumed first in, first out: a world that runs through some
/// steps takes the frames of its queue one a step, in the order in which they
/// were accepted, and those it has not come to are left in that order.
#[verifier::spinoff_prover]
#[verifier::rlimit(40)]
pub proof fn frames_are_consumed_in_order(
    runtime: RuntimeView,
    answers: spec_fn(nat, TickInputView) -> TickAnswersView,
    world: WorldId,
    n: nat,
)
    requires
        runtime.valid(),
        n <= runtime.worlds[world.0].inputs.len(),
        forall|k: nat| k < n ==> runs(#[trigger] after_steps(runtime, answers, k), world),
    ensures
        n > 0 ==> after_steps(runtime, answers, n).worlds[world.0].inputs
            == runtime.worlds[world.0].inputs.subrange(
            n as int,
            runtime.worlds[world.0].inputs.len() as int,
        ),
        after_steps(runtime, answers, n).valid(),
        forall|k: nat|
            k < n ==> (#[trigger] after_steps(runtime, answers, k)).tick_input(world).frame
                == runtime.worlds[world.0].inputs[k as int],
    decreases n,
{
    let queue = runtime.worlds[world.0].inputs;
    if n > 0 {
        let k = (n - 1) as nat;
        frames_are_consumed_in_order(runtime, answers, world, k);
        let before = after_steps(runtime, answers, k);
        let here = before.worlds[world.0].inputs;
        if k == 0 {
            assert(queue.subrange(0, queue.len() as int) =~= queue);
        }
        assert(here == queue.subrange(k as int, queue.len() as int));
        assert(runs(before, world));
        stepping_keeps_valid(before, answers_at(answers, k));
        visits_every_world(before);
        let order = before.tick_order();
        planned(before, order, world.0);
        let (taken, inputs) = before.inputs_taken(order);
        queues_survive_settling(taken, ran_on(inputs, answers_at(answers, k)), world.0);
        ticks_take_the_oldest(before, world);
        let frame = before.tick_input(world).frame;
        let left = before.input_taken(world).worlds[world.0].inputs;
        assert(seq![frame] + left == here);
        assert((seq![frame] + left)[0] == frame);
        assert(here[0] == queue[k as int]);
        assert(left =~= queue.subrange(n as int, queue.len() as int)) by {
            assert((seq![frame] + left).len() == left.len() + 1);
            assert forall|i: int| 0 <= i < left.len() implies left[i] == queue[n + i] by {
                assert((seq![frame] + left)[i + 1] == left[i]);
                assert(here[i + 1] == queue[k + i + 1]);
            }
        }
    }
}

// ---------------------------------------------------------------- lifecycle

/// A registered world starts unless it has failed, and then runs; starting one
/// that runs changes nothing. Nothing else of any world changes.
pub proof fn starting_makes_a_world_run(runtime: RuntimeView, world: WorldId)
    ensures
        ({
            let (after, outcome) = runtime.world_started(world);
            let entry = runtime.worlds[world.0];
            let known = runtime.state == RuntimeState::Running && runtime.worlds.contains_key(
                world.0,
            );
            &&& outcome is Ok <==> known && entry.state != WorldLifecycle::Failed
            &&& outcome is Ok ==> same_but_for_world(runtime, after, world)
                && after.worlds[world.0] == (WorldView { state: WorldLifecycle::Running, ..entry })
            &&& outcome is Ok && entry.state != WorldLifecycle::Running ==> after.events.len() > 0
                && after.events.last() == (RuntimeEventView::WorldStarted { world })
            &&& outcome is Err || entry.state == WorldLifecycle::Running ==> after == runtime
            &&& runtime.state != RuntimeState::Running ==> outcome->Err_0 is Shutdown
            &&& runtime.state == RuntimeState::Running && !runtime.worlds.contains_key(world.0)
                ==> outcome->Err_0 == RuntimeErrorView::UnknownWorld(world)
            &&& known && outcome is Err ==> (outcome->Err_0 matches
                RuntimeErrorView::InvalidWorldState { world: named, state, .. } && named == world
                && state == WorldLifecycle::Failed)
        }),
{
}

/// A registered world stops unless it has failed, and then does not run;
/// stopping a stopped one changes nothing. Its queues and its logical time
/// stay, and nothing of any other world changes.
pub proof fn stopping_makes_a_world_rest(runtime: RuntimeView, world: WorldId)
    ensures
        ({
            let (after, outcome) = runtime.world_stopped(world);
            let entry = runtime.worlds[world.0];
            let known = runtime.state == RuntimeState::Running && runtime.worlds.contains_key(
                world.0,
            );
            &&& outcome is Ok <==> known && entry.state != WorldLifecycle::Failed
            &&& outcome is Ok ==> same_but_for_world(runtime, after, world)
                && after.worlds[world.0] == (WorldView { state: WorldLifecycle::Stopped, ..entry })
            &&& outcome is Ok && entry.state != WorldLifecycle::Stopped ==> after.events.len() > 0
                && after.events.last() == (RuntimeEventView::WorldStopped { world })
            &&& outcome is Err || entry.state == WorldLifecycle::Stopped ==> after == runtime
            &&& runtime.state != RuntimeState::Running ==> outcome->Err_0 is Shutdown
            &&& runtime.state == RuntimeState::Running && !runtime.worlds.contains_key(world.0)
                ==> outcome->Err_0 == RuntimeErrorView::UnknownWorld(world)
            &&& known && outcome is Err ==> (outcome->Err_0 matches
                RuntimeErrorView::InvalidWorldState { world: named, state, .. } && named == world
                && state == WorldLifecycle::Failed)
        }),
{
}

/// Whether a worker is registered and runs.
pub open spec fn works(runtime: RuntimeView, k: int) -> bool {
    0 <= k <= u64::MAX && runtime.workers.contains_key(k as u64) && runtime.workers[k as u64].state
        == WorkerState::Running
}

/// The worker that is `i` places behind the one whose turn it is.
pub open spec fn in_turn(runtime: RuntimeView, i: int) -> int {
    (runtime.assign_counter % runtime.config.worker_count as u64 + i)
        % runtime.config.worker_count as int
}

/// A worker is the next in turn: it runs, and none of those between the one
/// whose turn it is and it does.
pub open spec fn next_in_turn(runtime: RuntimeView, worker: u64) -> bool {
    exists|i: int|
        0 <= i < runtime.config.worker_count && #[trigger] in_turn(runtime, i) == worker && works(
            runtime,
            worker as int,
        ) && forall|j: int| 0 <= j < i ==> !works(runtime, #[trigger] in_turn(runtime, j))
}

proof fn turn_taken(runtime: RuntimeView, offset: int)
    requires
        0 <= offset <= runtime.config.worker_count,
        runtime.config.worker_count > 0,
        runtime.config.worker_count <= u64::MAX,
        forall|j: int| 0 <= j < offset ==> !works(runtime, #[trigger] in_turn(runtime, j)),
    ensures
        match running_worker_from(
            runtime.workers,
            runtime.assign_counter as int % runtime.config.worker_count as int,
            offset,
            runtime.config.worker_count as int,
        ) {
            Some(worker) => next_in_turn(runtime, worker),
            None => forall|j: int|
                0 <= j < runtime.config.worker_count ==> !works(
                    runtime,
                    #[trigger] in_turn(runtime, j),
                ),
        },
    decreases runtime.config.worker_count - offset,
{
    let n = runtime.config.worker_count as int;
    if offset < n {
        let k = in_turn(runtime, offset);
        vstd::arithmetic::div_mod::lemma_mod_bound(
            runtime.assign_counter % runtime.config.worker_count as u64 + offset,
            n,
        );
        if works(runtime, k) {
            assert(in_turn(runtime, offset) == k as u64);
        } else {
            turn_taken(runtime, offset + 1);
        }
    }
}

/// Creating a world succeeds exactly if the runtime runs, the id is free, the
/// world could be built, some worker runs, and its log, if worlds are to have
/// one, was created and did not exist before. The world goes to the next
/// running worker in turn and waits there to be started, with empty queues;
/// whether it has a log is what the configuration says. No other world changes.
pub proof fn created_worlds_go_to_the_next_worker(
    runtime: RuntimeView,
    world: WorldId,
    setup: WorldSetupView,
    log: LogSetupView,
)
    requires
        runtime.valid(),
        runtime.config.worker_count > 0,
        runtime.config.worker_count <= u64::MAX,
    ensures
        ({
            let (after, outcome) = runtime.world_created(world, setup, log);
            let logs = runtime.config.persistence_dir is Some && runtime.config.persistence
                != PersistencePolicy::Disabled;
            let free = runtime.state == RuntimeState::Running && !runtime.worlds.contains_key(
                world.0,
            );
            let staffed = exists|j: int|
                0 <= j < runtime.config.worker_count && works(
                    runtime,
                    #[trigger] in_turn(runtime, j),
                );
            let logged = log.dir_ready is Ok && !log.log_exists && log.log_created is Ok;
            &&& outcome is Ok <==> free && setup.built is Ok && staffed && (logs ==> logged)
            &&& outcome is Ok ==> {
                let entry = after.worlds[world.0];
                let k = entry.worker.0;
                &&& after.worlds.contains_key(world.0)
                &&& next_in_turn(runtime, k)
                &&& entry.state == WorldLifecycle::Created
                &&& entry.next_tick == setup.next_tick
                &&& entry.calls_per_tick == setup.calls_per_tick
                &&& entry.inputs.len() == 0 && entry.calls.len() == 0
                &&& entry.persistent == logs
                &&& entry.subscriptions == Set::<u64>::empty()
                &&& entry.ticks_run == 0 && entry.ticks_since_snapshot == 0
                &&& entry.partition is None && entry.known_partitions.len() == 0
                &&& after.workers[k].worlds == runtime.workers[k].worlds.insert(world.0)
                &&& after.workers[k].state == runtime.workers[k].state
                &&& forall|j: u64| j != k ==> #[trigger] after.workers[j] == runtime.workers[j]
                &&& after.assign_counter == one_more(runtime.assign_counter)
                &&& after.metrics.world_creations == one_more(runtime.metrics.world_creations)
                &&& after.events.len() > 0
                &&& after.events.last() == (RuntimeEventView::WorldCreated {
                    world,
                    worker: entry.worker,
                })
            }
            &&& outcome is Err ==> after.worlds == runtime.worlds && after.workers
                == runtime.workers
            &&& forall|w: u64| w != world.0 ==> #[trigger] after.worlds[w] == runtime.worlds[w]
            &&& forall|w: u64|
                w != world.0 ==> (#[trigger] after.worlds.contains_key(w)
                    <==> runtime.worlds.contains_key(w))
            &&& after.partitions == runtime.partitions && after.state == runtime.state
            &&& runtime.state != RuntimeState::Running ==> outcome->Err_0 is Shutdown
            &&& runtime.state == RuntimeState::Running && runtime.worlds.contains_key(world.0)
                ==> outcome->Err_0 == RuntimeErrorView::DuplicateWorld(world)
            &&& free && (setup.built is Err || !staffed) ==> outcome->Err_0 is Internal
            &&& free && setup.built is Ok && staffed && logs && !logged ==> (
            outcome->Err_0 matches RuntimeErrorView::Persistence(error) && (log.dir_ready is Ok
                && log.log_exists ==> error is AlreadyExists))
        }),
{
    turn_taken(runtime, 0);
}

/// Recovering a world succeeds exactly if the runtime runs, the id is free,
/// worlds have logs, the world's log exists and opens, its snapshot, if any,
/// was found, its history was replayed, the world was built, and some worker
/// runs. It yields how many transactions were replayed. The world goes to the
/// next running worker in turn, has a log, resumes at the tick asked for, or
/// else at the one the built world is at, and waits to be started.
pub proof fn recovered_worlds_resume(
    runtime: RuntimeView,
    world: WorldId,
    setup: RecoverySetupView,
)
    requires
        runtime.valid(),
        runtime.config.worker_count > 0,
        runtime.config.worker_count <= u64::MAX,
    ensures
        ({
            let (after, outcome) = runtime.world_recovered(world, setup);
            let free = runtime.state == RuntimeState::Running && !runtime.worlds.contains_key(
                world.0,
            );
            let logs = runtime.config.persistence != PersistencePolicy::Disabled;
            let staffed = exists|j: int|
                0 <= j < runtime.config.worker_count && works(
                    runtime,
                    #[trigger] in_turn(runtime, j),
                );
            let readable = setup.log_exists && setup.log_opened is Ok && setup.snapshot_found is Ok
                && setup.replayed is Ok && setup.world.built is Ok;
            &&& outcome is Ok <==> free && logs && readable && staffed
            &&& outcome is Ok ==> {
                let entry = after.worlds[world.0];
                let k = entry.worker.0;
                &&& outcome->Ok_0 == setup.replayed->Ok_0
                &&& after.worlds.contains_key(world.0)
                &&& next_in_turn(runtime, k)
                &&& entry.state == WorldLifecycle::Created
                &&& setup.resume_tick matches Some(tick) ==> entry.next_tick == tick
                &&& setup.resume_tick is None ==> entry.next_tick == setup.world.next_tick
                &&& entry.calls_per_tick == setup.world.calls_per_tick
                &&& entry.inputs.len() == 0 && entry.calls.len() == 0
                &&& entry.persistent
                &&& entry.subscriptions == Set::<u64>::empty()
                &&& entry.ticks_run == 0 && entry.ticks_since_snapshot == 0
                &&& entry.partition is None && entry.known_partitions.len() == 0
                &&& after.workers[k].worlds == runtime.workers[k].worlds.insert(world.0)
                &&& after.workers[k].state == runtime.workers[k].state
                &&& forall|j: u64| j != k ==> #[trigger] after.workers[j] == runtime.workers[j]
                &&& after.assign_counter == one_more(runtime.assign_counter)
                &&& after.metrics.recoveries == one_more(runtime.metrics.recoveries)
                &&& after.events.len() > 0
                &&& after.events.last() == (RuntimeEventView::WorldRecovered {
                    world,
                    replayed_txs: outcome->Ok_0,
                })
            }
            &&& outcome is Err ==> after == runtime
            &&& forall|w: u64| w != world.0 ==> #[trigger] after.worlds[w] == runtime.worlds[w]
            &&& after.partitions == runtime.partitions
            &&& runtime.state != RuntimeState::Running ==> outcome->Err_0 is Shutdown
            &&& runtime.state == RuntimeState::Running && runtime.worlds.contains_key(world.0)
                ==> outcome->Err_0 == RuntimeErrorView::DuplicateWorld(world)
            &&& free && !logs ==> (outcome->Err_0 matches RuntimeErrorView::Persistence(error)
                && error is Unsupported)
            &&& free && logs && !setup.log_exists ==> (outcome->Err_0 matches
                RuntimeErrorView::Persistence(error) && error is NotFound)
        }),
{
    turn_taken(runtime, 0);
}

proof fn unbinding_several(runtime: RuntimeView, ids: Seq<u64>)
    requires
        forall|i: int| 0 <= i < ids.len() ==> runtime.partitions.contains_key(#[trigger] ids[i]),
        ids.no_duplicates(),
    ensures
        ({
            let after = runtime.without_partitions(ids);
            &&& forall|p: u64| #[trigger]
                after.partitions.contains_key(p) <==> runtime.partitions.contains_key(p)
                    && !ids.contains(p)
            &&& forall|p: u64|
                !ids.contains(p) ==> #[trigger] after.partitions[p] == runtime.partitions[p]
            &&& after.workers == runtime.workers
            &&& after.state == runtime.state
            &&& after.config == runtime.config
            &&& forall|w: u64| #[trigger]
                after.worlds.contains_key(w) <==> runtime.worlds.contains_key(w)
            &&& forall|w: u64| #[trigger]
                runtime.worlds.contains_key(w) ==> after.worlds[w] == (WorldView {
                    known_partitions: after.worlds[w].known_partitions,
                    ..runtime.worlds[w]
                })
        }),
    decreases ids.len(),
{
    if ids.len() > 0 {
        let shorter = ids.drop_last();
        assert forall|i: int| 0 <= i < shorter.len() implies runtime.partitions.contains_key(
            #[trigger] shorter[i],
        ) by {
            assert(shorter[i] == ids[i]);
        }
        unbinding_several(runtime, shorter);
        let last = ids.len() - 1;
        assert forall|p: u64| #[trigger] ids.contains(p) <==> shorter.contains(p) || p
            == ids.last() by {
            if ids.contains(p) {
                let i = choose|i: int| 0 <= i < ids.len() && ids[i] == p;
                if i < last {
                    assert(shorter[i] == p);
                }
            }
            if shorter.contains(p) {
                let i = choose|i: int| 0 <= i < shorter.len() && shorter[i] == p;
                assert(ids[i] == p);
            }
            if p == ids.last() {
                assert(ids[last] == p);
            }
        }
        let before = runtime.without_partitions(shorter);
        let after = runtime.without_partitions(ids);
        assert forall|w: u64| #[trigger]
            runtime.worlds.contains_key(w) implies after.worlds[w] == (WorldView {
            known_partitions: after.worlds[w].known_partitions,
            ..runtime.worlds[w]
        }) by {
            assert(before.worlds.contains_key(w));
        }
    }
}

/// A destroyed world is gone, with every partition that addressed it and from
/// its worker; every other partition keeps its queue, and every other world
/// all but the list of partitions it knows.
pub proof fn destroyed_worlds_are_gone(runtime: RuntimeView, world: WorldId)
    requires
        runtime.valid(),
    ensures
        ({
            let (after, outcome) = runtime.world_destroyed(world);
            &&& outcome is Ok <==> runtime.state == RuntimeState::Running
                && runtime.worlds.contains_key(world.0)
            &&& outcome is Err ==> after == runtime
            &&& runtime.state == RuntimeState::Running && outcome is Err ==> outcome->Err_0
                == RuntimeErrorView::UnknownWorld(world)
            &&& outcome is Ok ==> {
                let k = runtime.worlds[world.0].worker.0;
                &&& !after.worlds.contains_key(world.0)
                &&& forall|w: u64|
                    w != world.0 ==> (#[trigger] after.worlds.contains_key(w)
                        <==> runtime.worlds.contains_key(w))
                &&& forall|w: u64| #[trigger]
                    after.worlds.contains_key(w) ==> after.worlds[w] == (WorldView {
                        known_partitions: after.worlds[w].known_partitions,
                        ..runtime.worlds[w]
                    })
                &&& forall|p: u64| #[trigger]
                    after.partitions.contains_key(p) <==> runtime.partitions.contains_key(p)
                        && runtime.partitions[p].world != world
                &&& forall|p: u64| #[trigger]
                    after.partitions.contains_key(p) ==> after.partitions[p]
                        == runtime.partitions[p]
                &&& after.workers[k].worlds == runtime.workers[k].worlds.remove(world.0)
                &&& after.workers[k].state == runtime.workers[k].state
                &&& forall|j: u64| j != k ==> #[trigger] after.workers[j] == runtime.workers[j]
                &&& after.events.len() > 0
                &&& after.events.last() == (RuntimeEventView::WorldDestroyed { world })
            }
        }),
{
    if runtime.running() && runtime.worlds.contains_key(world.0) {
        let bound = bound_to(runtime.partitions, world.0);
        assert(bound.subset_of(runtime.partitions.dom()));
        vstd::set_lib::lemma_len_subset(bound, runtime.partitions.dom());
        ascending_lists(bound);
        let ids = ascending(bound);
        assert forall|i: int| 0 <= i < ids.len() implies runtime.partitions.contains_key(
            #[trigger] ids[i],
        ) by {
            assert(ids.to_set().contains(ids[i]));
        }
        assert forall|i: int, j: int| 0 <= i < ids.len() && 0 <= j < ids.len() && i
            != j implies ids[i] != ids[j] by {
            if i < j {
                assert(ids[i] < ids[j]);
            } else {
                assert(ids[j] < ids[i]);
            }
        }
        unbinding_several(runtime, ids);
        assert forall|p: u64| #[trigger] ids.contains(p) <==> bound.contains(p) by {
            assert(ids.to_set().contains(p) <==> bound.contains(p));
        }
        let unbound = runtime.without_partitions(ids);
        let after = runtime.world_destroyed(world).0;
        assert(unbound.worlds.contains_key(world.0) <==> runtime.worlds.contains_key(world.0));
        assert(unbound.worlds[world.0].worker == runtime.worlds[world.0].worker);
        assert forall|w: u64| w != world.0 implies (#[trigger] after.worlds.contains_key(w)
            <==> runtime.worlds.contains_key(w)) by {
            assert(unbound.worlds.contains_key(w) <==> runtime.worlds.contains_key(w));
        }
        assert forall|w: u64| #[trigger] after.worlds.contains_key(w) implies after.worlds[w] == (
        WorldView {
            known_partitions: after.worlds[w].known_partitions,
            ..runtime.worlds[w]
        }) by {
            assert(unbound.worlds.contains_key(w) <==> runtime.worlds.contains_key(w));
            assert(runtime.worlds.contains_key(w));
        }
        assert forall|p: u64| #[trigger]
            after.partitions.contains_key(p) <==> runtime.partitions.contains_key(p)
                && runtime.partitions[p].world != world by {
            assert(unbound.partitions.contains_key(p) <==> after.partitions.contains_key(p));
            assert(ids.contains(p) <==> bound.contains(p));
        }
        assert forall|p: u64| #[trigger]
            after.partitions.contains_key(p) implies after.partitions[p]
            == runtime.partitions[p] by {
            assert(unbound.partitions.contains_key(p));
            assert(unbound.partitions[p] == runtime.partitions[p]);
        }
    }
}

/// Moving a world needs a running runtime, a running worker and a registered
/// world. After it the world belongs to that worker and to no other, its
/// partitions name it, and its state, queues and logical time are as before;
/// nothing of any other world changes.
pub proof fn reassigned_worlds_change_hands(runtime: RuntimeView, world: WorldId, to: WorkerId)
    requires
        runtime.valid(),
    ensures
        ({
            let (after, outcome) = runtime.world_reassigned(world, to);
            &&& outcome is Ok <==> runtime.state == RuntimeState::Running
                && runtime.workers.contains_key(to.0) && runtime.workers[to.0].state
                == WorkerState::Running && runtime.worlds.contains_key(world.0)
            &&& outcome is Err ==> after == runtime
            &&& outcome is Ok ==> {
                &&& after.worlds[world.0] == (WorldView { worker: to, ..runtime.worlds[world.0] })
                &&& forall|w: u64| w != world.0 ==> #[trigger] after.worlds[w] == runtime.worlds[w]
                &&& forall|w: u64| #[trigger]
                    after.worlds.contains_key(w) <==> runtime.worlds.contains_key(w)
                &&& forall|k: u64| #[trigger]
                    after.workers.contains_key(k) <==> runtime.workers.contains_key(k)
                &&& forall|k: u64, w: u64| #[trigger]
                    after.workers[k].worlds.contains(w) && after.workers.contains_key(k) <==> (if w
                        == world.0 {
                        k == to.0
                    } else {
                        runtime.workers.contains_key(k) && runtime.workers[k].worlds.contains(w)
                    })
                &&& forall|k: u64| #[trigger]
                    after.workers.contains_key(k) ==> after.workers[k].state
                        == runtime.workers[k].state
                &&& forall|p: u64| #[trigger]
                    after.partitions.contains_key(p) <==> runtime.partitions.contains_key(p)
                &&& forall|p: u64| #[trigger]
                    runtime.partitions.contains_key(p) ==> after.partitions[p].world
                        == runtime.partitions[p].world && after.partitions[p].inbound
                        == runtime.partitions[p].inbound && after.partitions[p].worker == if (
                    runtime.partitions[p].world == world) {
                        to
                    } else {
                        runtime.partitions[p].worker
                    }
            }
        }),
{
    let (after, outcome) = runtime.world_reassigned(world, to);
    if outcome is Ok {
        let from = runtime.worlds[world.0].worker;
        assert forall|k: u64, w: u64| #[trigger]
            after.workers[k].worlds.contains(w) && after.workers.contains_key(k) <==> (if w
                == world.0 {
                k == to.0
            } else {
                runtime.workers.contains_key(k) && runtime.workers[k].worlds.contains(w)
            }) by {
            assert(runtime.workers[k].worlds.contains(w) == runtime.workers[k].worlds.contains(w));
            assert(runtime.worlds.contains_key(world.0));
        }
        assert forall|p: u64| #[trigger]
            runtime.partitions.contains_key(p) implies after.partitions[p].worker == (if (
        runtime.partitions[p].world == world) {
            to
        } else {
            runtime.partitions[p].worker
        }) by {
            assert(runtime.partitions[p].worker
                == runtime.worlds[runtime.partitions[p].world.0].worker);
        }
    }
}

/// A worker can be marked failed while the runtime runs, if it is registered;
/// that is logged, and marking it again changes nothing. Other workers keep
/// their state, and every worker its worlds. The reason its worlds fail for
/// names it.
pub proof fn failed_workers_stay_failed(runtime: RuntimeView, worker: WorkerId)
    ensures
        ({
            let (after, outcome) = runtime.worker_failed(worker);
            &&& outcome is Ok <==> runtime.state == RuntimeState::Running
                && runtime.workers.contains_key(worker.0)
            &&& outcome is Err ==> after == runtime
            &&& runtime.state == RuntimeState::Running && outcome is Err ==> outcome->Err_0
                == RuntimeErrorView::UnknownWorker(worker)
            &&& outcome is Ok ==> after.workers[worker.0] == (WorkerView {
                state: WorkerState::Failed,
                ..runtime.workers[worker.0]
            })
            &&& forall|k: u64| k != worker.0 ==> #[trigger] after.workers[k] == runtime.workers[k]
            &&& after.partitions == runtime.partitions
            &&& outcome is Ok && runtime.workers[worker.0].state == WorkerState::Failed ==> after
                == runtime
            &&& RuntimeView::owner_failed(worker) == ErrorView::Internal(
                "owner worker "@ + decimal(worker.0 as nat) + " failed"@,
            )
        }),
{
    let handle = runtime.workers[worker.0];
    let marked = RuntimeView {
        workers: runtime.workers.insert(
            worker.0,
            WorkerView { state: WorkerState::Failed, ..handle },
        ),
        ..runtime
    }.with_event(RuntimeEventView::WorkerFailed { worker });
    orphaning_keeps_workers(marked, ascending(handle.worlds), worker);
}

proof fn orphaning_keeps_workers(runtime: RuntimeView, worlds: Seq<u64>, worker: WorkerId)
    ensures
        runtime.worlds_orphaned(worlds, worker).workers == runtime.workers,
        runtime.worlds_orphaned(worlds, worker).partitions == runtime.partitions,
    decreases worlds.len(),
{
    if worlds.len() > 0 {
        orphaning_keeps_workers(runtime, worlds.drop_last(), worker);
    }
}

proof fn orphaning_keeps_entries(runtime: RuntimeView, worlds: Seq<u64>, worker: WorkerId)
    requires
        forall|i: int| 0 <= i < worlds.len() ==> runtime.worlds.contains_key(#[trigger] worlds[i]),
    ensures
        ({
            let after = runtime.worlds_orphaned(worlds, worker);
            &&& after.worlds.dom() == runtime.worlds.dom()
            &&& forall|w: u64| #[trigger]
                runtime.worlds.contains_key(w) ==> after.worlds[w] == (WorldView {
                    state: after.worlds[w].state,
                    ..runtime.worlds[w]
                })
        }),
    decreases worlds.len(),
{
    if worlds.len() > 0 {
        let shorter = worlds.drop_last();
        assert forall|i: int| 0 <= i < shorter.len() implies runtime.worlds.contains_key(
            #[trigger] shorter[i],
        ) by {
            assert(shorter[i] == worlds[i]);
        }
        orphaning_keeps_entries(runtime, shorter, worker);
        assert(runtime.worlds.contains_key(worlds[worlds.len() - 1]));
        let before = runtime.worlds_orphaned(shorter, worker);
        let after = runtime.worlds_orphaned(worlds, worker);
        assert(after.worlds.dom() =~= runtime.worlds.dom());
        assert forall|w: u64| #[trigger] runtime.worlds.contains_key(w) implies after.worlds[w]
            == (WorldView { state: after.worlds[w].state, ..runtime.worlds[w] }) by {
            assert(before.worlds[w] == (WorldView {
                state: before.worlds[w].state,
                ..runtime.worlds[w]
            }));
        }
    }
}

/// The worlds of a failed worker can be recovered: no world loses its queues,
/// its tick, its owner, its partition or its subscriptions over the failure of a
/// worker, and none is removed.
pub proof fn orphaned_worlds_lose_nothing(runtime: RuntimeView, worker: WorkerId)
    requires
        runtime.valid(),
    ensures
        ({
            let after = runtime.worker_failed(worker).0;
            &&& after.worlds.dom() == runtime.worlds.dom()
            &&& forall|w: u64| #[trigger]
                runtime.worlds.contains_key(w) ==> after.worlds[w] == (WorldView {
                    state: after.worlds[w].state,
                    ..runtime.worlds[w]
                })
        }),
{
    if runtime.state == RuntimeState::Running && runtime.workers.contains_key(worker.0) {
        let handle = runtime.workers[worker.0];
        let marked = RuntimeView {
            workers: runtime.workers.insert(
                worker.0,
                WorkerView { state: WorkerState::Failed, ..handle },
            ),
            ..runtime
        }.with_event(RuntimeEventView::WorkerFailed { worker });
        let list = ascending(handle.worlds);
        owned_worlds_finite(runtime, worker.0);
        ascending_lists(handle.worlds);
        assert forall|i: int| 0 <= i < list.len() implies marked.worlds.contains_key(
            #[trigger] list[i],
        ) by {
            assert(list.to_set().contains(list[i]));
            assert(runtime.workers[worker.0].worlds.contains(list[i]));
        }
        orphaning_keeps_entries(marked, list, worker);
    }
}

// --------------------------------------------------------------- partitions

/// Binding a partition needs a running runtime, a free address and a
/// registered world. The partition then addresses that world, names the
/// world's worker, and has an empty queue; every other partition is as before,
/// and of the worlds only the addresses they know change.
pub proof fn bound_partitions_address_their_world(
    runtime: RuntimeView,
    partition: PartitionId,
    world: WorldId,
)
    requires
        runtime.valid(),
    ensures
        ({
            let (after, outcome) = runtime.partition_registered(partition, world);
            &&& outcome is Ok <==> runtime.state == RuntimeState::Running
                && !runtime.partitions.contains_key(partition.0) && runtime.worlds.contains_key(
                world.0,
            )
            &&& outcome is Err ==> after == runtime
            &&& outcome is Ok ==> {
                &&& after.partitions.contains_key(partition.0)
                &&& after.partitions[partition.0].world == world
                &&& after.partitions[partition.0].worker == runtime.worlds[world.0].worker
                &&& after.partitions[partition.0].inbound.len() == 0
                &&& forall|p: u64|
                    p != partition.0 ==> (#[trigger] after.partitions.contains_key(p)
                        <==> runtime.partitions.contains_key(p))
                &&& forall|p: u64|
                    p != partition.0 ==> #[trigger] after.partitions[p] == runtime.partitions[p]
                &&& after.worlds[world.0].partition == Some(partition)
                &&& forall|w: u64| #[trigger]
                    after.worlds.contains_key(w) <==> runtime.worlds.contains_key(w)
                &&& forall|w: u64| #[trigger]
                    after.worlds.contains_key(w) ==> after.worlds[w] == (WorldView {
                        partition: after.worlds[w].partition,
                        known_partitions: after.worlds[w].known_partitions,
                        ..runtime.worlds[w]
                    })
                &&& forall|w: u64|
                    w != world.0 && runtime.worlds.contains_key(w)
                        ==> (#[trigger] after.worlds[w]).partition == runtime.worlds[w].partition
                &&& forall|w: u64, p: u64| #[trigger]
                    after.worlds[w].known_partitions.contains(p) && after.worlds.contains_key(w)
                        ==> after.partitions.contains_key(p)
                &&& after.workers == runtime.workers && after.sent_seq == runtime.sent_seq
                &&& after.events.len() > 0
                &&& after.events.last() == (RuntimeEventView::PartitionRegistered {
                    partition,
                    world,
                })
            }
        }),
{
    let (after, outcome) = runtime.partition_registered(partition, world);
    if outcome is Ok {
        let topology = runtime.topology.insert(partition.0);
        ascending_lists(topology);
        assert forall|w: u64, p: u64| #[trigger]
            after.worlds[w].known_partitions.contains(p) && after.worlds.contains_key(
                w,
            ) implies after.partitions.contains_key(p) by {
            assert(ascending(topology).to_set().contains(p));
            assert(topology.contains(p));
            assert(runtime.topology.contains(p) <==> runtime.partitions.dom().contains(p));
        }
    }
}

/// Unbinding a partition removes it with its queue and its count of messages
/// sent; every other partition is as before, and of the worlds only the
/// addresses they know change. Unbinding an unknown one changes nothing.
pub proof fn unbound_partitions_are_gone(runtime: RuntimeView, partition: PartitionId)
    ensures
        ({
            let (after, outcome) = runtime.partition_unregistered(partition);
            &&& outcome is Ok <==> runtime.state == RuntimeState::Running
            &&& outcome is Err || !runtime.partitions.contains_key(partition.0) ==> after == runtime
            &&& outcome is Ok ==> {
                &&& !after.partitions.contains_key(partition.0)
                &&& runtime.partitions.contains_key(partition.0) ==> !after.sent_seq.contains_key(
                    partition.0,
                )
                &&& forall|p: u64|
                    p != partition.0 ==> (#[trigger] after.partitions.contains_key(p)
                        <==> runtime.partitions.contains_key(p))
                &&& forall|p: u64|
                    p != partition.0 ==> #[trigger] after.partitions[p] == runtime.partitions[p]
                &&& forall|p: u64|
                    p != partition.0 ==> #[trigger] after.sent_seq[p] == runtime.sent_seq[p]
                &&& forall|w: u64| #[trigger]
                    after.worlds.contains_key(w) <==> runtime.worlds.contains_key(w)
                &&& forall|w: u64| #[trigger]
                    after.worlds.contains_key(w) ==> after.worlds[w] == (WorldView {
                        known_partitions: after.worlds[w].known_partitions,
                        ..runtime.worlds[w]
                    })
                &&& after.workers == runtime.workers
            }
            &&& outcome is Ok && runtime.partitions.contains_key(partition.0) ==> after.events.len()
                > 0 && after.events.last() == (RuntimeEventView::PartitionUnregistered {
                partition,
            })
        }),
{
}

// ------------------------------------------------------------ subscriptions

/// A subscription is noted on its world exactly if the runtime runs, the world
/// is registered and the world's registry took it; it is then the registry's
/// id that is yielded. Ending it takes the same, and undoes the noting.
pub proof fn subscriptions_are_noted_and_ended(
    runtime: RuntimeView,
    world: WorldId,
    answer: Result<SubscriptionId, ErrorView>,
    ended: Result<(), ErrorView>,
)
    ensures
        ({
            let (after, outcome) = runtime.subscribed(world, answer);
            let known = runtime.state == RuntimeState::Running && runtime.worlds.contains_key(
                world.0,
            );
            &&& outcome is Ok <==> known && answer is Ok
            &&& outcome is Err ==> after == runtime
            &&& known && answer is Err ==> outcome->Err_0 == RuntimeErrorView::Core(answer->Err_0)
            &&& outcome is Ok ==> {
                let id = answer->Ok_0;
                let (back, done) = after.unsubscribed(world, id, ended);
                &&& outcome->Ok_0 == id
                &&& same_but_for_world(runtime, after, world)
                &&& after.worlds[world.0] == (WorldView {
                    subscriptions: after.worlds[world.0].subscriptions,
                    ..runtime.worlds[world.0]
                })
                &&& forall|s: u64| #[trigger]
                    after.worlds[world.0].subscriptions.contains(s) <==> s == id.0
                        || runtime.worlds[world.0].subscriptions.contains(s)
                &&& done is Ok <==> ended is Ok
                &&& done is Err ==> back == after
                &&& done is Ok ==> same_but_for_world(runtime, back, world)
                    && back.worlds[world.0] == (WorldView {
                    subscriptions: back.worlds[world.0].subscriptions,
                    ..runtime.worlds[world.0]
                })
                &&& done is Ok ==> forall|s: u64| #[trigger]
                    back.worlds[world.0].subscriptions.contains(s) <==> s != id.0
                        && runtime.worlds[world.0].subscriptions.contains(s)
            }
        }),
{
}

/// A snapshot that was asked for is counted if it was written; a world without
/// a log has none.
pub proof fn asked_snapshots_are_counted(
    runtime: RuntimeView,
    world: WorldId,
    written: Result<(), ErrorView>,
)
    ensures
        ({
            let (after, outcome) = runtime.world_snapshotted(world, written);
            let known = runtime.state == RuntimeState::Running && runtime.worlds.contains_key(
                world.0,
            );
            &&& outcome is Ok <==> known && runtime.worlds[world.0].persistent && written is Ok
            &&& same_but_for_counts(runtime, after)
            &&& outcome is Ok ==> after.metrics.snapshots == one_more(runtime.metrics.snapshots)
            &&& outcome is Err ==> after == runtime
            &&& known && !runtime.worlds[world.0].persistent ==> (outcome->Err_0 matches
                RuntimeErrorView::Persistence(error) && error is Unsupported)
            &&& known && runtime.worlds[world.0].persistent && written is Err ==> (
            outcome->Err_0 matches RuntimeErrorView::Persistence(error) && error is Internal)
        }),
{
}

// ----------------------------------------------------------------- measures

/// Every tick that ran adds its duration to the total, whether it committed or
/// not; one that committed adds its number of changes. Totals wrap.
#[verifier::spinoff_prover]
pub proof fn ticks_are_measured(runtime: RuntimeView, run: TickRunView)
    requires
        runtime.state == RuntimeState::Running,
        runtime.worlds.contains_key(run.input.world.0),
    ensures
        ({
            let after = runtime.tick_settled(run).0.metrics;
            let before = runtime.metrics;
            &&& after.tick_ns_total == (before.tick_ns_total + run.answers.duration_ns)
                % 0x1_0000_0000_0000_0000
            &&& after.ticks_total == one_more(before.ticks_total)
            &&& after.changes_committed == match run.answers.outcome {
                Ok(result) => (before.changes_committed + result.changes.len() as u64)
                    % 0x1_0000_0000_0000_0000,
                Err(_) => before.changes_committed as int,
            }
        }),
{
    if let Ok(result) = run.answers.outcome {
        let done = runtime.tick_completed(run, result);
        let appended = done.tick_appended(run.input.world, run.answers.snapshot_written);
        queueing_keeps_totals(done, result.outbound);
        queueing_keeps_totals(appended, result.outbound);
    }
}

proof fn queueing_keeps_totals(runtime: RuntimeView, messages: Seq<PartitionMessageView>)
    ensures
        ({
            let after = runtime.messages_enqueued(messages).metrics;
            &&& after.tick_ns_total == runtime.metrics.tick_ns_total
            &&& after.ticks_total == runtime.metrics.ticks_total
            &&& after.changes_committed == runtime.metrics.changes_committed
        }),
    decreases messages.len(),
{
    if messages.len() > 0 {
        queueing_keeps_totals(runtime, messages.drop_last());
    }
}

/// A tick that committed but could not be appended to its world's log fails the
/// world: it is told as a persistence failure with the log's error, nothing that
/// it sent is queued, its calls do not run again, and the world keeps its queues.
pub proof fn ticks_that_cannot_be_written_fail_their_world(runtime: RuntimeView, run: TickRunView)
    requires
        runtime.state == RuntimeState::Running,
        runtime.worlds.contains_key(run.input.world.0),
        runtime.worlds[run.input.world.0].persistent,
        run.answers.outcome is Ok,
        run.answers.appended is Err,
    ensures
        ({
            let world = run.input.world;
            let (after, outcome) = runtime.tick_settled(run);
            let before = runtime.worlds[world.0];
            let entry = after.worlds[world.0];
            &&& outcome is Err
            &&& outcome->Err_0 == RuntimeErrorView::Persistence(run.answers.appended->Err_0)
            &&& entry.state == WorldLifecycle::Failed
            &&& entry.inputs == before.inputs && entry.calls == before.calls
            &&& entry.next_tick == run.answers.next_tick
            &&& entry.ticks_since_snapshot == before.ticks_since_snapshot
            &&& after.partitions == runtime.partitions && after.workers == runtime.workers
            &&& after.metrics.wal_failures == one_more(runtime.metrics.wal_failures)
            &&& after.metrics.world_failures == one_more(runtime.metrics.world_failures)
            &&& after.metrics.wal_appends == runtime.metrics.wal_appends
            &&& after.metrics.ticks_succeeded == runtime.metrics.ticks_succeeded
            &&& after.metrics.ticks_failed == runtime.metrics.ticks_failed
            &&& after.events.len() > 0
            &&& after.events.last() == (RuntimeEventView::PersistenceFailure {
                world,
                tick: run.answers.outcome->Ok_0.tick,
                error: run.answers.appended->Err_0,
            })
        }),
{
}

/// A new runtime runs, with its configured workers all running and owning
/// nothing, no worlds, no partitions, nothing logged and nothing counted.
pub proof fn runtimes_start_out_empty(config: RuntimeConfigView)
    ensures
        ({
            let runtime = RuntimeView::initial(config);
            &&& runtime.config == config
            &&& runtime.state == RuntimeState::Running
            &&& forall|k: u64| #[trigger]
                runtime.workers.contains_key(k) <==> k < config.worker_count
            &&& forall|k: u64| #[trigger]
                runtime.workers.contains_key(k) ==> runtime.workers[k].id.0 == k
                    && runtime.workers[k].state == WorkerState::Running
                    && runtime.workers[k].worlds == Set::<u64>::empty()
            &&& runtime.worlds == Map::<u64, WorldView>::empty()
            &&& runtime.partitions.dom() == Set::<u64>::empty()
            &&& runtime.topology == Set::<u64>::empty()
            &&& runtime.sent_seq == Map::<u64, u64>::empty()
            &&& runtime.assign_counter == 0
            &&& runtime.events.len() == 0
            &&& runtime.metrics.ticks_total == 0 && runtime.metrics.ticks_succeeded == 0
            &&& runtime.metrics.ticks_failed == 0 && runtime.metrics.inputs_accepted == 0
            &&& runtime.metrics.inputs_rejected == 0 && runtime.metrics.messages_sent == 0
            &&& runtime.metrics.messages_dropped == 0 && runtime.metrics.messages_delivered == 0
            &&& runtime.metrics.reducer_calls_accepted == 0
            &&& runtime.metrics.reducer_calls_rejected == 0
            &&& runtime.metrics.wal_appends == 0 && runtime.metrics.wal_failures == 0
            &&& runtime.metrics.snapshots == 0 && runtime.metrics.world_failures == 0
            &&& runtime.metrics.world_creations == 0 && runtime.metrics.recoveries == 0
            &&& runtime.metrics.changes_committed == 0 && runtime.metrics.tick_ns_total == 0
        }),
{
}

/// A status tells of a world who owns it, its lifecycle, its next tick, how many
/// frames wait, how many subscriptions there are, and how many ticks it ran.
pub proof fn statuses_tell_of_the_world(entry: WorldView, world: WorldId)
    requires
        entry.inputs.len() <= usize::MAX,
        entry.subscriptions.len() <= usize::MAX,
    ensures
        ({
            let status = entry.status(world);
            &&& status.id == world
            &&& status.worker == entry.worker
            &&& status.state == entry.state
            &&& status.next_tick == entry.next_tick
            &&& status.queued_inputs == entry.inputs.len()
            &&& status.subscriptions == entry.subscriptions.len()
            &&& status.ticks_run == entry.ticks_run
        }),
{
}

/// How many subscriptions several worlds have together.
pub open spec fn subscriptions_on(runtime: RuntimeView, worlds: Seq<u64>) -> int
    decreases worlds.len(),
{
    if worlds.len() == 0 {
        0
    } else {
        runtime.worlds[worlds[0]].subscriptions.len() + subscriptions_on(
            runtime,
            worlds.subrange(1, worlds.len() as int),
        )
    }
}

proof fn subscriptions_on_one_more(runtime: RuntimeView, worlds: Seq<u64>)
    requires
        worlds.len() > 0,
    ensures
        subscriptions_on(runtime, worlds) == subscriptions_on(runtime, worlds.drop_last())
            + runtime.worlds[worlds.last()].subscriptions.len(),
        subscriptions_on(runtime, worlds.drop_last()) >= 0,
    decreases worlds.len(),
{
    let shorter = worlds.drop_last();
    if worlds.len() > 1 {
        let rest = worlds.subrange(1, worlds.len() as int);
        subscriptions_on_one_more(runtime, rest);
        assert(shorter.subrange(1, shorter.len() as int) =~= rest.drop_last());
    } else {
        assert(worlds.subrange(1, 1).len() == 0);
        assert(subscriptions_on(runtime, worlds.subrange(1, 1)) == 0);
    }
}

/// The total of subscriptions is the sum over the worlds, as long as it can be
/// counted at all.
pub proof fn subscriptions_are_totalled(runtime: RuntimeView, worlds: Seq<u64>)
    requires
        subscriptions_on(runtime, worlds) <= usize::MAX,
    ensures
        runtime.subscription_total(worlds) == subscriptions_on(runtime, worlds),
    decreases worlds.len(),
{
    if worlds.len() > 0 {
        subscriptions_on_one_more(runtime, worlds);
        subscriptions_are_totalled(runtime, worlds.drop_last());
    }
}

// ----------------------------------------------------------------- shutdown

/// No flush of a world's log is listed as failed.
pub open spec fn flushed_well(failures: Seq<FlushFailureView>, world: u64) -> bool {
    forall|i: int| 0 <= i < failures.len() ==> (#[trigger] failures[i]).world.0 != world
}

proof fn failures_are_found(failures: Seq<FlushFailureView>, world: WorldId)
    ensures
        flushed_well(failures, world.0) <==> failure_of(failures, world) is None,
        forall|i: int|
            0 <= i < failures.len() && (#[trigger] failures[i]).world == world && (forall|j: int|
                0 <= j < i ==> (#[trigger] failures[j]).world != world) ==> failure_of(
                failures,
                world,
            ) == Some(failures[i].error),
    decreases failures.len(),
{
    if failures.len() > 0 {
        let rest = failures.drop_first();
        failures_are_found(rest, world);
        if failures[0].world != world {
            if flushed_well(rest, world.0) {
                assert forall|i: int| 0 <= i < failures.len() implies (
                #[trigger] failures[i]).world.0 != world.0 by {
                    if i > 0 {
                        assert(rest[i - 1].world.0 != world.0);
                    }
                }
            }
            if flushed_well(failures, world.0) {
                assert forall|i: int| 0 <= i < rest.len() implies (#[trigger] rest[i]).world.0
                    != world.0 by {
                    assert(failures[i + 1].world.0 != world.0);
                }
            }
            assert forall|i: int|
                0 <= i < failures.len() && (#[trigger] failures[i]).world == world && (forall|j: int|
                    0 <= j < i ==> (#[trigger] failures[j]).world != world) implies failure_of(
                failures,
                world,
            ) == Some(failures[i].error) by {
                assert(rest[i - 1] == failures[i]);
                assert forall|j: int| 0 <= j < i - 1 implies (#[trigger] rest[j]).world
                    != world by {
                    assert(failures[j + 1].world != world);
                }
            }
        }
    }
}

proof fn last_failure_told(
    runtime: RuntimeView,
    order: Seq<u64>,
    failures: Seq<FlushFailureView>,
    k: int,
)
    requires
        0 <= k < order.len(),
        runtime.flush_failure(WorldId(order[k]), failures) is Some,
        forall|j: int|
            k < j < order.len() ==> runtime.flush_failure(WorldId(#[trigger] order[j]), failures)
                is None,
    ensures
        runtime.last_flush_error(order, failures) == Some(
            RuntimeErrorView::Persistence(
                runtime.flush_failure(WorldId(order[k]), failures)->0,
            ),
        ),
    decreases order.len(),
{
    if k < order.len() - 1 {
        assert(order[order.len() - 1] == order.last());
        let shorter = order.drop_last();
        assert forall|j: int| k < j < shorter.len() implies runtime.flush_failure(
            WorldId(#[trigger] shorter[j]),
            failures,
        ) is None by {
            assert(shorter[j] == order[j]);
        }
        last_failure_told(runtime, shorter, failures, k);
    }
}

/// The first shutdown is logged as such at the end. It answers with the flush
/// failure of the highest world that has a log and a failure listed, the first
/// one listed for it.
pub proof fn shutdown_answers_with_the_last_failure(
    runtime: RuntimeView,
    failures: Seq<FlushFailureView>,
    w: u64,
    i: int,
)
    requires
        runtime.valid(),
        runtime.state != RuntimeState::Stopped,
        runtime.worlds.contains_key(w),
        runtime.worlds[w].persistent,
        0 <= i < failures.len(),
        failures[i].world.0 == w,
        forall|j: int| 0 <= j < i ==> (#[trigger] failures[j]).world.0 != w,
        forall|v: u64|
            w < v && #[trigger] runtime.worlds.contains_key(v) && runtime.worlds[v].persistent
                ==> flushed_well(failures, v),
    ensures
        runtime.shut_down(failures).1 == Err::<(), RuntimeErrorView>(
            RuntimeErrorView::Persistence(failures[i].error),
        ),
        runtime.shut_down(failures).0.events.len() > 0,
        runtime.shut_down(failures).0.events.last() == RuntimeEventView::Shutdown,
{
    let stopping = RuntimeView { state: RuntimeState::Stopping, ..runtime };
    let order = ascending(runtime.worlds.dom());
    ascending_lists(runtime.worlds.dom());
    assert(order.to_set().contains(w));
    let k = order.index_of(w);
    failures_are_found(failures, WorldId(w));
    assert forall|j: int| 0 <= j < i implies (#[trigger] failures[j]).world != WorldId(w) by {
        assert(failures[j].world.0 != w);
    }
    assert(failures[i].world == WorldId(w));
    assert(failure_of(failures, WorldId(w)) == Some(failures[i].error));
    assert forall|j: int| k < j < order.len() implies stopping.flush_failure(
        WorldId(#[trigger] order[j]),
        failures,
    ) is None by {
        assert(order[k] < order[j]);
        assert(order.to_set().contains(order[j]));
        assert(runtime.worlds.contains_key(order[j]));
        failures_are_found(failures, WorldId(order[j]));
    }
    last_failure_told(stopping, order, failures, k);
}

} // verus!
