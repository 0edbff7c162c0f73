//! Laws of steps: the order in which a step's results and events come, what a
//! step counts, and that any number of steps comes out the same whatever the
//! number of workers.

use vstd::prelude::*;

use crate::base::error::ErrorView;
use crate::base::ids::WorldId;
use crate::base::log::{logged, logged_all};
use crate::base::message::{PartitionMessageView, TickResultView};
use crate::base::table::{ascending, ascending_lists, is_ascending};
use crate::runtime::config::TickFailurePolicy;
use crate::runtime::event::RuntimeEventView;
use crate::runtime::laws::{
    distinct_keys, owned_worlds_finite, queueing_keeps_valid, taking_input_keeps_valid, worker_ids,
};
use crate::runtime::metrics::{counted, RuntimeMetrics};
use crate::runtime::model::{worlds_of, RuntimeState, RuntimeView};
use crate::runtime::order::{
    addressed, addressed_splits, alike_but_for_workers, all_leaving, leaving, leaving_in_any_order,
    queueing_appends, queueing_keeps, ran_on, same_leave, settling_all, settling_appends,
    steps_do_not_depend_on_workers,
};
use crate::runtime::tick::{TickAnswersView, TickInputView, TickRunView};
use crate::runtime::world::{WorldLifecycle, WorldView};

verus! {

// -------------------------------------------------------------------- order

/// Whether one world comes before another in a step: by their workers, then
/// by their own ids.
pub open spec fn comes_before(runtime: RuntimeView, a: u64, b: u64) -> bool {
    let first = runtime.worlds[a].worker.0;
    let second = runtime.worlds[b].worker.0;
    first < second || (first == second && a < b)
}

/// Worlds listed in the order of a step: ascending by worker, then by id.
pub open spec fn in_step_order(runtime: RuntimeView, worlds: Seq<u64>) -> bool {
    forall|i: int, j: int|
        #![trigger worlds[i], worlds[j]]
        0 <= i < j < worlds.len() ==> comes_before(runtime, worlds[i], worlds[j])
}

proof fn worlds_of_are_in_order(runtime: RuntimeView, ids: Seq<u64>)
    requires
        runtime.valid(),
        is_ascending(ids),
        forall|i: int| 0 <= i < ids.len() ==> runtime.workers.contains_key(#[trigger] ids[i]),
    ensures
        in_step_order(runtime, worlds_of(runtime.workers, ids)),
        forall|i: int|
            0 <= i < worlds_of(runtime.workers, ids).len() ==> ids.len() > 0
                && runtime.worlds[#[trigger] worlds_of(runtime.workers, ids)[i]].worker.0
                <= ids.last(),
    decreases ids.len(),
{
    if ids.len() > 0 {
        let shorter = ids.drop_last();
        let k = ids.last();
        assert(runtime.workers.contains_key(ids[ids.len() - 1]));
        assert forall|i: int| 0 <= i < shorter.len() implies runtime.workers.contains_key(
            #[trigger] shorter[i],
        ) by {
            assert(shorter[i] == ids[i]);
        }
        assert forall|i: int, j: int| 0 <= i < j < shorter.len() implies (#[trigger] shorter[i])
            < (#[trigger] shorter[j]) by {
            assert(ids[i] < ids[j]);
        }
        worlds_of_are_in_order(runtime, shorter);
        let first = worlds_of(runtime.workers, shorter);
        owned_worlds_finite(runtime, k);
        ascending_lists(runtime.workers[k].worlds);
        let last = ascending(runtime.workers[k].worlds);
        let all = worlds_of(runtime.workers, ids);
        assert(all == first + last);
        assert forall|j: int| 0 <= j < last.len() implies runtime.worlds[#[trigger] last[j]].worker.0
            == k by {
            assert(last.to_set().contains(last[j]));
            assert(runtime.workers[k].worlds.contains(last[j]));
        }
        if shorter.len() > 0 {
            assert(ids[shorter.len() - 1] < ids[ids.len() - 1]);
        }
        assert forall|i: int| 0 <= i < all.len() implies runtime.worlds[#[trigger] all[i]].worker.0
            <= k by {
            if i < first.len() {
                assert(all[i] == first[i]);
            } else {
                assert(all[i] == last[i - first.len()]);
            }
        }
        assert forall|i: int, j: int|
            #![trigger all[i], all[j]]
            0 <= i < j < all.len() implies comes_before(runtime, all[i], all[j]) by {
            if j < first.len() {
                assert(all[i] == first[i] && all[j] == first[j]);
            } else if i < first.len() {
                assert(all[i] == first[i]);
                assert(all[j] == last[j - first.len()]);
            } else {
                assert(all[i] == last[i - first.len()]);
                assert(all[j] == last[j - first.len()]);
            }
        }
    }
}

/// A step visits its worlds in ascending order of their workers, then of their
/// ids.
pub proof fn steps_go_by_worker_and_world(runtime: RuntimeView)
    requires
        runtime.valid(),
    ensures
        in_step_order(runtime, runtime.tick_order()),
{
    let ids = ascending(runtime.workers.dom());
    worker_ids(runtime);
    assert forall|i: int| 0 <= i < ids.len() implies runtime.workers.contains_key(
        #[trigger] ids[i],
    ) by {
        assert(ids.to_set().contains(ids[i]));
    }
    worlds_of_are_in_order(runtime, ids);
}

/// Inputs of worlds in the order of a step.
pub open spec fn inputs_in_order(runtime: RuntimeView, inputs: Seq<TickInputView>) -> bool {
    forall|i: int, j: int|
        #![trigger inputs[i], inputs[j]]
        0 <= i < j < inputs.len() ==> comes_before(
            runtime,
            inputs[i].world.0,
            inputs[j].world.0,
        )
}

proof fn inputs_are_in_order(runtime: RuntimeView, later: RuntimeView, order: Seq<u64>)
    requires
        in_step_order(runtime, order),
    ensures
        inputs_in_order(runtime, later.inputs_taken(order).1),
        forall|i: int|
            0 <= i < later.inputs_taken(order).1.len() ==> order.contains(
                (#[trigger] later.inputs_taken(order).1[i]).world.0,
            ),
    decreases order.len(),
{
    if order.len() > 0 {
        let shorter = order.drop_last();
        assert forall|i: int, j: int|
            #![trigger shorter[i], shorter[j]]
            0 <= i < j < shorter.len() implies comes_before(runtime, shorter[i], shorter[j]) by {
            assert(shorter[i] == order[i] && shorter[j] == order[j]);
        }
        inputs_are_in_order(runtime, later, shorter);
        let earlier = later.inputs_taken(shorter).1;
        let inputs = later.inputs_taken(order).1;
        let last = order.len() - 1;
        assert forall|i: int| 0 <= i < inputs.len() implies order.contains(
            (#[trigger] inputs[i]).world.0,
        ) by {
            if i < earlier.len() {
                assert(inputs[i] == earlier[i]);
                let k = choose|k: int| 0 <= k < shorter.len() && shorter[k] == earlier[i].world.0;
                assert(order[k] == earlier[i].world.0);
            } else {
                assert(order[last] == inputs[i].world.0);
            }
        }
        assert forall|i: int, j: int|
            #![trigger inputs[i], inputs[j]]
            0 <= i < j < inputs.len() implies comes_before(
            runtime,
            inputs[i].world.0,
            inputs[j].world.0,
        ) by {
            assert(inputs[i] == earlier[i]);
            if j < earlier.len() {
                assert(inputs[j] == earlier[j]);
            } else {
                let k = choose|k: int| 0 <= k < shorter.len() && shorter[k] == earlier[i].world.0;
                assert(comes_before(runtime, order[k], order[last]));
            }
        }
    }
}

/// Ticks of worlds in the order of a step.
pub open spec fn runs_in_order(runtime: RuntimeView, runs: Seq<TickRunView>) -> bool {
    forall|i: int, j: int|
        #![trigger runs[i], runs[j]]
        0 <= i < j < runs.len() ==> comes_before(
            runtime,
            runs[i].input.world.0,
            runs[j].input.world.0,
        )
}

proof fn fewer_in_order(runtime: RuntimeView, runs: Seq<TickRunView>)
    requires
        runs_in_order(runtime, runs),
        runs.len() > 0,
    ensures
        runs_in_order(runtime, runs.drop_last()),
{
    let shorter = runs.drop_last();
    assert forall|i: int, j: int|
        #![trigger shorter[i], shorter[j]]
        0 <= i < j < shorter.len() implies comes_before(
        runtime,
        shorter[i].input.world.0,
        shorter[j].input.world.0,
    ) by {
        assert(shorter[i] == runs[i] && shorter[j] == runs[j]);
    }
}

/// Results of worlds in the order of a step.
pub open spec fn results_in_order(
    runtime: RuntimeView,
    results: Seq<(WorldId, TickResultView)>,
) -> bool {
    forall|i: int, j: int|
        #![trigger results[i], results[j]]
        0 <= i < j < results.len() ==> comes_before(runtime, results[i].0.0, results[j].0.0)
}

/// The ticks of a step that are settled in the order of the step yield their
/// results in that order: ascending by worker, then by world.
pub proof fn results_come_in_order(
    runtime: RuntimeView,
    later: RuntimeView,
    runs: Seq<TickRunView>,
)
    requires
        runs_in_order(runtime, runs),
    ensures
        results_in_order(runtime, later.committed_results(runs)),
        forall|i: int|
            0 <= i < later.committed_results(runs).len() ==> exists|k: int|
                0 <= k < runs.len() && (#[trigger] runs[k]).input.world
                    == (#[trigger] later.committed_results(runs)[i]).0,
    decreases runs.len(),
{
    if runs.len() > 0 {
        let shorter = runs.drop_last();
        fewer_in_order(runtime, runs);
        results_come_in_order(runtime, later, shorter);
        let earlier = later.committed_results(shorter);
        let results = later.committed_results(runs);
        let last = runs.len() - 1;
        assert forall|i: int| 0 <= i < results.len() implies exists|k: int|
            0 <= k < runs.len() && (#[trigger] runs[k]).input.world == (#[trigger] results[i]).0 by {
            if i < earlier.len() {
                assert(results[i] == earlier[i]);
                let k = choose|k: int|
                    0 <= k < shorter.len() && (#[trigger] shorter[k]).input.world == earlier[i].0;
                assert(runs[k].input.world == results[i].0);
            } else {
                assert(runs[last].input.world == results[i].0);
            }
        }
        assert forall|i: int, j: int|
            #![trigger results[i], results[j]]
            0 <= i < j < results.len() implies comes_before(
            runtime,
            results[i].0.0,
            results[j].0.0,
        ) by {
            assert(results[i] == earlier[i]);
            if j < earlier.len() {
                assert(results[j] == earlier[j]);
            } else {
                let k = choose|k: int|
                    0 <= k < shorter.len() && (#[trigger] shorter[k]).input.world == earlier[i].0;
                assert(shorter[k] == runs[k]);
                assert(comes_before(
                    runtime,
                    runs[k].input.world.0,
                    runs[last].input.world.0,
                ));
            }
        }
    }
}

// ------------------------------------------------------------------- events

/// The worlds of the completed ticks among some events, in order.
pub open spec fn completions(events: Seq<RuntimeEventView>) -> Seq<u64>
    decreases events.len(),
{
    if events.len() == 0 {
        Seq::empty()
    } else {
        let earlier = completions(events.drop_last());
        match events.last() {
            RuntimeEventView::TickCompleted { world, .. } => earlier.push(world.0),
            _ => earlier,
        }
    }
}

/// The worlds of the ticks, among some, that committed, in order.
pub open spec fn committing(runtime: RuntimeView, runs: Seq<TickRunView>) -> Seq<u64>
    decreases runs.len(),
{
    if runs.len() == 0 {
        Seq::empty()
    } else {
        let earlier = committing(runtime, runs.drop_last());
        let run = runs.last();
        if runtime.running() && runtime.worlds.contains_key(run.input.world.0)
            && run.answers.outcome is Ok {
            earlier.push(run.input.world.0)
        } else {
            earlier
        }
    }
}

proof fn one_more_event(events: Seq<RuntimeEventView>, event: RuntimeEventView)
    ensures
        completions(events.push(event)) == match event {
            RuntimeEventView::TickCompleted { world, .. } => completions(events).push(world.0),
            _ => completions(events),
        },
{
    assert(events.push(event).drop_last() =~= events);
}

proof fn one_more_logged(
    log: Seq<RuntimeEventView>,
    limit: nat,
    events: Seq<RuntimeEventView>,
    event: RuntimeEventView,
)
    ensures
        logged_all(log, limit, events.push(event)) == logged(
            logged_all(log, limit, events),
            limit,
            event,
        ),
{
    assert(events.push(event).drop_last() =~= events);
}

/// What the log gained between two points, with the worlds of the completed
/// ticks in it.
pub open spec fn gained(
    before: RuntimeView,
    after: RuntimeView,
    news: Seq<RuntimeEventView>,
    worlds: Seq<u64>,
) -> bool {
    &&& after.config == before.config
    &&& after.events == logged_all(
        before.events,
        before.config.event_log_limit as nat,
        news,
    )
    &&& completions(news) == worlds
}

proof fn gained_with(
    before: RuntimeView,
    after: RuntimeView,
    news: Seq<RuntimeEventView>,
    worlds: Seq<u64>,
    event: RuntimeEventView,
)
    requires
        gained(before, after, news, worlds),
    ensures
        gained(
            before,
            after.with_event(event),
            news.push(event),
            match event {
                RuntimeEventView::TickCompleted { world, .. } => worlds.push(world.0),
                _ => worlds,
            },
        ),
{
    one_more_event(news, event);
    one_more_logged(before.events, before.config.event_log_limit as nat, news, event);
}

proof fn queueing_gains(
    before: RuntimeView,
    after: RuntimeView,
    news: Seq<RuntimeEventView>,
    worlds: Seq<u64>,
    messages: Seq<PartitionMessageView>,
) -> (all: Seq<RuntimeEventView>)
    requires
        gained(before, after, news, worlds),
    ensures
        gained(before, after.messages_enqueued(messages), all, worlds),
    decreases messages.len(),
{
    if messages.len() == 0 {
        news
    } else {
        let earlier = queueing_gains(before, after, news, worlds, messages.drop_last());
        let queued = after.messages_enqueued(messages.drop_last());
        let next = queued.message_enqueued(messages.last());
        if next.events == queued.events {
            earlier
        } else {
            let m = messages.last();
            let reason = if !queued.partitions.contains_key(m.to.0) {
                ErrorView::NotFound("destination partition is not registered"@)
            } else {
                ErrorView::Capacity("destination inbound queue is full"@)
            };
            let event = RuntimeEventView::MessageDropped { from: m.from, to: m.to, reason };
            gained_with(before, queued, earlier, worlds, event);
            earlier.push(event)
        }
    }
}

proof fn settling_gains(
    before: RuntimeView,
    after: RuntimeView,
    news: Seq<RuntimeEventView>,
    worlds: Seq<u64>,
    run: TickRunView,
) -> (all: Seq<RuntimeEventView>)
    requires
        gained(before, after, news, worlds),
    ensures
        gained(
            before,
            after.tick_settled(run).0,
            all,
            if after.running() && after.worlds.contains_key(run.input.world.0)
                && run.answers.outcome is Ok {
                worlds.push(run.input.world.0)
            } else {
                worlds
            },
        ),
{
    let world = run.input.world;
    if !after.running() || !after.worlds.contains_key(world.0) {
        news
    } else {
        match run.answers.outcome {
            Err(failure) => {
                let failed = RuntimeEventView::TickFailed {
                    world,
                    tick: failure.tick,
                    error: failure.error,
                };
                gained_with(before, after, news, worlds, failed);
                let lost = RuntimeEventView::WorldFailed { world, reason: failure.error };
                gained_with(before, after.with_event(failed), news.push(failed), worlds, lost);
                match after.config.tick_failure_policy {
                    TickFailurePolicy::FailWorld => news.push(failed).push(
                        lost,
                    ),
                    TickFailurePolicy::Continue => news.push(failed),
                }
            },
            Ok(result) => {
                let done = RuntimeEventView::TickCompleted {
                    world,
                    tick: result.tick,
                    duration_ns: run.answers.duration_ns,
                };
                gained_with(before, after, news, worlds, done);
                let completed = after.tick_completed(run, result);
                let told = news.push(done);
                assert(gained(before, completed, told, worlds.push(world.0)));
                if !after.worlds[world.0].persistent {
                    queueing_gains(
                        before,
                        completed,
                        told,
                        worlds.push(world.0),
                        result.outbound,
                    )
                } else {
                    match run.answers.appended {
                        Err(error) => {
                            let lost = RuntimeEventView::PersistenceFailure {
                                world,
                                tick: result.tick,
                                error,
                            };
                            gained_with(before, completed, told, worlds.push(world.0), lost);
                            told.push(lost)
                        },
                        Ok(_) => queueing_gains(
                            before,
                            completed.tick_appended(world, run.answers.snapshot_written),
                            told,
                            worlds.push(world.0),
                            result.outbound,
                        ),
                    }
                }
            },
        }
    }
}

proof fn all_settling_gains(runtime: RuntimeView, runs: Seq<TickRunView>) -> (news: Seq<
    RuntimeEventView,
>)
    ensures
        gained(runtime, runtime.ticks_settled(runs).0, news, committing(runtime, runs)),
    decreases runs.len(),
{
    if runs.len() == 0 {
        Seq::empty()
    } else {
        let shorter = runs.drop_last();
        let earlier = all_settling_gains(runtime, shorter);
        let before = runtime.ticks_settled(shorter).0;
        settling_all(runtime, shorter);
        let w = runs.last().input.world.0;
        assert(runtime.worlds.contains_key(w) <==> before.worlds.contains_key(w));
        settling_gains(runtime, before, earlier, committing(runtime, shorter), runs.last())
    }
}

proof fn committing_in_order(runtime: RuntimeView, later: RuntimeView, runs: Seq<TickRunView>)
    requires
        runs_in_order(runtime, runs),
    ensures
        in_step_order(runtime, committing(later, runs)),
        forall|i: int|
            0 <= i < committing(later, runs).len() ==> exists|k: int|
                0 <= k < runs.len() && (#[trigger] runs[k]).input.world.0
                    == #[trigger] committing(later, runs)[i],
    decreases runs.len(),
{
    if runs.len() > 0 {
        let shorter = runs.drop_last();
        fewer_in_order(runtime, runs);
        committing_in_order(runtime, later, shorter);
        let earlier = committing(later, shorter);
        let worlds = committing(later, runs);
        let last = runs.len() - 1;
        assert forall|i: int| 0 <= i < worlds.len() implies exists|k: int|
            0 <= k < runs.len() && (#[trigger] runs[k]).input.world.0 == #[trigger] worlds[i] by {
            if i < earlier.len() {
                assert(worlds[i] == earlier[i]);
                let k = choose|k: int|
                    0 <= k < shorter.len() && (#[trigger] shorter[k]).input.world.0 == earlier[i];
                assert(runs[k].input.world.0 == worlds[i]);
            } else {
                assert(runs[last].input.world.0 == worlds[i]);
            }
        }
        assert forall|i: int, j: int|
            #![trigger worlds[i], worlds[j]]
            0 <= i < j < worlds.len() implies comes_before(runtime, worlds[i], worlds[j]) by {
            assert(worlds[i] == earlier[i]);
            if j < earlier.len() {
                assert(worlds[j] == earlier[j]);
            } else {
                let k = choose|k: int|
                    0 <= k < shorter.len() && (#[trigger] shorter[k]).input.world.0 == earlier[i];
                assert(shorter[k] == runs[k]);
                assert(comes_before(
                    runtime,
                    runs[k].input.world.0,
                    runs[last].input.world.0,
                ));
            }
        }
    }
}

// -------------------------------------------------------------------- steps

/// One step: every running world takes its input, in the order of the step,
/// and its tick is settled, in the same order, with what came of it.
pub open spec fn stepped(
    runtime: RuntimeView,
    answers: spec_fn(TickInputView) -> TickAnswersView,
) -> RuntimeView {
    let (planned, inputs) = runtime.inputs_taken(runtime.tick_order());
    planned.ticks_settled(ran_on(inputs, answers)).0
}

/// A step's results come in ascending order of workers, then of worlds, and so
/// do the completed ticks among the events that it adds to the log.
pub proof fn steps_report_in_order(
    runtime: RuntimeView,
    answers: spec_fn(TickInputView) -> TickAnswersView,
)
    requires
        runtime.valid(),
    ensures
        ({
            let (planned, inputs) = runtime.inputs_taken(runtime.tick_order());
            let runs = ran_on(inputs, answers);
            let after = stepped(runtime, answers);
            &&& inputs_in_order(runtime, inputs)
            &&& results_in_order(runtime, planned.committed_results(runs))
            &&& exists|news: Seq<RuntimeEventView>|
                after.events == #[trigger] logged_all(
                    runtime.events,
                    runtime.config.event_log_limit as nat,
                    news,
                ) && in_step_order(runtime, completions(news))
        }),
{
    let order = runtime.tick_order();
    let (planned, inputs) = runtime.inputs_taken(order);
    let runs = ran_on(inputs, answers);
    steps_go_by_worker_and_world(runtime);
    inputs_are_in_order(runtime, runtime, order);
    assert forall|i: int, j: int|
        #![trigger runs[i], runs[j]]
        0 <= i < j < runs.len() implies comes_before(
        runtime,
        runs[i].input.world.0,
        runs[j].input.world.0,
    ) by {
        assert(comes_before(runtime, inputs[i].world.0, inputs[j].world.0));
    }
    results_come_in_order(runtime, planned, runs);
    planning_keeps_the_rest(runtime, order);
    committing_in_order(runtime, planned, runs);
    let news = all_settling_gains(planned, runs);
    assert(stepped(runtime, answers).events == logged_all(
        runtime.events,
        runtime.config.event_log_limit as nat,
        news,
    ));
}

/// Taking inputs changes no counter but that of delivered messages, and adds
/// nothing to the log.
pub proof fn planning_keeps_the_rest(runtime: RuntimeView, order: Seq<u64>)
    ensures
        ({
            let (planned, inputs) = runtime.inputs_taken(order);
            &&& planned.events == runtime.events
            &&& planned.config == runtime.config
            &&& planned.state == runtime.state
            &&& planned.metrics == (RuntimeMetrics {
                messages_delivered: plus(
                    runtime.metrics.messages_delivered,
                    total(inputs, delivered_weight()),
                ),
                ..runtime.metrics
            })
        }),
    decreases order.len(),
{
    let before = runtime.metrics.messages_delivered;
    plus_adds(before, 0, 0);
    if order.len() > 0 {
        planning_keeps_the_rest(runtime, order.drop_last());
        let (earlier, inputs) = runtime.inputs_taken(order.drop_last());
        let world = WorldId(order.last());
        if earlier.ticks(world.0) {
            let input = earlier.tick_input(world);
            assert(inputs.push(input).drop_last() =~= inputs);
            plus_adds(before, total(inputs, delivered_weight()), delivered_weight()(input));
        }
    }
}

// ----------------------------------------------------------------- counters

/// A counter after some more counts: modulo the counter's range.
pub open spec fn plus(count: u64, more: nat) -> u64 {
    ((count + more) % 0x1_0000_0000_0000_0000) as u64
}

proof fn plus_adds(count: u64, a: nat, b: nat)
    ensures
        plus(plus(count, a), b) == plus(count, a + b),
        plus(count, 0) == count,
        counted(count) == plus(count, 1),
{
    let m = 0x1_0000_0000_0000_0000int;
    vstd::arithmetic::div_mod::lemma_add_mod_noop_right(b as int, count + a, m);
    vstd::arithmetic::div_mod::lemma_mod_bound(count + a, m);
    assert(plus(count, a) as int == (count + a) % m);
    assert((b + (count + a) % m) % m == (b + (count + a)) % m);
    assert((plus(count, a) + b) % m == (count + (a + b)) % m);
}

/// A sum over the items of a list.
pub open spec fn total<A>(items: Seq<A>, weight: spec_fn(A) -> nat) -> nat
    decreases items.len(),
{
    if items.len() == 0 {
        0
    } else {
        total(items.drop_last(), weight) + weight(items.last())
    }
}

proof fn total_without<A>(items: Seq<A>, i: int, weight: spec_fn(A) -> nat)
    requires
        0 <= i < items.len(),
    ensures
        total(items, weight) == total(items.remove(i), weight) + weight(items[i]),
    decreases items.len(),
{
    if i == items.len() - 1 {
        assert(items.remove(i) =~= items.drop_last());
    } else {
        let shorter = items.drop_last();
        total_without(shorter, i, weight);
        assert(items.remove(i).drop_last() =~= shorter.remove(i));
        assert(items.remove(i).last() == items.last());
        assert(shorter[i] == items[i]);
    }
}

proof fn total_in_any_order<A>(items: Seq<A>, other: Seq<A>, weight: spec_fn(A) -> nat)
    requires
        items.to_multiset() == other.to_multiset(),
    ensures
        total(items, weight) == total(other, weight),
    decreases items.len(),
{
    broadcast use vstd::seq_lib::group_to_multiset_ensures;

    assert(items.to_multiset().len() == items.len());
    assert(other.to_multiset().len() == other.len());
    if items.len() == 0 {
        assert(items =~= other);
    } else {
        let item = items.last();
        let n = items.len() - 1;
        assert(items.contains(item)) by {
            assert(items[n] == item);
        }
        assert(other.contains(item)) by {
            assert(items.to_multiset().count(item) > 0);
        }
        let i = choose|i: int| 0 <= i < other.len() && other[i] == item;
        assert(items.remove(n) =~= items.drop_last());
        assert(items.remove(n).to_multiset() =~= items.to_multiset().remove(items[n]));
        assert(other.remove(i).to_multiset() =~= other.to_multiset().remove(other[i]));
        total_in_any_order(items.drop_last(), other.remove(i), weight);
        total_without(other, i, weight);
    }
}

/// How many messages an input brings, as they are counted.
pub open spec fn delivered_weight() -> spec_fn(TickInputView) -> nat {
    |input: TickInputView| input.delivered.len() as u64 as nat
}

/// Whether a tick that was run is settled at all: the runtime runs and the
/// world is registered.
pub open spec fn taken_up(runtime: RuntimeView, run: TickRunView) -> bool {
    runtime.running() && runtime.worlds.contains_key(run.input.world.0)
}

/// How many of some messages are for a registered partition.
pub open spec fn routed(runtime: RuntimeView, messages: Seq<PartitionMessageView>) -> nat
    decreases messages.len(),
{
    if messages.len() == 0 {
        0
    } else {
        let earlier = routed(runtime, messages.drop_last());
        if runtime.partitions.contains_key(messages.last().to.0) {
            earlier + 1
        } else {
            earlier
        }
    }
}

/// What a tick that was run adds to the count of ticks.
pub open spec fn tick_weight(runtime: RuntimeView) -> spec_fn(TickRunView) -> nat {
    |run: TickRunView|
        if taken_up(runtime, run) {
            1
        } else {
            0
        }
}

/// What a tick that was run adds to the count of successes.
pub open spec fn success_weight(runtime: RuntimeView) -> spec_fn(TickRunView) -> nat {
    |run: TickRunView|
        if taken_up(runtime, run) && run.answers.outcome is Ok && runtime.durable(run) {
            1
        } else {
            0
        }
}

/// What a tick that was run adds to the count of failures.
pub open spec fn failure_weight(runtime: RuntimeView) -> spec_fn(TickRunView) -> nat {
    |run: TickRunView|
        if taken_up(runtime, run) && run.answers.outcome is Err {
            1
        } else {
            0
        }
}

/// What a tick that was run adds to the count of messages sent, if no queue
/// overflows.
pub open spec fn sent_weight(runtime: RuntimeView) -> spec_fn(TickRunView) -> nat {
    |run: TickRunView| routed(runtime, leaving(runtime, run))
}

/// Two runtimes have counted the same ticks and the same messages.
pub open spec fn same_counts(a: RuntimeView, b: RuntimeView) -> bool {
    &&& a.metrics.ticks_total == b.metrics.ticks_total
    &&& a.metrics.ticks_succeeded == b.metrics.ticks_succeeded
    &&& a.metrics.ticks_failed == b.metrics.ticks_failed
    &&& a.metrics.messages_sent == b.metrics.messages_sent
    &&& a.metrics.messages_delivered == b.metrics.messages_delivered
}

/// Every queue has room for some more messages.
pub open spec fn has_room(runtime: RuntimeView, messages: Seq<PartitionMessageView>) -> bool {
    forall|p: u64| #[trigger]
        runtime.partitions.contains_key(p) ==> runtime.partitions[p].inbound.len() + addressed(
            messages,
            p,
        ).len() <= runtime.config.max_queued_partition_messages
}

proof fn room_for_fewer(runtime: RuntimeView, messages: Seq<PartitionMessageView>)
    requires
        has_room(runtime, messages),
        messages.len() > 0,
    ensures
        has_room(runtime, messages.drop_last()),
{
    assert forall|p: u64| #[trigger]
        runtime.partitions.contains_key(p) implies runtime.partitions[p].inbound.len() + addressed(
        messages.drop_last(),
        p,
    ).len() <= runtime.config.max_queued_partition_messages by {
        assert(addressed(messages, p).len() >= addressed(messages.drop_last(), p).len());
    }
}

proof fn queueing_is_counted(runtime: RuntimeView, messages: Seq<PartitionMessageView>)
    requires
        has_room(runtime, messages),
    ensures
        ({
            let after = runtime.messages_enqueued(messages).metrics;
            &&& after.messages_sent == plus(
                runtime.metrics.messages_sent,
                routed(runtime, messages),
            )
            &&& after.ticks_total == runtime.metrics.ticks_total
            &&& after.ticks_succeeded == runtime.metrics.ticks_succeeded
            &&& after.ticks_failed == runtime.metrics.ticks_failed
            &&& after.messages_delivered == runtime.metrics.messages_delivered
        }),
    decreases messages.len(),
{
    let start = runtime.metrics.messages_sent;
    plus_adds(start, 0, 0);
    if messages.len() > 0 {
        let earlier = messages.drop_last();
        room_for_fewer(runtime, messages);
        queueing_is_counted(runtime, earlier);
        queueing_keeps(runtime, earlier);
        plus_adds(start, routed(runtime, earlier), 1);
        plus_adds(plus(start, routed(runtime, earlier)), 0, 0);
        let before = runtime.messages_enqueued(earlier);
        let p = messages.last().to.0;
        assert(before.partitions.contains_key(p) <==> runtime.partitions.contains_key(p));
        if runtime.partitions.contains_key(p) {
            queueing_appends(runtime, earlier, p);
            assert(addressed(messages, p).len() == addressed(earlier, p).len() + 1);
        }
    }
}

proof fn routed_alike(a: RuntimeView, b: RuntimeView, messages: Seq<PartitionMessageView>)
    requires
        forall|p: u64| #[trigger] a.partitions.contains_key(p) <==> b.partitions.contains_key(p),
    ensures
        routed(a, messages) == routed(b, messages),
    decreases messages.len(),
{
    if messages.len() > 0 {
        routed_alike(a, b, messages.drop_last());
        let p = messages.last().to.0;
        assert(a.partitions.contains_key(p) <==> b.partitions.contains_key(p));
    }
}

proof fn settling_is_counted(runtime: RuntimeView, run: TickRunView)
    requires
        has_room(runtime, leaving(runtime, run)),
    ensures
        ({
            let before = runtime.metrics;
            let after = runtime.tick_settled(run).0.metrics;
            &&& after.ticks_total == plus(before.ticks_total, tick_weight(runtime)(run))
            &&& after.ticks_succeeded == plus(
                before.ticks_succeeded,
                success_weight(runtime)(run),
            )
            &&& after.ticks_failed == plus(before.ticks_failed, failure_weight(runtime)(run))
            &&& after.messages_sent == plus(before.messages_sent, sent_weight(runtime)(run))
            &&& after.messages_delivered == before.messages_delivered
        }),
{
    let before = runtime.metrics;
    plus_adds(before.ticks_total, 0, 0);
    plus_adds(before.ticks_succeeded, 0, 0);
    plus_adds(before.ticks_failed, 0, 0);
    plus_adds(before.messages_sent, 0, 0);
    if taken_up(runtime, run) {
        if let Ok(result) = run.answers.outcome {
            if runtime.durable(run) {
                let done = runtime.tick_completed(run, result);
                let queueing = if runtime.worlds[run.input.world.0].persistent {
                    done.tick_appended(run.input.world, run.answers.snapshot_written)
                } else {
                    done
                };
                assert(queueing.partitions == runtime.partitions);
                assert(queueing.config == runtime.config);
                assert(has_room(queueing, result.outbound));
                queueing_is_counted(queueing, result.outbound);
                routed_alike(runtime, queueing, result.outbound);
            }
        }
    }
}

proof fn all_settling_is_counted(runtime: RuntimeView, runs: Seq<TickRunView>)
    requires
        has_room(runtime, all_leaving(runtime, runs)),
    ensures
        ({
            let before = runtime.metrics;
            let after = runtime.ticks_settled(runs).0.metrics;
            &&& after.ticks_total == plus(before.ticks_total, total(runs, tick_weight(runtime)))
            &&& after.ticks_succeeded == plus(
                before.ticks_succeeded,
                total(runs, success_weight(runtime)),
            )
            &&& after.ticks_failed == plus(
                before.ticks_failed,
                total(runs, failure_weight(runtime)),
            )
            &&& after.messages_sent == plus(
                before.messages_sent,
                total(runs, sent_weight(runtime)),
            )
            &&& after.messages_delivered == before.messages_delivered
        }),
    decreases runs.len(),
{
    let start = runtime.metrics;
    plus_adds(start.ticks_total, 0, 0);
    plus_adds(start.ticks_succeeded, 0, 0);
    plus_adds(start.ticks_failed, 0, 0);
    plus_adds(start.messages_sent, 0, 0);
    if runs.len() > 0 {
        let shorter = runs.drop_last();
        let run = runs.last();
        let w = run.input.world.0;
        let earlier = all_leaving(runtime, shorter);
        let last = leaving(runtime, run);
        let before = runtime.ticks_settled(shorter).0;
        settling_all(runtime, shorter);
        assert(runtime.worlds.contains_key(w) <==> before.worlds.contains_key(w));
        assert(leaving(before, run) == last);
        assert forall|p: u64| #[trigger]
            runtime.partitions.contains_key(p) implies runtime.partitions[p].inbound.len()
            + addressed(earlier, p).len() <= runtime.config.max_queued_partition_messages by {
            addressed_splits(earlier, last, p);
        }
        all_settling_is_counted(runtime, shorter);
        assert forall|p: u64| #[trigger]
            before.partitions.contains_key(p) implies before.partitions[p].inbound.len()
            + addressed(last, p).len() <= before.config.max_queued_partition_messages by {
            assert(runtime.partitions.contains_key(p));
            addressed_splits(earlier, last, p);
            settling_appends(runtime, shorter, p);
        }
        settling_is_counted(before, run);
        routed_alike(runtime, before, last);
        assert(tick_weight(before)(run) == tick_weight(runtime)(run));
        assert(success_weight(before)(run) == success_weight(runtime)(run));
        assert(failure_weight(before)(run) == failure_weight(runtime)(run));
        assert(sent_weight(before)(run) == sent_weight(runtime)(run));
        plus_adds(
            start.ticks_total,
            total(shorter, tick_weight(runtime)),
            tick_weight(runtime)(run),
        );
        plus_adds(
            start.ticks_succeeded,
            total(shorter, success_weight(runtime)),
            success_weight(runtime)(run),
        );
        plus_adds(
            start.ticks_failed,
            total(shorter, failure_weight(runtime)),
            failure_weight(runtime)(run),
        );
        plus_adds(
            start.messages_sent,
            total(shorter, sent_weight(runtime)),
            sent_weight(runtime)(run),
        );
    }
}

proof fn weights_agree(a: RuntimeView, b: RuntimeView, run: TickRunView)
    requires
        alike_but_for_workers(a, b),
    ensures
        tick_weight(a)(run) == tick_weight(b)(run),
        success_weight(a)(run) == success_weight(b)(run),
        failure_weight(a)(run) == failure_weight(b)(run),
        sent_weight(a)(run) == sent_weight(b)(run),
{
    let w = run.input.world.0;
    assert(a.worlds.contains_key(w) <==> b.worlds.contains_key(w));
    assert(leaving(a, run) == leaving(b, run));
    routed_alike(a, b, leaving(a, run));
}

proof fn same_weights(a: RuntimeView, b: RuntimeView)
    requires
        alike_but_for_workers(a, b),
    ensures
        tick_weight(a) == tick_weight(b),
        success_weight(a) == success_weight(b),
        failure_weight(a) == failure_weight(b),
        sent_weight(a) == sent_weight(b),
{
    assert(tick_weight(a) =~= tick_weight(b)) by {
        assert forall|run: TickRunView| #[trigger] tick_weight(a)(run) == tick_weight(b)(run) by {
            weights_agree(a, b, run);
        }
    }
    assert(success_weight(a) =~= success_weight(b)) by {
        assert forall|run: TickRunView| #[trigger] success_weight(a)(run) == success_weight(b)(run) by {
            weights_agree(a, b, run);
        }
    }
    assert(failure_weight(a) =~= failure_weight(b)) by {
        assert forall|run: TickRunView| #[trigger] failure_weight(a)(run) == failure_weight(b)(run) by {
            weights_agree(a, b, run);
        }
    }
    assert(sent_weight(a) =~= sent_weight(b)) by {
        assert forall|run: TickRunView| #[trigger] sent_weight(a)(run) == sent_weight(b)(run) by {
            weights_agree(a, b, run);
        }
    }
}

proof fn same_room(
    a: RuntimeView,
    b: RuntimeView,
    runs: Seq<TickRunView>,
    other: Seq<TickRunView>,
)
    requires
        alike_but_for_workers(a, b),
        runs.to_multiset() == other.to_multiset(),
        has_room(a, all_leaving(a, runs)),
    ensures
        has_room(b, all_leaving(b, other)),
{
    broadcast use vstd::seq_lib::group_to_multiset_ensures;

    same_leave(a, b, other);
    assert forall|p: u64| #[trigger]
        b.partitions.contains_key(p) implies b.partitions[p].inbound.len() + addressed(
        all_leaving(b, other),
        p,
    ).len() <= b.config.max_queued_partition_messages by {
        assert(a.partitions.contains_key(p) <==> b.partitions.contains_key(p));
        leaving_in_any_order(a, runs, other, p);
        let first = addressed(all_leaving(a, runs), p);
        let second = addressed(all_leaving(b, other), p);
        assert(first.to_multiset().len() == first.len());
        assert(second.to_multiset().len() == second.len());
        let before = a.partitions[p].inbound;
        let also = b.partitions[p].inbound;
        assert(before.to_multiset().len() == before.len());
        assert(also.to_multiset().len() == also.len());
    }
}

// --------------------------------------------------------------- invariants

proof fn noting_keeps_valid(runtime: RuntimeView, event: RuntimeEventView)
    requires
        runtime.valid(),
    ensures
        runtime.with_event(event).valid(),
{
}

proof fn replacing_keeps_valid(runtime: RuntimeView, world: WorldId, entry: WorldView)
    requires
        runtime.valid(),
        runtime.worlds.contains_key(world.0),
        entry.worker == runtime.worlds[world.0].worker,
        runtime.state != RuntimeState::Stopped,
    ensures
        runtime.with_world(world, entry).valid(),
{
    let after = runtime.with_world(world, entry);
    assert(after.worlds.dom() =~= runtime.worlds.dom());
    assert forall|w: u64| #[trigger] after.worlds.contains_key(w) implies after.workers.contains_key(
        after.worlds[w].worker.0,
    ) && after.workers[after.worlds[w].worker.0].worlds.contains(w) by {
        assert(runtime.worlds.contains_key(w));
    }
    assert forall|p: u64| #[trigger] after.partitions.contains_key(
        p,
    ) implies after.worlds.contains_key(after.partitions[p].world.0) && after.partitions[p].worker
        == after.worlds[after.partitions[p].world.0].worker by {
        assert(runtime.partitions.contains_key(p));
    }
}

proof fn counting_keeps_valid(runtime: RuntimeView, metrics: RuntimeMetrics)
    requires
        runtime.valid(),
    ensures
        (RuntimeView { metrics, ..runtime }).valid(),
{
}

proof fn queueing_all_keeps_valid(runtime: RuntimeView, messages: Seq<PartitionMessageView>)
    requires
        runtime.valid(),
    ensures
        runtime.messages_enqueued(messages).valid(),
    decreases messages.len(),
{
    if messages.len() > 0 {
        queueing_all_keeps_valid(runtime, messages.drop_last());
        queueing_keeps_valid(
            runtime.messages_enqueued(messages.drop_last()),
            messages.last(),
        );
    }
}

/// Settling a tick keeps every invariant.
pub proof fn settling_keeps_valid(runtime: RuntimeView, run: TickRunView)
    requires
        runtime.valid(),
    ensures
        runtime.tick_settled(run).0.valid(),
{
    let world = run.input.world;
    if taken_up(runtime, run) {
        let entry = runtime.worlds[world.0];
        match run.answers.outcome {
            Err(failure) => {
                let counted_tick = runtime.tick_counted(false, false, run.answers.duration_ns);
                counting_keeps_valid(runtime, counted_tick.metrics);
                let event = RuntimeEventView::TickFailed {
                    world,
                    tick: failure.tick,
                    error: failure.error,
                };
                noting_keeps_valid(counted_tick, event);
                let noted = counted_tick.with_event(event);
                let back = WorldView {
                    calls: run.input.calls + entry.calls,
                    next_tick: run.answers.next_tick,
                    ..entry
                };
                replacing_keeps_valid(noted, world, back);
                let requeued = noted.with_world(world, back);
                let lost = WorldView { state: WorldLifecycle::Failed, ..back };
                replacing_keeps_valid(requeued, world, lost);
                counting_keeps_valid(
                    requeued.with_world(world, lost),
                    requeued.world_failure(world).metrics,
                );
                noting_keeps_valid(
                    requeued.world_failure(world),
                    RuntimeEventView::WorldFailed { world, reason: failure.error },
                );
            },
            Ok(result) => {
                let done = runtime.tick_completed(run, result);
                counting_keeps_valid(runtime, done.metrics);
                let started = RuntimeView { metrics: done.metrics, ..runtime };
                let event = RuntimeEventView::TickCompleted {
                    world,
                    tick: result.tick,
                    duration_ns: run.answers.duration_ns,
                };
                noting_keeps_valid(started, event);
                replacing_keeps_valid(started.with_event(event), world, done.worlds[world.0]);
                assert(done == started.with_event(event).with_world(world, done.worlds[world.0]));
                queueing_all_keeps_valid(done, result.outbound);
                let appended = done.tick_appended(world, run.answers.snapshot_written);
                replacing_keeps_valid(done, world, appended.worlds[world.0]);
                counting_keeps_valid(
                    done.with_world(world, appended.worlds[world.0]),
                    appended.metrics,
                );
                queueing_all_keeps_valid(appended, result.outbound);
                if let Err(error) = run.answers.appended {
                    let lost = WorldView { state: WorldLifecycle::Failed, ..done.worlds[world.0] };
                    let after = done.append_failed(world, result.tick, error);
                    replacing_keeps_valid(done, world, lost);
                    counting_keeps_valid(done.with_world(world, lost), after.metrics);
                    noting_keeps_valid(
                        RuntimeView { metrics: after.metrics, ..done.with_world(world, lost) },
                        RuntimeEventView::PersistenceFailure { world, tick: result.tick, error },
                    );
                }
            },
        }
    }
}

proof fn settling_all_keeps_valid(runtime: RuntimeView, runs: Seq<TickRunView>)
    requires
        runtime.valid(),
    ensures
        runtime.ticks_settled(runs).0.valid(),
    decreases runs.len(),
{
    if runs.len() > 0 {
        settling_all_keeps_valid(runtime, runs.drop_last());
        settling_keeps_valid(runtime.ticks_settled(runs.drop_last()).0, runs.last());
    }
}

proof fn planning_keeps_valid(runtime: RuntimeView, order: Seq<u64>)
    requires
        runtime.valid(),
    ensures
        runtime.inputs_taken(order).0.valid(),
    decreases order.len(),
{
    if order.len() > 0 {
        planning_keeps_valid(runtime, order.drop_last());
        let before = runtime.inputs_taken(order.drop_last()).0;
        if before.ticks(order.last()) {
            taking_input_keeps_valid(before, WorldId(order.last()));
        }
    }
}

/// A step keeps every invariant.
pub proof fn stepping_keeps_valid(
    runtime: RuntimeView,
    answers: spec_fn(TickInputView) -> TickAnswersView,
)
    requires
        runtime.valid(),
    ensures
        stepped(runtime, answers).valid(),
{
    let (planned, inputs) = runtime.inputs_taken(runtime.tick_order());
    planning_keeps_valid(runtime, runtime.tick_order());
    settling_all_keeps_valid(planned, ran_on(inputs, answers));
}

// --------------------------------------------------------------- many steps

/// A step in which no queue overflows, and in which the messages of each queue
/// can be told apart.
pub open spec fn orderly(
    runtime: RuntimeView,
    answers: spec_fn(TickInputView) -> TickAnswersView,
) -> bool {
    let (planned, inputs) = runtime.inputs_taken(runtime.tick_order());
    &&& forall|p: u64| #[trigger]
        runtime.partitions.contains_key(p) ==> distinct_keys(runtime.partitions[p].inbound)
    &&& has_room(planned, all_leaving(planned, ran_on(inputs, answers)))
}

/// The ticks that a step runs.
pub open spec fn ticks_run(
    runtime: RuntimeView,
    answers: spec_fn(TickInputView) -> TickAnswersView,
) -> Seq<TickRunView> {
    ran_on(runtime.inputs_taken(runtime.tick_order()).1, answers)
}

proof fn steps_count_alike(
    a: RuntimeView,
    b: RuntimeView,
    answers: spec_fn(TickInputView) -> TickAnswersView,
)
    requires
        a.valid(),
        b.valid(),
        alike_but_for_workers(a, b),
        same_counts(a, b),
        orderly(a, answers),
    ensures
        ticks_run(a, answers).to_multiset() == ticks_run(b, answers).to_multiset(),
        alike_but_for_workers(stepped(a, answers), stepped(b, answers)),
        same_counts(stepped(a, answers), stepped(b, answers)),
{
    steps_do_not_depend_on_workers(a, b, answers);
    let (x, inputs) = a.inputs_taken(a.tick_order());
    let (y, others) = b.inputs_taken(b.tick_order());
    let runs = ran_on(inputs, answers);
    let also = ran_on(others, answers);
    planning_keeps_the_rest(a, a.tick_order());
    planning_keeps_the_rest(b, b.tick_order());
    total_in_any_order(inputs, others, delivered_weight());
    same_room(x, y, runs, also);
    all_settling_is_counted(x, runs);
    all_settling_is_counted(y, also);
    same_weights(x, y);
    total_in_any_order(runs, also, tick_weight(x));
    total_in_any_order(runs, also, success_weight(x));
    total_in_any_order(runs, also, failure_weight(x));
    total_in_any_order(runs, also, sent_weight(x));
}

/// What comes of the ticks of one step of several, by their inputs.
pub open spec fn answers_at(
    answers: spec_fn(nat, TickInputView) -> TickAnswersView,
    k: nat,
) -> spec_fn(TickInputView) -> TickAnswersView {
    |input: TickInputView| answers(k, input)
}

/// A runtime after several steps.
pub open spec fn after_steps(
    runtime: RuntimeView,
    answers: spec_fn(nat, TickInputView) -> TickAnswersView,
    n: nat,
) -> RuntimeView
    decreases n,
{
    if n == 0 {
        runtime
    } else {
        let k = (n - 1) as nat;
        stepped(after_steps(runtime, answers, k), answers_at(answers, k))
    }
}

/// The number of workers never enters a trace: two runtimes that differ at
/// most in their workers, stepped equally often, run the same ticks in each
/// step, have the same worlds and the same messages waiting after it, and have
/// counted the same ticks and messages, when what comes of a tick depends on
/// the step and on the tick's input alone, and provided that the steps are
/// orderly.
pub proof fn traces_do_not_depend_on_workers(
    a: RuntimeView,
    b: RuntimeView,
    answers: spec_fn(nat, TickInputView) -> TickAnswersView,
    n: nat,
)
    requires
        a.valid(),
        b.valid(),
        alike_but_for_workers(a, b),
        same_counts(a, b),
        forall|k: nat|
            k < n ==> orderly(#[trigger] after_steps(a, answers, k), answers_at(answers, k)),
    ensures
        after_steps(a, answers, n).valid(),
        after_steps(b, answers, n).valid(),
        alike_but_for_workers(after_steps(a, answers, n), after_steps(b, answers, n)),
        same_counts(after_steps(a, answers, n), after_steps(b, answers, n)),
        forall|k: nat|
            k < n ==> ticks_run(
                #[trigger] after_steps(a, answers, k),
                answers_at(answers, k),
            ).to_multiset() == ticks_run(
                after_steps(b, answers, k),
                answers_at(answers, k),
            ).to_multiset(),
    decreases n,
{
    if n > 0 {
        let k = (n - 1) as nat;
        traces_do_not_depend_on_workers(a, b, answers, k);
        let x = after_steps(a, answers, k);
        let y = after_steps(b, answers, k);
        assert(orderly(x, answers_at(answers, k)));
        steps_count_alike(x, y, answers_at(answers, k));
        stepping_keeps_valid(x, answers_at(answers, k));
        stepping_keeps_valid(y, answers_at(answers, k));
    }
}

} // verus!
