//! Laws of the runtime, stated over its model.

use vstd::prelude::*;

use crate::base::error::ErrorView;
use crate::base::ids::{PartitionId, TickId, WorkerId, WorldId};
use crate::base::input::InputFrameView;
use crate::base::message::{PartitionMessageView, ReducerCallView, TickResultView};
use crate::base::table::{ascending, ascending_is, ascending_lists, is_ascending};
use crate::reducer::args::Entries;
use crate::runtime::error::RuntimeErrorView;
use crate::runtime::event::RuntimeEventView;
use crate::runtime::metrics::counted;
use crate::runtime::model::{
    call_share, delivers_to, partition_of, running_worker_from, worlds_of, RuntimeState,
    RuntimeView,
};
use crate::runtime::partition::{
    deliverable, in_delivery_order, placed, precedes, undeliverable, PartitionView,
};
use crate::runtime::report::FlushFailureView;
use crate::runtime::setup::{LogSetupView, RecoverySetupView, WorldSetupView};
use crate::runtime::tick::{TickErrorView, TickRunView};
use crate::runtime::worker::{WorkerState, WorkerView};
use crate::runtime::world::{WorldLifecycle, WorldView};

verus! {

/// Moving a world keeps every invariant: the world has exactly one owner
/// before and after.
pub proof fn reassigning_keeps_valid(runtime: RuntimeView, world: WorldId, to: WorkerId)
    requires
        runtime.valid(),
    ensures
        runtime.world_reassigned(world, to).0.valid(),
{
    let after = runtime.world_reassigned(world, to).0;
    if after != runtime {
        let from = runtime.worlds[world.0].worker;
        assert(runtime.worlds.contains_key(world.0));
        assert(after.worlds.dom() =~= runtime.worlds.dom());
        assert(after.partitions.dom() =~= runtime.partitions.dom());
        assert forall|w: u64| #[trigger] after.worlds.contains_key(w) implies after.workers.contains_key(
            after.worlds[w].worker.0,
        ) && after.workers[after.worlds[w].worker.0].worlds.contains(w) by {
            assert(runtime.worlds.contains_key(w));
        }
        assert forall|k: u64, w: u64|
            #![trigger after.workers[k].worlds.contains(w)]
            after.workers.contains_key(k) && after.workers[k].worlds.contains(
                w,
            ) implies after.worlds.contains_key(w) && after.worlds[w].worker.0 == k by {
            assert(runtime.workers.contains_key(k));
            if k == to.0 && w == world.0 {
            } else {
                assert(runtime.workers[k].worlds.contains(w));
            }
        }
    }
}

/// Giving a new world to a worker keeps every invariant.
pub proof fn adding_a_world_keeps_valid(
    runtime: RuntimeView,
    worker: u64,
    world: WorldId,
    entry: WorldView,
)
    requires
        runtime.valid(),
        runtime.workers.contains_key(worker),
        !runtime.worlds.contains_key(world.0),
        entry.worker.0 == worker,
        runtime.state != RuntimeState::Stopped,
    ensures
        runtime.with_owned_world(worker, world, entry).valid(),
{
    let after = runtime.with_owned_world(worker, world, entry);
    assert forall|w: u64| #[trigger] after.worlds.contains_key(w) implies after.workers.contains_key(
        after.worlds[w].worker.0,
    ) && after.workers[after.worlds[w].worker.0].worlds.contains(w) by {
        if w != world.0 {
            assert(runtime.worlds.contains_key(w));
        }
    }
    assert forall|k: u64, w: u64|
        #![trigger after.workers[k].worlds.contains(w)]
        after.workers.contains_key(k) && after.workers[k].worlds.contains(
            w,
        ) implies after.worlds.contains_key(w) && after.worlds[w].worker.0 == k by {
        if k == worker && w == world.0 {
        } else {
            assert(runtime.workers[k].worlds.contains(w));
        }
    }
}

proof fn running_worker_found(workers: Map<u64, WorkerView>, start: int, offset: int, count: int)
    ensures
        running_worker_from(workers, start, offset, count) matches Some(k)
            ==> workers.contains_key(k) && workers[k].state == WorkerState::Running,
        running_worker_from(workers, start, offset, count) is None ==> forall|i: int|
            offset <= i < count ==> !(workers.contains_key((#[trigger] (start + i) % count) as u64)
                && workers[((start + i) % count) as u64].state == WorkerState::Running),
    decreases count - offset,
{
    if offset < count {
        running_worker_found(workers, start, offset + 1, count);
    }
}

/// A new world is only ever given to a running worker, and one is found
/// whenever any worker runs.
pub proof fn assigned_worker_runs(runtime: RuntimeView)
    requires
        runtime.valid(),
    ensures
        runtime.next_worker() matches Some(k) ==> runtime.workers.contains_key(k)
            && runtime.workers[k].state == WorkerState::Running,
        runtime.next_worker() is None ==> forall|k: u64| #[trigger]
            runtime.workers.contains_key(k) ==> runtime.workers[k].state != WorkerState::Running,
{
    let count = runtime.config.worker_count as int;
    let start = runtime.assign_counter as int % count;
    running_worker_found(runtime.workers, start, 0, count);
    if runtime.next_worker() is None {
        assert forall|k: u64| #[trigger] runtime.workers.contains_key(
            k,
        ) implies runtime.workers[k].state != WorkerState::Running by {
            let i = if k >= start {
                k - start
            } else {
                k - start + count
            };
            assert((start + i) % count == k) by (nonlinear_arith)
                requires
                    0 <= k < count,
                    start + i == k || start + i == k + count,
            ;
        }
    }
}

/// Removing a world that no partition addresses keeps every invariant.
pub proof fn removing_a_world_keeps_valid(runtime: RuntimeView, world: WorldId)
    requires
        runtime.valid(),
        runtime.worlds.contains_key(world.0),
        forall|p: u64| #[trigger]
            runtime.partitions.contains_key(p) ==> runtime.partitions[p].world != world,
    ensures
        runtime.without_world(world).valid(),
{
    let after = runtime.without_world(world);
    let owner = runtime.worlds[world.0].worker.0;
    assert forall|w: u64| #[trigger] after.worlds.contains_key(w) implies after.workers.contains_key(
        after.worlds[w].worker.0,
    ) && after.workers[after.worlds[w].worker.0].worlds.contains(w) by {
        assert(runtime.worlds.contains_key(w));
    }
    assert forall|k: u64, w: u64|
        #![trigger after.workers[k].worlds.contains(w)]
        after.workers.contains_key(k) && after.workers[k].worlds.contains(
            w,
        ) implies after.worlds.contains_key(w) && after.worlds[w].worker.0 == k by {
        assert(runtime.workers[k].worlds.contains(w));
    }
    assert forall|p: u64| #[trigger] after.partitions.contains_key(
        p,
    ) implies after.worlds.contains_key(after.partitions[p].world.0) by {
        assert(runtime.partitions.contains_key(p));
        assert(runtime.partitions[p].world != world);
    }
}

/// Binding a partition keeps every invariant.
pub proof fn registering_keeps_valid(runtime: RuntimeView, partition: PartitionId, world: WorldId)
    requires
        runtime.valid(),
    ensures
        runtime.partition_registered(partition, world).0.valid(),
{
    let after = runtime.partition_registered(partition, world).0;
    if after != runtime {
        assert(after.worlds.dom() =~= runtime.worlds.dom());
        assert(after.partitions.dom() =~= runtime.partitions.dom().insert(partition.0));
        assert(after.topology =~= after.partitions.dom());
        assert forall|w: u64| #[trigger] after.worlds.contains_key(w) implies after.workers.contains_key(
            after.worlds[w].worker.0,
        ) && after.workers[after.worlds[w].worker.0].worlds.contains(w) by {
            assert(runtime.worlds.contains_key(w));
        }
        assert forall|p: u64| #[trigger] after.partitions.contains_key(
            p,
        ) implies after.worlds.contains_key(after.partitions[p].world.0)
            && after.partitions[p].worker == after.worlds[after.partitions[p].world.0].worker by {
            if p != partition.0 {
                assert(runtime.partitions.contains_key(p));
            }
        }
    }
}

/// Unbinding a partition keeps every invariant.
pub proof fn unregistering_keeps_valid(runtime: RuntimeView, partition: PartitionId)
    requires
        runtime.valid(),
        runtime.partitions.contains_key(partition.0),
    ensures
        runtime.without_partition(partition).valid(),
{
    let after = runtime.without_partition(partition);
    assert(after.worlds.dom() =~= runtime.worlds.dom());
    assert(after.topology =~= after.partitions.dom());
    assert forall|w: u64| #[trigger] after.worlds.contains_key(w) implies after.workers.contains_key(
        after.worlds[w].worker.0,
    ) && after.workers[after.worlds[w].worker.0].worlds.contains(w) by {
        assert(runtime.worlds.contains_key(w));
    }
    assert forall|p: u64| #[trigger] after.partitions.contains_key(
        p,
    ) implies after.worlds.contains_key(after.partitions[p].world.0) && after.partitions[p].worker
        == after.worlds[after.partitions[p].world.0].worker by {
        assert(runtime.partitions.contains_key(p));
    }
}

/// Queueing a message keeps every invariant.
pub proof fn queueing_keeps_valid(runtime: RuntimeView, message: PartitionMessageView)
    requires
        runtime.valid(),
    ensures
        runtime.message_enqueued(message).valid(),
{
    let after = runtime.message_enqueued(message);
    assert(after.partitions.dom() =~= runtime.partitions.dom());
    assert forall|p: u64| #[trigger] after.partitions.contains_key(
        p,
    ) implies after.worlds.contains_key(after.partitions[p].world.0) && after.partitions[p].worker
        == after.worlds[after.partitions[p].world.0].worker by {
        assert(runtime.partitions.contains_key(p));
    }
}

/// Taking a tick's input keeps every invariant.
pub proof fn taking_input_keeps_valid(runtime: RuntimeView, world: WorldId)
    requires
        runtime.valid(),
        runtime.worlds.contains_key(world.0),
    ensures
        runtime.input_taken(world).valid(),
{
    let after = runtime.input_taken(world);
    assert(after.worlds.dom() =~= runtime.worlds.dom());
    assert(after.partitions.dom() =~= runtime.partitions.dom());
    assert forall|p: u64| #[trigger] after.partitions.contains_key(
        p,
    ) implies after.worlds.contains_key(after.partitions[p].world.0) && after.partitions[p].worker
        == after.worlds[after.partitions[p].world.0].worker by {
        assert(runtime.partitions.contains_key(p));
    }
    assert forall|w: u64| #[trigger] after.worlds.contains_key(w) implies after.workers.contains_key(
        after.worlds[w].worker.0,
    ) && after.workers[after.worlds[w].worker.0].worlds.contains(w) by {
        assert(runtime.worlds.contains_key(w));
    }
}

// ------------------------------------------------------------------ stepping

proof fn worlds_of_lists(runtime: RuntimeView, ids: Seq<u64>)
    requires
        runtime.valid(),
        is_ascending(ids),
        forall|i: int| 0 <= i < ids.len() ==> runtime.workers.contains_key(#[trigger] ids[i]),
    ensures
        worlds_of(runtime.workers, ids).no_duplicates(),
        forall|w: u64| #[trigger]
            worlds_of(runtime.workers, ids).contains(w) <==> exists|i: int|
                0 <= i < ids.len() && runtime.workers[#[trigger] ids[i]].worlds.contains(w),
    decreases ids.len(),
{
    let all = worlds_of(runtime.workers, ids);
    if ids.len() > 0 {
        let shorter = ids.drop_last();
        let k = ids.last();
        assert forall|i: int| 0 <= i < shorter.len() implies runtime.workers.contains_key(
            #[trigger] shorter[i],
        ) by {
            assert(shorter[i] == ids[i]);
        }
        worlds_of_lists(runtime, shorter);
        let first = worlds_of(runtime.workers, shorter);
        let owned = runtime.workers[k].worlds;
        assert(runtime.workers.contains_key(ids[ids.len() - 1]));
        owned_worlds_finite(runtime, k);
        ascending_lists(owned);
        let last = ascending(owned);
        assert(all == first + last);
        assert forall|w: u64| #[trigger] all.contains(w) <==> exists|i: int|
            0 <= i < ids.len() && runtime.workers[#[trigger] ids[i]].worlds.contains(w) by {
            if all.contains(w) {
                let j = choose|j: int| 0 <= j < all.len() && all[j] == w;
                if j < first.len() {
                    assert(first[j] == w);
                    assert(first.contains(w));
                    let i = choose|i: int|
                        0 <= i < shorter.len() && runtime.workers[#[trigger] shorter[i]].worlds.contains(
                            w,
                        );
                    assert(ids[i] == shorter[i]);
                } else {
                    assert(last[j - first.len()] == w);
                    assert(last.to_set().contains(w));
                    assert(ids[ids.len() - 1] == k);
                }
            }
            if exists|i: int|
                0 <= i < ids.len() && runtime.workers[#[trigger] ids[i]].worlds.contains(w) {
                let i = choose|i: int|
                    0 <= i < ids.len() && runtime.workers[#[trigger] ids[i]].worlds.contains(w);
                if i < shorter.len() {
                    assert(shorter[i] == ids[i]);
                    assert(first.contains(w));
                    let j = choose|j: int| 0 <= j < first.len() && first[j] == w;
                    assert(all[j] == w);
                } else {
                    assert(last.to_set().contains(w));
                    let j = choose|j: int| 0 <= j < last.len() && last[j] == w;
                    assert(all[first.len() + j] == w);
                }
            }
        }
        assert forall|a: int, b: int| 0 <= a < b < all.len() implies all[a] != all[b] by {
            if b < first.len() {
                assert(first[a] == all[a] && first[b] == all[b]);
            } else if a >= first.len() {
                assert(last[a - first.len()] < last[b - first.len()]);
            } else {
                let w = all[a];
                assert(first[a] == w);
                assert(first.contains(w));
                let i = choose|i: int|
                    0 <= i < shorter.len() && runtime.workers[#[trigger] shorter[i]].worlds.contains(
                        w,
                    );
                assert(runtime.worlds[w].worker.0 == shorter[i]);
                assert(ids[i] < ids[ids.len() - 1]);
                if all[b] == w {
                    assert(last[b - first.len()] == w);
                    assert(last.to_set().contains(w));
                    assert(runtime.workers[k].worlds.contains(w));
                }
            }
        }
    }
}

/// A worker owns finitely many worlds.
pub proof fn owned_worlds_finite(runtime: RuntimeView, worker: u64)
    requires
        runtime.valid(),
        runtime.workers.contains_key(worker),
    ensures
        runtime.workers[worker].worlds.finite(),
{
    let owned = runtime.workers[worker].worlds;
    assert(owned.subset_of(runtime.worlds.dom())) by {
        assert forall|w: u64| owned.contains(w) implies runtime.worlds.dom().contains(w) by {
            assert(runtime.workers[worker].worlds.contains(w));
        }
    }
    vstd::set_lib::lemma_len_subset(owned, runtime.worlds.dom());
}

/// The workers are finitely many, and listed in ascending order.
pub proof fn worker_ids(runtime: RuntimeView)
    requires
        runtime.valid(),
    ensures
        runtime.workers.dom().finite(),
        is_ascending(ascending(runtime.workers.dom())),
        ascending(runtime.workers.dom()).to_set() == runtime.workers.dom(),
{
    let ids = Seq::new(runtime.config.worker_count as nat, |i: int| i as u64);
    assert forall|k: u64| ids.to_set().contains(k) == runtime.workers.dom().contains(k) by {
        if runtime.workers.contains_key(k) {
            assert(ids[k as int] == k);
        }
    }
    assert(ids.to_set() =~= runtime.workers.dom());
    assert(is_ascending(ids));
    ascending_is(ids, runtime.workers.dom());
    vstd::seq_lib::seq_to_set_is_finite(ids);
}

/// A step visits every registered world exactly once.
pub proof fn tick_order_lists_every_world_once(runtime: RuntimeView)
    requires
        runtime.valid(),
    ensures
        runtime.tick_order().no_duplicates(),
        forall|w: u64| #[trigger]
            runtime.tick_order().contains(w) <==> runtime.worlds.contains_key(w),
{
    let ids = ascending(runtime.workers.dom());
    worker_ids(runtime);
    assert forall|i: int| 0 <= i < ids.len() implies runtime.workers.contains_key(
        #[trigger] ids[i],
    ) by {
        assert(ids.to_set().contains(ids[i]));
    }
    worlds_of_lists(runtime, ids);
    assert forall|w: u64| #[trigger] runtime.tick_order().contains(w)
        <==> runtime.worlds.contains_key(w) by {
        if runtime.worlds.contains_key(w) {
            let k = runtime.worlds[w].worker.0;
            assert(runtime.workers.dom().contains(k));
            assert(ids.to_set().contains(k));
            let i = choose|i: int| 0 <= i < ids.len() && ids[i] == k;
            assert(runtime.workers[ids[i]].worlds.contains(w));
        }
        if runtime.tick_order().contains(w) {
            let i = choose|i: int|
                0 <= i < ids.len() && runtime.workers[#[trigger] ids[i]].worlds.contains(w);
            assert(runtime.workers[ids[i]].worlds.contains(w));
        }
    }
}

/// The partitions agree on which world each addresses.
pub open spec fn same_routes(a: Map<u64, PartitionView>, b: Map<u64, PartitionView>) -> bool {
    forall|p: u64|
        (#[trigger] a.contains_key(p) <==> b.contains_key(p)) && (a.contains_key(p) ==> a[p].world
            == b[p].world)
}

/// Partitions that address the same worlds deliver to each from the same one.
pub proof fn same_routes_same_partition(
    a: Map<u64, PartitionView>,
    b: Map<u64, PartitionView>,
    world: u64,
)
    requires
        same_routes(a, b),
    ensures
        partition_of(a, world) == partition_of(b, world),
{
    assert forall|p: u64| delivers_to(a, p, world) == delivers_to(b, p, world) by {
        assert(a.contains_key(p) == b.contains_key(p));
        if delivers_to(a, p, world) {
            assert forall|q: u64| #[trigger]
                b.contains_key(q) && b[q].world.0 == world implies p <= q by {
                assert(a.contains_key(q));
            }
        }
        if delivers_to(b, p, world) {
            assert forall|q: u64| #[trigger]
                a.contains_key(q) && a[q].world.0 == world implies p <= q by {
                assert(b.contains_key(q));
            }
        }
    }
    if exists|p: u64| delivers_to(a, p, world) {
        let p = choose|p: u64| delivers_to(a, p, world);
        assert(delivers_to(b, p, world));
        let pa = partition_of(a, world)->0;
        let pb = partition_of(b, world)->0;
        assert(delivers_to(a, pa, world) && delivers_to(b, pb, world));
        assert(delivers_to(b, pa, world) && delivers_to(a, pb, world));
        assert(a.contains_key(pa) && a.contains_key(pb));
    }
    if exists|p: u64| delivers_to(b, p, world) {
        let p = choose|p: u64| delivers_to(b, p, world);
        assert(delivers_to(a, p, world));
    }
}

/// What a world's tick takes in is unchanged while other worlds' inputs are
/// taken.
pub proof fn inputs_taken_elsewhere(runtime: RuntimeView, order: Seq<u64>, world: u64)
    requires
        runtime.valid(),
        forall|i: int| 0 <= i < order.len() ==> runtime.worlds.contains_key(#[trigger] order[i]),
    ensures
        ({
            let after = runtime.inputs_taken(order).0;
            &&& after.valid()
            &&& after.config == runtime.config
            &&& after.state == runtime.state
            &&& after.worlds.dom() == runtime.worlds.dom()
            &&& same_routes(runtime.partitions, after.partitions)
            &&& !order.contains(world) ==> after.worlds[world] == runtime.worlds[world]
            &&& !order.contains(world) ==> forall|p: u64| #[trigger]
                runtime.partitions.contains_key(p) && runtime.partitions[p].world.0 == world
                    ==> after.partitions[p] == runtime.partitions[p]
        }),
    decreases order.len(),
{
    if order.len() > 0 {
        let shorter = order.drop_last();
        assert forall|i: int| 0 <= i < shorter.len() implies runtime.worlds.contains_key(
            #[trigger] shorter[i],
        ) by {
            assert(shorter[i] == order[i]);
        }
        inputs_taken_elsewhere(runtime, shorter, world);
        let before = runtime.inputs_taken(shorter).0;
        let w = WorldId(order.last());
        assert(runtime.worlds.contains_key(order[order.len() - 1]));
        if before.ticks(w.0) {
            taking_input_keeps_valid(before, w);
            let after = before.input_taken(w);
            assert(after.worlds.dom() =~= runtime.worlds.dom());
            assert forall|p: u64|
                (#[trigger] runtime.partitions.contains_key(p) <==> after.partitions.contains_key(
                    p,
                )) && (runtime.partitions.contains_key(p) ==> runtime.partitions[p].world
                    == after.partitions[p].world) by {
                assert(runtime.partitions.contains_key(p) <==> before.partitions.contains_key(p));
            }
        }
        if !order.contains(world) {
            assert(!shorter.contains(world)) by {
                if shorter.contains(world) {
                    let i = choose|i: int| 0 <= i < shorter.len() && shorter[i] == world;
                    assert(order[i] == world);
                }
            }
            assert(order[order.len() - 1] == w.0);
            let after = runtime.inputs_taken(order).0;
            assert forall|p: u64| #[trigger]
                runtime.partitions.contains_key(p) && runtime.partitions[p].world.0
                    == world implies after.partitions[p] == runtime.partitions[p] by {
                assert(before.partitions[p] == runtime.partitions[p]);
            }
        }
    }
}

/// Delivery never depends on the order of ticks: whatever the order, a step
/// gives each running world exactly the input it would be given alone. Of the
/// workers nothing enters, so worker count and ownership never change what a
/// world's tick takes in.
pub proof fn step_inputs_are_local(runtime: RuntimeView, order: Seq<u64>)
    requires
        runtime.valid(),
        order.no_duplicates(),
        forall|i: int| 0 <= i < order.len() ==> runtime.worlds.contains_key(#[trigger] order[i]),
    ensures
        forall|k: int|
            0 <= k < runtime.inputs_taken(order).1.len() ==> {
                let input = #[trigger] runtime.inputs_taken(order).1[k];
                input == runtime.tick_input(input.world) && runtime.ticks(input.world.0)
                    && order.contains(input.world.0)
            },
    decreases order.len(),
{
    if order.len() > 0 {
        let shorter = order.drop_last();
        let w = WorldId(order.last());
        assert forall|i: int| 0 <= i < shorter.len() implies runtime.worlds.contains_key(
            #[trigger] shorter[i],
        ) by {
            assert(shorter[i] == order[i]);
        }
        step_inputs_are_local(runtime, shorter);
        assert(!shorter.contains(w.0)) by {
            if shorter.contains(w.0) {
                let i = choose|i: int| 0 <= i < shorter.len() && shorter[i] == w.0;
                assert(order[i] == order[order.len() - 1]);
            }
        }
        inputs_taken_elsewhere(runtime, shorter, w.0);
        let before = runtime.inputs_taken(shorter).0;
        assert(runtime.worlds.contains_key(order[order.len() - 1]));
        assert(before.worlds[w.0] == runtime.worlds[w.0]);
        same_routes_same_partition(runtime.partitions, before.partitions, w.0);
        assert(before.tick_input(w) == runtime.tick_input(w)) by {
            match partition_of(runtime.partitions, w.0) {
                Some(p) => {
                    assert(delivers_to(runtime.partitions, p, w.0));
                    assert(runtime.partitions.contains_key(p));
                },
                None => {},
            }
        }
        assert forall|k: int| 0 <= k < runtime.inputs_taken(order).1.len() implies ({
            let input = #[trigger] runtime.inputs_taken(order).1[k];
            input == runtime.tick_input(input.world) && runtime.ticks(input.world.0)
                && order.contains(input.world.0)
        }) by {
            let earlier = runtime.inputs_taken(shorter).1;
            if k < earlier.len() {
                assert(runtime.inputs_taken(order).1[k] == earlier[k]);
                let i = choose|i: int| 0 <= i < shorter.len() && shorter[i] == earlier[k].world.0;
                assert(order[i] == earlier[k].world.0);
            } else {
                assert(order[order.len() - 1] == w.0);
            }
        }
    }
}

/// Runtimes that differ in their workers alone give a world's tick the same
/// input.
pub proof fn workers_never_enter_a_tick(a: RuntimeView, b: RuntimeView, world: WorldId)
    requires
        a.worlds.contains_key(world.0),
        b.worlds.contains_key(world.0),
        a.worlds[world.0] == (WorldView { worker: a.worlds[world.0].worker, ..b.worlds[world.0] }),
        forall|p: u64| #[trigger] a.partitions.contains_key(p) <==> b.partitions.contains_key(p),
        forall|p: u64| #[trigger]
            a.partitions.contains_key(p) ==> a.partitions[p] == (PartitionView {
                worker: a.partitions[p].worker,
                ..b.partitions[p]
            }),
    ensures
        a.tick_input(world) == b.tick_input(world),
{
    assert forall|p: u64|
        (#[trigger] a.partitions.contains_key(p) <==> b.partitions.contains_key(p))
            && (a.partitions.contains_key(p) ==> a.partitions[p].world == b.partitions[p].world) by {
        assert(a.partitions.contains_key(p) <==> b.partitions.contains_key(p));
    }
    same_routes_same_partition(a.partitions, b.partitions, world.0);
    match partition_of(a.partitions, world.0) {
        Some(p) => {
            assert(delivers_to(a.partitions, p, world.0));
            assert(a.partitions.contains_key(p));
        },
        None => {},
    }
}

// ------------------------------------------------------------------ messages

/// Delivery loses and invents nothing: every queued message is either
/// delivered, because it was sent before the tick, or still queued, because
/// it was not.
pub proof fn delivery_splits_the_queue(messages: Seq<PartitionMessageView>, tick: u64)
    ensures
        deliverable(messages, tick).to_multiset().add(
            undeliverable(messages, tick).to_multiset(),
        ) == messages.to_multiset(),
        forall|i: int|
            0 <= i < deliverable(messages, tick).len() ==> (#[trigger] deliverable(
                messages,
                tick,
            )[i]).sent_tick.0 < tick,
        forall|i: int|
            0 <= i < undeliverable(messages, tick).len() ==> (#[trigger] undeliverable(
                messages,
                tick,
            )[i]).sent_tick.0 >= tick,
    decreases messages.len(),
{
    broadcast use vstd::seq_lib::group_to_multiset_ensures;

    reveal(Seq::filter);
    if messages.len() == 0 {
        assert(deliverable(messages, tick).to_multiset().add(
            undeliverable(messages, tick).to_multiset(),
        ) =~= messages.to_multiset());
    } else {
        let shorter = messages.drop_last();
        let m = messages.last();
        delivery_splits_the_queue(shorter, tick);
        assert(messages =~= shorter.push(m));
        let early = deliverable(shorter, tick);
        let late = undeliverable(shorter, tick);
        if m.sent_tick.0 < tick {
            assert(deliverable(messages, tick) =~= early.push(m));
            assert(undeliverable(messages, tick) =~= late);
        } else {
            assert(deliverable(messages, tick) =~= early);
            assert(undeliverable(messages, tick) =~= late.push(m));
        }
        assert(deliverable(messages, tick).to_multiset().add(
            undeliverable(messages, tick).to_multiset(),
        ) =~= messages.to_multiset());
    }
}

/// No message precedes an earlier one.
pub open spec fn in_order(messages: Seq<PartitionMessageView>) -> bool {
    forall|i: int, j: int|
        #![trigger messages[i], messages[j]]
        0 <= i < j < messages.len() ==> !precedes(messages[j], messages[i])
}

proof fn placing_keeps(messages: Seq<PartitionMessageView>, m: PartitionMessageView)
    requires
        in_order(messages),
    ensures
        in_order(placed(messages, m)),
        placed(messages, m).to_multiset() == messages.to_multiset().insert(m),
        placed(messages, m).len() == messages.len() + 1,
    decreases messages.len(),
{
    broadcast use vstd::seq_lib::group_to_multiset_ensures;

    let after = placed(messages, m);
    if messages.len() == 0 || !precedes(m, messages.last()) {
        assert forall|i: int, j: int|
            #![trigger after[i], after[j]]
            0 <= i < j < after.len() implies !precedes(after[j], after[i]) by {
            if j == messages.len() {
                let last = messages.last();
                if i < messages.len() - 1 {
                    assert(!precedes(messages[messages.len() - 1], messages[i]));
                }
            } else {
                assert(!precedes(messages[j], messages[i]));
            }
        }
    } else {
        let shorter = messages.drop_last();
        let last = messages.last();
        assert(in_order(shorter)) by {
            assert forall|i: int, j: int|
                #![trigger shorter[i], shorter[j]]
                0 <= i < j < shorter.len() implies !precedes(shorter[j], shorter[i]) by {
                assert(!precedes(messages[j], messages[i]));
            }
        }
        placing_keeps(shorter, m);
        let front = placed(shorter, m);
        assert(messages =~= shorter.push(last));
        assert(after.to_multiset() =~= messages.to_multiset().insert(m));
        assert forall|i: int, j: int|
            #![trigger after[i], after[j]]
            0 <= i < j < after.len() implies !precedes(after[j], after[i]) by {
            if j == front.len() {
                assert(front.to_multiset().count(front[i]) > 0) by {
                    assert(front.contains(front[i]));
                }
                assert(shorter.to_multiset().insert(m).count(front[i]) > 0);
                if front[i] != m {
                    assert(shorter.contains(front[i]));
                    let k = shorter.index_of(front[i]);
                    assert(!precedes(messages[messages.len() - 1], messages[k]));
                }
            } else {
                assert(!precedes(front[j], front[i]));
            }
        }
    }
}

/// Putting messages in delivery order loses and invents none, and no message
/// is delivered behind one that it precedes.
pub proof fn delivery_order_is_a_permutation(messages: Seq<PartitionMessageView>)
    ensures
        in_order(in_delivery_order(messages)),
        in_delivery_order(messages).to_multiset() == messages.to_multiset(),
        in_delivery_order(messages).len() == messages.len(),
    decreases messages.len(),
{
    broadcast use vstd::seq_lib::group_to_multiset_ensures;

    if messages.len() > 0 {
        let shorter = messages.drop_last();
        delivery_order_is_a_permutation(shorter);
        placing_keeps(in_delivery_order(shorter), messages.last());
        assert(messages =~= shorter.push(messages.last()));
    }
}

/// No two of some messages have the same tick, sender and sequence number.
pub open spec fn distinct_keys(messages: Seq<PartitionMessageView>) -> bool {
    forall|i: int, j: int|
        #![trigger messages[i], messages[j]]
        0 <= i < j < messages.len() ==> precedes(messages[i], messages[j]) || precedes(
            messages[j],
            messages[i],
        )
}

proof fn ordered_alike(a: Seq<PartitionMessageView>, b: Seq<PartitionMessageView>)
    requires
        in_order(a),
        in_order(b),
        a.to_multiset() == b.to_multiset(),
        distinct_keys(a),
    ensures
        a == b,
    decreases a.len(),
{
    broadcast use vstd::seq_lib::group_to_multiset_ensures;

    assert(a.to_multiset().len() == a.len());
    assert(b.to_multiset().len() == b.len());
    if a.len() == 0 {
        assert(a =~= b);
    } else {
        let x = a.last();
        let y = b.last();
        assert(b.contains(y));
        assert(b.to_multiset().count(y) > 0);
        assert(a.contains(y));
        let i = a.index_of(y);
        assert(a.contains(x));
        assert(a.to_multiset().count(x) > 0);
        assert(b.contains(x));
        let j = b.index_of(x);
        if i < a.len() - 1 {
            // `x` stands behind `y` in the first listing and not behind it in
            // the second.
            assert(!precedes(a[a.len() - 1], a[i]));
            assert(precedes(a[i], a[a.len() - 1]));
            if j < b.len() - 1 {
                assert(!precedes(b[b.len() - 1], b[j]));
            }
            assert(false);
        }
        assert(x == y);
        let front_a = a.drop_last();
        let front_b = b.drop_last();
        assert(a =~= front_a.push(x));
        assert(b =~= front_b.push(x));
        assert(front_a.to_multiset() =~= a.to_multiset().remove(x));
        assert(front_b.to_multiset() =~= b.to_multiset().remove(x));
        assert forall|i: int, j: int|
            #![trigger front_a[i], front_a[j]]
            0 <= i < j < front_a.len() implies !precedes(front_a[j], front_a[i]) && (precedes(
            front_a[i],
            front_a[j],
        ) || precedes(front_a[j], front_a[i])) by {
            assert(!precedes(a[j], a[i]));
        }
        assert forall|i: int, j: int|
            #![trigger front_b[i], front_b[j]]
            0 <= i < j < front_b.len() implies !precedes(front_b[j], front_b[i]) by {
            assert(!precedes(b[j], b[i]));
        }
        ordered_alike(front_a, front_b);
    }
}

/// The order of delivery does not depend on the order of arrival, and so not
/// on which worker ticks which world when: the same messages, each told apart
/// by tick, sender and sequence number, are delivered in the same order
/// however they arrived.
pub proof fn delivery_order_ignores_arrival(
    a: Seq<PartitionMessageView>,
    b: Seq<PartitionMessageView>,
)
    requires
        a.to_multiset() == b.to_multiset(),
        distinct_keys(a),
    ensures
        in_delivery_order(a) == in_delivery_order(b),
{
    delivery_order_is_a_permutation(a);
    delivery_order_is_a_permutation(b);
    let x = in_delivery_order(a);
    distinct_stays(a, x);
    ordered_alike(x, in_delivery_order(b));
}

proof fn distinct_stays(a: Seq<PartitionMessageView>, b: Seq<PartitionMessageView>)
    requires
        a.to_multiset() == b.to_multiset(),
        distinct_keys(a),
    ensures
        distinct_keys(b),
{
    broadcast use vstd::seq_lib::group_to_multiset_ensures;

    assert(a.no_duplicates()) by {
        assert forall|i: int, j: int| 0 <= i < j < a.len() implies a[i] != a[j] by {
            assert(precedes(a[i], a[j]) || precedes(a[j], a[i]));
        }
    }
    a.lemma_multiset_has_no_duplicates();
    assert(b.no_duplicates()) by {
        b.lemma_multiset_has_no_duplicates_conv();
    }
    assert forall|i: int, j: int|
        #![trigger b[i], b[j]]
        0 <= i < j < b.len() implies precedes(b[i], b[j]) || precedes(b[j], b[i]) by {
        assert(b.contains(b[i]) && b.contains(b[j]));
        assert(b.to_multiset().count(b[i]) > 0 && b.to_multiset().count(b[j]) > 0);
        assert(a.contains(b[i]) && a.contains(b[j]));
        let k = a.index_of(b[i]);
        let l = a.index_of(b[j]);
        assert(b[i] != b[j]);
        if k < l {
            assert(precedes(a[k], a[l]) || precedes(a[l], a[k]));
        } else {
            assert(precedes(a[l], a[k]) || precedes(a[k], a[l]));
        }
    }
}

/// The deliverable messages are those sent before the tick.
pub proof fn filtered_multiset(messages: Seq<PartitionMessageView>, tick: u64)
    ensures
        deliverable(messages, tick).to_multiset() == messages.to_multiset().filter(
            |m: PartitionMessageView| m.sent_tick.0 < tick,
        ),
    decreases messages.len(),
{
    broadcast use vstd::seq_lib::group_to_multiset_ensures;

    reveal(Seq::filter);
    let due = |m: PartitionMessageView| m.sent_tick.0 < tick;
    if messages.len() > 0 {
        let shorter = messages.drop_last();
        filtered_multiset(shorter, tick);
        assert(messages =~= shorter.push(messages.last()));
    }
    assert(deliverable(messages, tick).to_multiset() =~= messages.to_multiset().filter(due));
}

proof fn distinct_when_filtered(messages: Seq<PartitionMessageView>, tick: u64)
    requires
        distinct_keys(messages),
    ensures
        distinct_keys(deliverable(messages, tick)),
        forall|i: int|
            0 <= i < deliverable(messages, tick).len() ==> messages.contains(
                #[trigger] deliverable(messages, tick)[i],
            ),
    decreases messages.len(),
{
    reveal(Seq::filter);
    let batch = deliverable(messages, tick);
    if messages.len() > 0 {
        let shorter = messages.drop_last();
        let early = deliverable(shorter, tick);
        assert(distinct_keys(shorter)) by {
            assert forall|i: int, j: int|
                #![trigger shorter[i], shorter[j]]
                0 <= i < j < shorter.len() implies precedes(shorter[i], shorter[j]) || precedes(
                shorter[j],
                shorter[i],
            ) by {
                assert(precedes(messages[i], messages[j]) || precedes(messages[j], messages[i]));
            }
        }
        distinct_when_filtered(shorter, tick);
        assert forall|i: int| 0 <= i < batch.len() implies messages.contains(
            #[trigger] batch[i],
        ) by {
            if i < early.len() {
                assert(shorter.contains(early[i]));
                let k = shorter.index_of(early[i]);
                assert(messages[k] == batch[i]);
            } else {
                assert(messages[messages.len() - 1] == batch[i]);
            }
        }
        assert forall|i: int, j: int|
            #![trigger batch[i], batch[j]]
            0 <= i < j < batch.len() implies precedes(batch[i], batch[j]) || precedes(
            batch[j],
            batch[i],
        ) by {
            if j < early.len() {
                assert(precedes(early[i], early[j]) || precedes(early[j], early[i]));
            } else {
                assert(shorter.contains(early[i]));
                let k = shorter.index_of(early[i]);
                assert(precedes(messages[k], messages[messages.len() - 1]) || precedes(
                    messages[messages.len() - 1],
                    messages[k],
                ));
            }
        }
    }
}

/// The number of workers, and with it the order worlds tick in and messages
/// arrive in, never enters a tick: runtimes whose queues hold the same
/// messages, in whatever order, give a world's tick the same input.
pub proof fn arrival_never_enters_a_tick(a: RuntimeView, b: RuntimeView, world: WorldId)
    requires
        a.worlds.contains_key(world.0),
        b.worlds.contains_key(world.0),
        a.worlds[world.0] == (WorldView { worker: a.worlds[world.0].worker, ..b.worlds[world.0] }),
        forall|p: u64| #[trigger] a.partitions.contains_key(p) <==> b.partitions.contains_key(p),
        forall|p: u64| #[trigger]
            a.partitions.contains_key(p) ==> a.partitions[p].world == b.partitions[p].world
                && a.partitions[p].inbound.to_multiset() == b.partitions[p].inbound.to_multiset()
                && distinct_keys(a.partitions[p].inbound),
    ensures
        a.tick_input(world) == b.tick_input(world),
{
    assert forall|p: u64|
        (#[trigger] a.partitions.contains_key(p) <==> b.partitions.contains_key(p))
            && (a.partitions.contains_key(p) ==> a.partitions[p].world == b.partitions[p].world) by {
        assert(a.partitions.contains_key(p) <==> b.partitions.contains_key(p));
    }
    same_routes_same_partition(a.partitions, b.partitions, world.0);
    match partition_of(a.partitions, world.0) {
        Some(p) => {
            assert(delivers_to(a.partitions, p, world.0));
            assert(a.partitions.contains_key(p));
            let tick = a.worlds[world.0].next_tick.0;
            filtered_multiset(a.partitions[p].inbound, tick);
            filtered_multiset(b.partitions[p].inbound, tick);
            distinct_when_filtered(a.partitions[p].inbound, tick);
            delivery_order_ignores_arrival(
                deliverable(a.partitions[p].inbound, tick),
                deliverable(b.partitions[p].inbound, tick),
            );
        },
        None => {},
    }
}

/// A message is delivered one tick late at the earliest: none is delivered to
/// the tick it was sent in.
pub proof fn messages_arrive_later(runtime: RuntimeView, world: WorldId)
    ensures
        forall|i: int|
            0 <= i < runtime.delivered_to(world).len() ==> (#[trigger] runtime.delivered_to(
                world,
            )[i]).sent_tick.0 < runtime.worlds[world.0].next_tick.0,
{
    match partition_of(runtime.partitions, world.0) {
        Some(p) => {
            broadcast use vstd::seq_lib::group_to_multiset_ensures;

            let tick = runtime.worlds[world.0].next_tick.0;
            let due = deliverable(runtime.partitions[p].inbound, tick);
            delivery_splits_the_queue(runtime.partitions[p].inbound, tick);
            delivery_order_is_a_permutation(due);
            let batch = runtime.delivered_to(world);
            assert forall|i: int| 0 <= i < batch.len() implies (#[trigger] batch[i]).sent_tick.0
                < tick by {
                assert(batch.contains(batch[i]));
                assert(batch.to_multiset().count(batch[i]) > 0);
                assert(due.contains(batch[i]));
                let k = due.index_of(batch[i]);
                assert(due[k].sent_tick.0 < tick);
            }
        },
        None => {},
    }
}

/// No inbound queue grows beyond its bound.
pub proof fn inbound_queues_stay_bounded(runtime: RuntimeView, message: PartitionMessageView)
    requires
        forall|p: u64| #[trigger]
            runtime.partitions.contains_key(p) ==> runtime.partitions[p].inbound.len()
                <= runtime.config.max_queued_partition_messages,
    ensures
        forall|p: u64| #[trigger]
            runtime.message_enqueued(message).partitions.contains_key(p)
                ==> runtime.message_enqueued(message).partitions[p].inbound.len()
                <= runtime.config.max_queued_partition_messages,
{
    assert forall|p: u64| #[trigger] runtime.message_enqueued(message).partitions.contains_key(
        p,
    ) implies runtime.message_enqueued(message).partitions[p].inbound.len()
        <= runtime.config.max_queued_partition_messages by {
        assert(runtime.partitions.contains_key(p));
    }
}

// --------------------------------------------------------------------- ticks

/// A tick that fails loses no accepted call: the calls it took are back at
/// the front of the queue, in their order.
pub proof fn failed_ticks_lose_no_call(
    runtime: RuntimeView,
    world: WorldId,
    run: TickRunView,
    tick: TickId,
    error: ErrorView,
)
    requires
        runtime.worlds.contains_key(world.0),
        run.input == runtime.tick_input(world),
    ensures
        runtime.input_taken(world).tick_failed(run, tick, error).worlds[world.0].calls
            == runtime.worlds[world.0].calls,
{
    let entry = runtime.worlds[world.0];
    assert(entry.calls.take(call_share(entry)) + entry.calls.skip(call_share(entry))
        =~= entry.calls);
}

/// Durability before observation: a result leaves a settled tick only if its
/// world has no log or the result was appended to it.
pub proof fn only_durable_results_leave(runtime: RuntimeView, run: TickRunView)
    ensures
        runtime.tick_settled(run).1 is Ok ==> !runtime.worlds[run.input.world.0].persistent
            || run.answers.appended is Ok,
        runtime.tick_settled(run).1 matches Ok(result) ==> run.answers.outcome == Ok::<
            TickResultView,
            TickErrorView,
        >(result),
{
}

/// A tick that could not be appended to its world's log leaves nothing to
/// observe: it has no result, no message of it is queued, it is not counted
/// as successful, and its world has failed.
pub proof fn ticks_that_are_not_durable_are_not_observed(runtime: RuntimeView, run: TickRunView)
    requires
        runtime.running(),
        runtime.worlds.contains_key(run.input.world.0),
        runtime.worlds[run.input.world.0].persistent,
        run.answers.outcome is Ok,
        run.answers.appended is Err,
    ensures
        ({
            let (after, outcome) = runtime.tick_settled(run);
            &&& outcome == Err::<TickResultView, RuntimeErrorView>(
                RuntimeErrorView::Persistence(run.answers.appended->Err_0),
            )
            &&& after.partitions == runtime.partitions
            &&& after.worlds[run.input.world.0].state == WorldLifecycle::Failed
            &&& after.metrics.ticks_succeeded == runtime.metrics.ticks_succeeded
            &&& after.metrics.wal_appends == runtime.metrics.wal_appends
            &&& after.metrics.wal_failures == counted(runtime.metrics.wal_failures)
            &&& after.metrics.messages_sent == runtime.metrics.messages_sent
        }),
{
}

proof fn queueing_keeps_worlds(runtime: RuntimeView, messages: Seq<PartitionMessageView>)
    ensures
        runtime.messages_enqueued(messages).worlds == runtime.worlds,
        runtime.messages_enqueued(messages).workers == runtime.workers,
        runtime.messages_enqueued(messages).config == runtime.config,
        runtime.messages_enqueued(messages).state == runtime.state,
    decreases messages.len(),
{
    if messages.len() > 0 {
        queueing_keeps_worlds(runtime, messages.drop_last());
    }
}

/// Failure is isolated: settling one world's tick leaves every other world's
/// entry and all ownership as they were.
pub proof fn settling_touches_one_world(runtime: RuntimeView, run: TickRunView, other: u64)
    requires
        other != run.input.world.0,
    ensures
        ({
            let after = runtime.tick_settled(run).0;
            &&& after.worlds.contains_key(other) == runtime.worlds.contains_key(other)
            &&& after.worlds[other] == runtime.worlds[other]
            &&& after.workers == runtime.workers
        }),
{
    if let Ok(result) = run.answers.outcome {
        let done = runtime.tick_completed(run, result);
        queueing_keeps_worlds(done, result.outbound);
        queueing_keeps_worlds(
            done.tick_appended(run.input.world, run.answers.snapshot_written),
            result.outbound,
        );
    }
}

/// A step's report adds up: every attempt is a success or a failure, and
/// there are no more appends than successes.
pub proof fn step_reports_add_up(runtime: RuntimeView, runs: Seq<TickRunView>)
    requires
        runs.len() <= usize::MAX,
    ensures
        ({
            let report = runtime.step_report(runs);
            &&& report.worlds == runs.len()
            &&& report.ticks == runs.len()
            &&& report.succeeded + report.failed == report.ticks
            &&& report.wal_appends <= report.succeeded
            &&& runtime.committed_results(runs).len() == report.succeeded
        }),
    decreases runs.len(),
{
    if runs.len() > 0 {
        step_reports_add_up(runtime, runs.drop_last());
    }
}

// ----------------------------------------------------------------- lifecycle

/// Starting and stopping twice is starting and stopping once.
pub proof fn lifecycle_operations_repeat(runtime: RuntimeView, world: WorldId)
    ensures
        runtime.world_started(world).1 is Ok ==> runtime.world_started(world).0.world_started(world)
            == runtime.world_started(world),
        runtime.world_stopped(world).1 is Ok ==> runtime.world_stopped(world).0.world_stopped(world)
            == runtime.world_stopped(world),
{
}

/// A stopped world keeps its queues and logical time until it restarts.
pub proof fn stopping_retains_state(runtime: RuntimeView, world: WorldId)
    requires
        runtime.worlds.contains_key(world.0),
    ensures
        runtime.world_stopped(world).0.worlds[world.0] == (WorldView {
            state: runtime.world_stopped(world).0.worlds[world.0].state,
            ..runtime.worlds[world.0]
        }),
{
}

/// A runtime that is not running refuses every operation and changes nothing.
pub proof fn stopped_runtimes_refuse(
    runtime: RuntimeView,
    world: WorldId,
    worker: WorkerId,
    partition: PartitionId,
    other: PartitionId,
    frame: InputFrameView,
    call: ReducerCallView,
    kind: Seq<char>,
    payload: Entries,
)
    requires
        !runtime.running(),
    ensures
        ({
            let refused = (runtime, Err::<(), RuntimeErrorView>(RuntimeErrorView::Shutdown));
            &&& runtime.worker_failed(worker) == refused
            &&& runtime.world_reassigned(world, worker) == refused
            &&& runtime.world_started(world) == refused
            &&& runtime.world_stopped(world) == refused
            &&& runtime.world_destroyed(world) == refused
            &&& runtime.partition_registered(partition, world) == refused
            &&& runtime.partition_unregistered(partition) == refused
            &&& runtime.message_sent(partition, other, kind, payload) == refused
            &&& runtime.input_submitted(world, frame) == refused
            &&& runtime.call_submitted(world, call) == refused
        }),
{
}

/// A runtime that is not running takes in no world, writes no snapshot and
/// settles no tick.
pub proof fn stopped_runtimes_do_nothing(
    runtime: RuntimeView,
    world: WorldId,
    setup: WorldSetupView,
    log: LogSetupView,
    recovery: RecoverySetupView,
    written: Result<(), ErrorView>,
    run: TickRunView,
)
    requires
        !runtime.running(),
    ensures
        runtime.world_created(world, setup, log) == (
            runtime,
            Err::<(), RuntimeErrorView>(RuntimeErrorView::Shutdown),
        ),
        runtime.world_recovered(world, recovery) == (
            runtime,
            Err::<usize, RuntimeErrorView>(RuntimeErrorView::Shutdown),
        ),
        runtime.world_snapshotted(world, written) == (
            runtime,
            Err::<(), RuntimeErrorView>(RuntimeErrorView::Shutdown),
        ),
        runtime.tick_settled(run) == (
            runtime,
            Err::<TickResultView, RuntimeErrorView>(RuntimeErrorView::Shutdown),
        ),
{
}

proof fn halting_keeps_worlds(
    runtime: RuntimeView,
    worlds: Seq<u64>,
    failures: Seq<FlushFailureView>,
    world: u64,
)
    requires
        forall|i: int| 0 <= i < worlds.len() ==> runtime.worlds.contains_key(#[trigger] worlds[i]),
    ensures
        ({
            let after = runtime.worlds_halted(worlds, failures);
            &&& after.worlds.dom() == runtime.worlds.dom()
            &&& after.config == runtime.config
            &&& after.worlds[world] == (WorldView {
                state: after.worlds[world].state,
                ..runtime.worlds[world]
            })
            &&& worlds.contains(world) ==> after.worlds[world].state != WorldLifecycle::Running
            &&& runtime.worlds[world].state != WorldLifecycle::Running
                ==> after.worlds[world].state == runtime.worlds[world].state
        }),
    decreases worlds.len(),
{
    if worlds.len() > 0 {
        let shorter = worlds.drop_last();
        assert forall|i: int| 0 <= i < shorter.len() implies runtime.worlds.contains_key(
            #[trigger] shorter[i],
        ) by {
            assert(shorter[i] == worlds[i]);
        }
        halting_keeps_worlds(runtime, shorter, failures, world);
        let before = runtime.worlds_halted(shorter, failures);
        let w = worlds.last();
        assert(runtime.worlds.contains_key(worlds[worlds.len() - 1]));
        let after = runtime.worlds_halted(worlds, failures);
        assert(after.worlds.dom() =~= before.worlds.dom());
        if worlds.contains(world) && world != w {
            let i = choose|i: int| 0 <= i < worlds.len() && worlds[i] == world;
            assert(shorter[i] == world);
        }
    }
}

proof fn halting_stops_the_worlds(runtime: RuntimeView, failures: Seq<FlushFailureView>)
    requires
        runtime.valid(),
    ensures
        ({
            let stopping = RuntimeView { state: RuntimeState::Stopping, ..runtime };
            let after = stopping.worlds_halted(ascending(runtime.worlds.dom()), failures);
            &&& after.worlds.dom() == runtime.worlds.dom()
            &&& forall|w: u64| #[trigger]
                after.worlds.contains_key(w) ==> after.worlds[w].state != WorldLifecycle::Running
                    && after.worlds[w] == (WorldView {
                    state: after.worlds[w].state,
                    ..runtime.worlds[w]
                })
        }),
{
    let stopping = RuntimeView { state: RuntimeState::Stopping, ..runtime };
    let order = ascending(runtime.worlds.dom());
    let after = stopping.worlds_halted(order, failures);
    ascending_lists(runtime.worlds.dom());
    assert forall|i: int| 0 <= i < order.len() implies stopping.worlds.contains_key(
        #[trigger] order[i],
    ) by {
        assert(order.to_set().contains(order[i]));
    }
    halting_keeps_worlds(stopping, order, failures, 0);
    assert forall|w: u64| #[trigger] after.worlds.contains_key(w) implies after.worlds[w].state
        != WorldLifecycle::Running && after.worlds[w] == (WorldView {
        state: after.worlds[w].state,
        ..runtime.worlds[w]
    }) by {
        halting_keeps_worlds(stopping, order, failures, w);
        assert(runtime.worlds.dom().contains(w));
        assert(order.to_set().contains(w));
    }
}

proof fn flush_errors_are_told(
    runtime: RuntimeView,
    worlds: Seq<u64>,
    failures: Seq<FlushFailureView>,
)
    ensures
        ({
            let error = runtime.last_flush_error(worlds, failures);
            &&& error is Some <==> exists|i: int|
                0 <= i < worlds.len() && runtime.flush_failure(
                    WorldId(#[trigger] worlds[i]),
                    failures,
                ) is Some
            &&& error is Some ==> error->0 is Persistence
        }),
    decreases worlds.len(),
{
    if worlds.len() > 0 {
        let shorter = worlds.drop_last();
        flush_errors_are_told(runtime, shorter, failures);
        let last = worlds.len() - 1;
        assert(worlds[last] == worlds.last());
        if runtime.last_flush_error(shorter, failures) is Some {
            let i = choose|i: int|
                0 <= i < shorter.len() && runtime.flush_failure(
                    WorldId(#[trigger] shorter[i]),
                    failures,
                ) is Some;
            assert(worlds[i] == shorter[i]);
        }
        if exists|i: int|
            0 <= i < worlds.len() && runtime.flush_failure(WorldId(#[trigger] worlds[i]), failures)
                is Some {
            let i = choose|i: int|
                0 <= i < worlds.len() && runtime.flush_failure(
                    WorldId(#[trigger] worlds[i]),
                    failures,
                ) is Some;
            if i < last {
                assert(shorter[i] == worlds[i]);
            }
        }
    }
}

/// Shutting down stops everything: whether it is the first time or not, no
/// world and no worker runs after it, every world is as it was but for that,
/// and the runtime keeps its invariants.
pub proof fn shutdown_stops_everything(runtime: RuntimeView, failures: Seq<FlushFailureView>)
    requires
        runtime.valid(),
    ensures
        ({
            let after = runtime.shut_down(failures).0;
            &&& after.state == RuntimeState::Stopped
            &&& after.at_rest()
            &&& after.worlds.dom() == runtime.worlds.dom()
            &&& after.workers.dom() == runtime.workers.dom()
            &&& forall|w: u64| #[trigger]
                after.worlds.contains_key(w) ==> !after.ticks(w) && after.worlds[w] == (WorldView {
                    state: after.worlds[w].state,
                    ..runtime.worlds[w]
                })
        }),
{
    let stopping = RuntimeView { state: RuntimeState::Stopping, ..runtime };
    let order = ascending(runtime.worlds.dom());
    halting_stops_the_worlds(runtime, failures);
    halting_keeps_workers(stopping, order, failures);
    let after = runtime.shut_down(failures).0;
    assert(after.workers.dom() =~= runtime.workers.dom());
}

proof fn halting_keeps_workers(
    runtime: RuntimeView,
    worlds: Seq<u64>,
    failures: Seq<FlushFailureView>,
)
    ensures
        runtime.worlds_halted(worlds, failures).workers == runtime.workers,
    decreases worlds.len(),
{
    if worlds.len() > 0 {
        halting_keeps_workers(runtime, worlds.drop_last(), failures);
    }
}

/// The first shutdown fails, with a persistence error, exactly if the log of
/// some world could not be flushed; it stops everything all the same.
pub proof fn shutdown_tells_flush_failures(runtime: RuntimeView, failures: Seq<FlushFailureView>)
    requires
        runtime.valid(),
        runtime.state != RuntimeState::Stopped,
    ensures
        ({
            let outcome = runtime.shut_down(failures).1;
            &&& outcome is Err <==> exists|w: u64| #[trigger]
                runtime.worlds.contains_key(w) && runtime.flush_failure(WorldId(w), failures)
                    is Some
            &&& outcome is Err ==> outcome->Err_0 is Persistence
        }),
{
    let stopping = RuntimeView { state: RuntimeState::Stopping, ..runtime };
    let order = ascending(runtime.worlds.dom());
    ascending_lists(runtime.worlds.dom());
    flush_errors_are_told(stopping, order, failures);
    if stopping.last_flush_error(order, failures) is Some {
        let i = choose|i: int|
            0 <= i < order.len() && stopping.flush_failure(WorldId(#[trigger] order[i]), failures)
                is Some;
        assert(order.to_set().contains(order[i]));
        assert(runtime.worlds.contains_key(order[i]));
    }
    assert forall|w: u64| #[trigger]
        runtime.worlds.contains_key(w) && runtime.flush_failure(WorldId(w), failures)
            is Some implies stopping.last_flush_error(order, failures) is Some by {
        assert(order.to_set().contains(w));
        let i = order.index_of(w);
        assert(order[i] == w);
    }
}

/// Shutting down again succeeds and changes nothing, whatever it is told of
/// flushes.
pub proof fn shutdowns_repeat(
    runtime: RuntimeView,
    failures: Seq<FlushFailureView>,
    again: Seq<FlushFailureView>,
)
    ensures
        runtime.state == RuntimeState::Stopped ==> runtime.shut_down(failures) == (
            runtime,
            Ok::<(), RuntimeErrorView>(()),
        ),
        ({
            let after = runtime.shut_down(failures).0;
            after.shut_down(again) == (after, Ok::<(), RuntimeErrorView>(()))
        }),
{
}

/// After a partition is bound or unbound, every world knows exactly the
/// registered partitions, in ascending order.
pub proof fn topology_is_propagated(runtime: RuntimeView, partition: PartitionId, world: WorldId)
    requires
        runtime.valid(),
    ensures
        ({
            let after = runtime.partition_registered(partition, world);
            after.1 is Ok ==> forall|w: u64| #[trigger]
                after.0.worlds.contains_key(w) ==> after.0.worlds[w].known_partitions == ascending(
                    after.0.partitions.dom(),
                )
        }),
        ({
            let after = runtime.partition_unregistered(partition);
            after.1 is Ok && runtime.partitions.contains_key(partition.0) ==> forall|w: u64|
                #[trigger]
                after.0.worlds.contains_key(w) ==> after.0.worlds[w].known_partitions == ascending(
                    after.0.partitions.dom(),
                )
        }),
        runtime.partition_unregistered(partition).1 is Ok
            ==> !runtime.partition_unregistered(partition).0.partitions.contains_key(partition.0),
{
    registering_keeps_valid(runtime, partition, world);
    if runtime.partitions.contains_key(partition.0) {
        unregistering_keeps_valid(runtime, partition);
    }
}

/// Queues are bounded and in submission order: an accepted input goes behind
/// those queued before it and leaves the queue within its bound.
pub proof fn accepted_inputs_queue_in_order(
    runtime: RuntimeView,
    world: WorldId,
    frame: InputFrameView,
)
    requires
        runtime.input_submitted(world, frame).1 is Ok,
    ensures
        ({
            let after = runtime.input_submitted(world, frame).0;
            &&& after.worlds[world.0].inputs == runtime.worlds[world.0].inputs.push(frame)
            &&& after.worlds[world.0].inputs.len() <= runtime.config.max_queued_inputs
            &&& frame.tick.0 >= runtime.worlds[world.0].next_tick.0
        }),
{
}

/// Queues are bounded and in submission order: an accepted call goes behind
/// those queued before it and leaves the queue within its bound.
pub proof fn accepted_calls_queue_in_order(
    runtime: RuntimeView,
    world: WorldId,
    call: ReducerCallView,
)
    requires
        runtime.call_submitted(world, call).1 is Ok,
    ensures
        ({
            let after = runtime.call_submitted(world, call).0;
            &&& after.worlds[world.0].calls == runtime.worlds[world.0].calls.push(call)
            &&& after.worlds[world.0].calls.len() <= runtime.config.max_queued_reducer_calls
        }),
{
}

proof fn orphaning(runtime: RuntimeView, worlds: Seq<u64>, worker: WorkerId, world: u64)
    requires
        forall|i: int| 0 <= i < worlds.len() ==> runtime.worlds.contains_key(#[trigger] worlds[i]),
    ensures
        ({
            let after = runtime.worlds_orphaned(worlds, worker);
            &&& after.worlds.dom() == runtime.worlds.dom()
            &&& after.workers == runtime.workers
            &&& worlds.contains(world) ==> after.worlds[world].state == WorldLifecycle::Failed
            &&& !worlds.contains(world) ==> after.worlds[world] == runtime.worlds[world]
        }),
    decreases worlds.len(),
{
    if worlds.len() > 0 {
        let shorter = worlds.drop_last();
        assert forall|i: int| 0 <= i < shorter.len() implies runtime.worlds.contains_key(
            #[trigger] shorter[i],
        ) by {
            assert(shorter[i] == worlds[i]);
        }
        orphaning(runtime, shorter, worker, world);
        let before = runtime.worlds_orphaned(shorter, worker);
        assert(runtime.worlds.contains_key(worlds[worlds.len() - 1]));
        let after = runtime.worlds_orphaned(worlds, worker);
        assert(after.worlds.dom() =~= before.worlds.dom());
        if worlds.contains(world) && world != worlds.last() {
            let i = choose|i: int| 0 <= i < worlds.len() && worlds[i] == world;
            assert(shorter[i] == world);
        }
        if shorter.contains(world) {
            let i = choose|i: int| 0 <= i < shorter.len() && shorter[i] == world;
            assert(worlds[i] == world);
        }
        if world == worlds.last() {
            assert(worlds[worlds.len() - 1] == world);
        }
    }
}

/// A failing worker takes exactly its own worlds with it: they fail, and
/// every other world is untouched.
pub proof fn worker_failure_is_isolated(runtime: RuntimeView, worker: WorkerId, world: u64)
    requires
        runtime.valid(),
        runtime.running(),
        runtime.workers.contains_key(worker.0),
        runtime.workers[worker.0].state != WorkerState::Failed,
        runtime.worlds.contains_key(world),
    ensures
        ({
            let after = runtime.worker_failed(worker).0;
            &&& after.workers[worker.0].state == WorkerState::Failed
            &&& runtime.worlds[world].worker == worker ==> after.worlds[world].state
                == WorldLifecycle::Failed
            &&& runtime.worlds[world].worker != worker ==> after.worlds[world]
                == runtime.worlds[world]
        }),
{
    let handle = runtime.workers[worker.0];
    let owned = handle.worlds;
    let list = ascending(owned);
    owned_worlds_finite(runtime, worker.0);
    ascending_lists(owned);
    let marked = RuntimeView {
        workers: runtime.workers.insert(
            worker.0,
            WorkerView { state: WorkerState::Failed, ..handle },
        ),
        ..runtime
    }.with_event(RuntimeEventView::WorkerFailed { worker });
    assert forall|i: int| 0 <= i < list.len() implies marked.worlds.contains_key(
        #[trigger] list[i],
    ) by {
        assert(list.to_set().contains(list[i]));
        assert(runtime.workers[worker.0].worlds.contains(list[i]));
    }
    orphaning(marked, list, worker, world);
    assert(list.to_set().contains(world) == list.contains(world));
    if list.contains(world) {
        assert(runtime.workers[worker.0].worlds.contains(world));
    }
}

} // verus!
