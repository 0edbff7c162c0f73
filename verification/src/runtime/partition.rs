//! The runtime's message-bus partition registry.
//!
//! A partition is the message-bus address of a world. The registry holds
//! routing metadata only: the world a partition addresses, the worker that
//! owns it, and its bounded inbound queue.

use std::collections::VecDeque;
use vstd::prelude::*;

use crate::base::ids::{PartitionId, WorkerId, WorldId};
use crate::base::message::{PartitionMessage, PartitionMessageView};
use crate::base::value::views;

verus! {

/// What the runtime keeps of a partition.
pub struct PartitionEntry {
    /// The world this partition addresses.
    pub world: WorldId,
    /// The worker owning the world.
    pub worker: WorkerId,
    /// The bounded inbound queue of undelivered messages, in arrival order.
    pub inbound: VecDeque<PartitionMessage>,
}

/// The mathematical content of a [`PartitionEntry`].
pub struct PartitionView {
    pub world: WorldId,
    pub worker: WorkerId,
    pub inbound: Seq<PartitionMessageView>,
}

impl View for PartitionEntry {
    type V = PartitionView;

    open spec fn view(&self) -> PartitionView {
        PartitionView { world: self.world, worker: self.worker, inbound: views(self.inbound@) }
    }
}

impl PartitionEntry {
    /// Builds an entry for a partition bound to `world` on `worker`.
    pub fn new(world: WorldId, worker: WorkerId) -> (entry: PartitionEntry)
        ensures
            entry@ == (PartitionView { world, worker, inbound: Seq::empty() }),
    {
        let entry = PartitionEntry { world, worker, inbound: VecDeque::new() };
        assert(entry@.inbound =~= Seq::empty());
        entry
    }
}

/// A point-in-time view of a routing entry for introspection.
#[derive(Clone, Copy, Debug, PartialEq, Eq, Structural)]
pub struct RoutingStatus {
    /// The partition (message-bus address) id.
    pub partition: PartitionId,
    /// The world this partition addresses.
    pub world: WorldId,
    /// The worker owning the world.
    pub worker: WorkerId,
    /// Messages currently queued, undelivered.
    pub queued_messages: usize,
}

/// Which of some messages a tick may see: those sent before it.
pub open spec fn deliverable(messages: Seq<PartitionMessageView>, tick: u64) -> Seq<
    PartitionMessageView,
> {
    messages.filter(|m: PartitionMessageView| m.sent_tick.0 < tick)
}

/// Which of some messages a tick must leave queued.
pub open spec fn undeliverable(messages: Seq<PartitionMessageView>, tick: u64) -> Seq<
    PartitionMessageView,
> {
    messages.filter(|m: PartitionMessageView| m.sent_tick.0 >= tick)
}

/// Whether one message is delivered before another: the earlier sent first,
/// then the lower sender, then the lower sequence number.
pub open spec fn precedes(a: PartitionMessageView, b: PartitionMessageView) -> bool {
    ||| a.sent_tick.0 < b.sent_tick.0
    ||| a.sent_tick.0 == b.sent_tick.0 && a.from.0 < b.from.0
    ||| a.sent_tick.0 == b.sent_tick.0 && a.from.0 == b.from.0 && a.seq < b.seq
}

/// Messages with one more put behind all that it does not precede.
pub open spec fn placed(messages: Seq<PartitionMessageView>, m: PartitionMessageView) -> Seq<
    PartitionMessageView,
>
    decreases messages.len(),
{
    if messages.len() == 0 || !precedes(m, messages.last()) {
        messages.push(m)
    } else {
        placed(messages.drop_last(), m).push(messages.last())
    }
}

/// Messages in the order they are delivered in.
pub open spec fn in_delivery_order(messages: Seq<PartitionMessageView>) -> Seq<
    PartitionMessageView,
>
    decreases messages.len(),
{
    if messages.len() == 0 {
        messages
    } else {
        placed(in_delivery_order(messages.drop_last()), messages.last())
    }
}

/// Whether one message is delivered before another.
fn comes_first(a: &PartitionMessage, b: &PartitionMessage) -> (first: bool)
    ensures
        first == precedes(a@, b@),
{
    let (x, y) = (a.sent_tick().as_u64(), b.sent_tick().as_u64());
    let (from_x, from_y) = (a.from().as_u64(), b.from().as_u64());
    x < y || (x == y && (from_x < from_y || (from_x == from_y && a.seq() < b.seq())))
}

/// Puts a message behind all that it does not precede.
fn place(batch: &mut Vec<PartitionMessage>, message: PartitionMessage)
    ensures
        views(final(batch)@) == placed(views(old(batch)@), message@),
{
    let ghost b = views(batch@);
    let mut at: usize = batch.len();
    assert(b.take(b.len() as int) =~= b);
    assert(placed(b, message@) =~= placed(b.take(at as int), message@) + b.skip(at as int));
    while at > 0 && comes_first(&message, &batch[at - 1])
        invariant
            at <= batch@.len(),
            b == views(batch@),
            batch@ == old(batch)@,
            placed(b, message@) == placed(b.take(at as int), message@) + b.skip(at as int),
        decreases at,
    {
        proof {
            let front = b.take(at as int);
            assert(front.last() == batch@[at - 1]@);
            assert(front.drop_last() =~= b.take(at - 1));
            assert(placed(b.take(at - 1), message@).push(front.last()) + b.skip(at as int)
                =~= placed(b.take(at - 1), message@) + b.skip(at - 1));
        }
        at = at - 1;
    }
    proof {
        let front = b.take(at as int);
        if at > 0 {
            assert(front.last() == batch@[at - 1]@);
        }
        assert(placed(front, message@) == front.push(message@));
        assert(views(batch@.insert(at as int, message)) =~= front.push(message@) + b.skip(
            at as int,
        ));
    }
    batch.insert(at, message);
}

proof fn filter_push<V>(s: Seq<V>, x: V, keep: spec_fn(V) -> bool)
    ensures
        s.push(x).filter(keep) == if keep(x) {
            s.filter(keep).push(x)
        } else {
            s.filter(keep)
        },
{
    reveal(Seq::filter);
    assert(s.push(x).drop_last() =~= s);
}

impl PartitionEntry {
    /// Takes the messages out that a tick may see (those sent before it), in
    /// delivery order, and keeps the rest queued.
    pub fn take_deliverable(&mut self, tick: u64) -> (batch: Vec<PartitionMessage>)
        ensures
            views(batch@) == in_delivery_order(deliverable(old(self)@.inbound, tick)),
            final(self)@ == (PartitionView {
                inbound: undeliverable(old(self)@.inbound, tick),
                ..old(self)@
            }),
    {
        let mut batch: Vec<PartitionMessage> = Vec::new();
        let mut remaining: VecDeque<PartitionMessage> = VecDeque::new();
        let ghost all = views(self.inbound@);
        let ghost mut seen = Seq::<PartitionMessageView>::empty();
        proof {
            reveal(Seq::filter);
            assert(views(batch@) =~= in_delivery_order(deliverable(seen, tick)));
            assert(views(remaining@) =~= undeliverable(seen, tick));
            assert(seen + views(self.inbound@) =~= all);
        }
        while self.inbound.len() > 0
            invariant
                seen + views(self.inbound@) == all,
                views(batch@) == in_delivery_order(deliverable(seen, tick)),
                views(remaining@) == undeliverable(seen, tick),
                self.world == old(self).world,
                self.worker == old(self).worker,
            decreases self.inbound@.len(),
        {
            let ghost here = views(self.inbound@);
            match self.inbound.pop_front() {
                Some(message) => {
                    let ghost m = message@;
                    proof {
                        filter_push(seen, m, |m: PartitionMessageView| m.sent_tick.0 < tick);
                        assert(deliverable(seen, tick).push(m).drop_last() =~= deliverable(
                            seen,
                            tick,
                        ));
                        filter_push(seen, m, |m: PartitionMessageView| m.sent_tick.0 >= tick);
                        assert(here =~= seq![m] + views(self.inbound@));
                        assert(seen + here =~= seen.push(m) + views(self.inbound@));
                        seen = seen.push(m);
                    }
                    let ghost r = views(remaining@);
                    if message.sent_tick().as_u64() < tick {
                        place(&mut batch, message);
                    } else {
                        remaining.push_back(message);
                        assert(views(remaining@) =~= r.push(m));
                    }
                },
                None => {},
            }
        }
        assert(seen + views(self.inbound@) =~= seen);
        self.inbound = remaining;
        batch
    }
}

} // verus!
