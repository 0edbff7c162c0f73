//! Bounded event logs: the newest events, oldest dropped first.

use std::collections::VecDeque;
use vstd::prelude::*;

use crate::base::value::views;

verus! {

/// A log after one more event: at the limit the oldest event goes.
pub open spec fn logged<V>(log: Seq<V>, limit: nat, event: V) -> Seq<V> {
    if log.len() >= limit && log.len() > 0 {
        log.drop_first().push(event)
    } else {
        log.push(event)
    }
}

/// A log after several more events.
pub open spec fn logged_all<V>(log: Seq<V>, limit: nat, events: Seq<V>) -> Seq<V>
    decreases events.len(),
{
    if events.len() == 0 {
        log
    } else {
        logged(logged_all(log, limit, events.drop_last()), limit, events.last())
    }
}

/// A log that started empty holds exactly the newest events of its history,
/// in order, and never more of them than its limit.
pub proof fn log_keeps_newest<V>(limit: nat, history: Seq<V>)
    requires
        limit > 0,
    ensures
        logged_all(Seq::empty(), limit, history).len() <= limit,
        logged_all(Seq::empty(), limit, history) == history.skip(
            if history.len() > limit {
                history.len() - limit
            } else {
                0
            },
        ),
    decreases history.len(),
{
    if history.len() == 0 {
        assert(history.skip(0) =~= Seq::empty());
    } else {
        log_keeps_newest(limit, history.drop_last());
        let n = history.len() as int;
        let before = history.drop_last();
        if n > limit {
            assert(before.skip(n - 1 - limit).drop_first().push(history.last()) =~= history.skip(
                n - limit,
            ));
        } else {
            assert(before.skip(0).push(history.last()) =~= history.skip(0));
        }
    }
}

/// A bounded event log.
pub struct EventLog<T> {
    limit: usize,
    events: VecDeque<T>,
}

impl<T: View> View for EventLog<T> {
    type V = Seq<T::V>;

    closed spec fn view(&self) -> Seq<T::V> {
        views(self.events@)
    }
}

impl<T: View> EventLog<T> {
    /// The most events the log keeps.
    pub closed spec fn limit(&self) -> nat {
        self.limit as nat
    }

    /// The log is within its limit.
    pub open spec fn bounded(&self) -> bool {
        self.limit() > 0 && self@.len() <= self.limit()
    }

    /// An empty log that keeps at most `limit` events.
    pub fn new(limit: usize) -> (log: EventLog<T>)
        ensures
            log@ == Seq::<T::V>::empty(),
            log.limit() == limit,
            limit > 0 ==> log.bounded(),
    {
        let log = EventLog { limit, events: VecDeque::new() };
        assert(log@ =~= Seq::empty());
        log
    }

    /// Appends an event, dropping the oldest one at the limit.
    pub fn push(&mut self, event: T)
        ensures
            final(self)@ == logged(old(self)@, old(self).limit(), event@),
            final(self).limit() == old(self).limit(),
            old(self).bounded() ==> final(self).bounded(),
    {
        if self.events.len() >= self.limit {
            self.events.pop_front();
        }
        self.events.push_back(event);
        assert(self@ =~= logged(old(self)@, old(self).limit(), event@));
    }

    /// The number of events in the log.
    pub fn len(&self) -> (count: usize)
        ensures
            count == self@.len(),
    {
        self.events.len()
    }

    /// Takes every event out, oldest first.
    pub fn drain(&mut self) -> (events: Vec<T>)
        ensures
            views(events@) == old(self)@,
            final(self)@ == Seq::<T::V>::empty(),
            final(self).limit() == old(self).limit(),
    {
        let mut events: Vec<T> = Vec::new();
        let ghost all = self@;
        while self.events.len() > 0
            invariant
                self.limit == old(self).limit,
                views(events@) + self@ == all,
            decreases self.events@.len(),
        {
            let ghost here = self@;
            let ghost taken = views(events@);
            match self.events.pop_front() {
                Some(event) => {
                    events.push(event);
                    assert(here =~= seq![event@] + self@);
                    assert(views(events@) =~= taken.push(event@));
                    assert(taken + here =~= taken.push(event@) + self@);
                },
                None => {},
            }
        }
        assert(self@ =~= Seq::empty());
        assert(views(events@) + self@ =~= views(events@));
        events
    }
}

} // verus!
