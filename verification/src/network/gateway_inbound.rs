//! The gateway's inbound pass: frames are taken from the transports, decoded
//! and dispatched, and what is buffered outbound is flushed.

use vstd::prelude::*;
use vstd::string::*;

use crate::base::ids::{ConnectionId, SubscriptionId, WorldId};
use crate::base::table::{ascending, put_back};
use crate::base::text::join;
use crate::network::auth::Authenticator;
use crate::network::config::NetworkEvent;
use crate::network::error::{NetworkError, ProtocolError, TransportError};
use crate::network::gateway_laws::{
    extends_transitive, passes_only_drop, rescheduling_keeps_valid,
};
use crate::network::gateway_model::{ConnectionView, GatewayView, ProcessReport};
use crate::network::host::{
    asking_in_touch, extends, goes_on, host_part, host_part_grows, in_touch, in_touch_transitive,
    staying_in_touch, Exchange, SubscriptionHost,
};
use crate::network::policy::GamePolicy;
use crate::network::protocol::decode_client;
use crate::network::transport::{received_view, Connection, Contact};
use crate::runtime::metrics::count;
use crate::runtime::report::answer_view;
use crate::network::gateway::NetworkGateway;

verus! {

broadcast use {
    put_back,
    host_part_grows,
    asking_in_touch,
    staying_in_touch,
    in_touch_transitive,
};

impl<C: Connection, A: Authenticator, P: GamePolicy> NetworkGateway<C, A, P> {
    /// Counts, logs and answers a protocol violation, and drops the
    /// connection.
    fn handle_violation(&mut self, c: ConnectionId, error: &ProtocolError)
        requires
            old(self).wf(),
        ensures
            final(self).wf(),
            final(self).judged_as(*old(self)),
            goes_on(old(self)@.history, final(self)@.history),
            forall|h: Seq<Exchange>| #[trigger]
                extends(final(self)@.history, h) ==> final(self)@ == old(self)@.violated(
                    c,
                    error@,
                    h,
                ),
    {
        proof {
            reveal(GatewayView::violated);
        }
        self.counters.frames_rejected = count(self.counters.frames_rejected);
        self.counters.protocol_errors = count(self.counters.protocol_errors);
        self.push_event(NetworkEvent::ProtocolError { connection: c });
        let detail = error.to_text();
        self.send_error(c, error.code(), detail.as_str(), 0);
        let reason = join("protocol violation: ", detail.as_str());
        self.drop_connection(c, reason.as_str());
    }

    /// Asks a connection for a frame.
    fn receive(&mut self, c: ConnectionId) -> (answer: Result<Option<Vec<u8>>, TransportError>)
        requires
            old(self).wf(),
            old(self)@.connections.contains_key(c.0),
        ensures
            final(self).wf(),
            final(self).judged_as(*old(self)),
            final(self)@ == old(self)@.recorded(
                (Exchange::Received { connection: c, answer: received_view(answer) }),
            ).contacted(c, seq![Contact::Asked { answer: received_view(answer) }]),
    {
        let mut answer: Result<Option<Vec<u8>>, TransportError> = Ok(None);
        let ghost before = self@.connections[c.0];
        let ghost mut contacts: Seq<Contact> = Seq::empty();
        if let Some(mut entry) = self.connections.remove(c.as_u64()) {
            answer = entry.transport.try_recv_frame();
            proof {
                contacts = seq![Contact::Asked { answer: received_view(answer) }];
                assert(entry@.contacts =~= before.contacts + contacts);
            }
            self.connections.insert(c.as_u64(), entry);
        }
        proof {
            rescheduling_keeps_valid(
                old(self)@,
                c,
                ConnectionView { contacts: before.contacts + contacts, ..before },
            );
        }
        self.record(
            Ghost(Exchange::Received { connection: c, answer: received_view(answer) }),
        );
        answer
    }

    /// Takes and dispatches the frames of one connection.
    #[verifier::spinoff_prover]
    #[verifier::rlimit(40)]
    fn take_frames<R: SubscriptionHost>(
        &mut self,
        host: &mut R,
        c: ConnectionId,
        report: ProcessReport,
        now: u64,
    ) -> (after: ProcessReport)
        requires
            old(self).wf(),
        ensures
            final(self).wf(),
            final(self).judged_as(*old(self)),
            extends(old(self)@.history, final(self)@.history),
            in_touch(
                old(host).exchanges(),
                host_part(old(self)@.history),
                final(host).exchanges(),
                host_part(final(self)@.history),
            ),
            forall|h: Seq<Exchange>| #[trigger]
                extends(final(self)@.history, h) ==> (final(self)@, after) == old(
                    self,
                )@.frames_taken(c, report, u64::MAX, now, h),
    {
        let mut tally = report;
        let mut budget: u64 = u64::MAX;
        while budget > 0
            invariant
                self.wf(),
                self.judged_as(*old(self)),
                extends(old(self)@.history, self@.history),
                in_touch(
                    old(host).exchanges(),
                    host_part(old(self)@.history),
                    host.exchanges(),
                    host_part(self@.history),
                ),
                forall|h: Seq<Exchange>| #[trigger]
                    extends(self@.history, h) ==> old(self)@.frames_taken(
                        c,
                        report,
                        u64::MAX,
                        now,
                        h,
                    ) == self@.frames_taken(c, tally, budget, now, h),
            decreases budget,
        {
            if !self.connections.contains(c.as_u64()) {
                return tally;
            }
            let ghost start = self@;
            let ghost n = self@.history.len() as int;
            let answer = self.receive(c);
            let ghost asked = self@;
            let frame = match answer {
                Err(_) => {
                    self.drop_connection(c, "transport closed");
                    assert forall|h: Seq<Exchange>| #[trigger] extends(
                        self@.history,
                        h,
                    ) implies (self@, tally) == old(self)@.frames_taken(
                        c,
                        report,
                        u64::MAX,
                        now,
                        h,
                    ) by {
                        extends_transitive(start.history, asked.history, h);
                        assert(asked.history[n] == h[n]);
                    }
                    return tally;
                },
                Ok(None) => {
                    assert forall|h: Seq<Exchange>| #[trigger] extends(
                        self@.history,
                        h,
                    ) implies (self@, tally) == old(self)@.frames_taken(
                        c,
                        report,
                        u64::MAX,
                        now,
                        h,
                    ) by {
                        extends_transitive(start.history, asked.history, h);
                        assert(asked.history[n] == h[n]);
                    }
                    return tally;
                },
                Ok(Some(frame)) => frame,
            };
            tally.frames_received = count(tally.frames_received);
            self.counters.frames_received = count(self.counters.frames_received);
            match decode_client(frame.as_slice(), self.config.max_frame_payload()) {
                Ok(message) => {
                    tally.dispatched = count(tally.dispatched);
                    self.dispatch(host, c, message, now);
                    let ghost handled = self@;
                    self.settle_ended(host);
                    proof {
                        extends_transitive(old(self)@.history, start.history, asked.history);
                        extends_transitive(old(self)@.history, asked.history, handled.history);
                        extends_transitive(old(self)@.history, handled.history, self@.history);
                        assert forall|h: Seq<Exchange>| #[trigger] extends(
                            self@.history,
                            h,
                        ) implies old(self)@.frames_taken(c, report, u64::MAX, now, h)
                            == self@.frames_taken(c, tally, (budget - 1) as u64, now, h) by {
                            extends_transitive(handled.history, self@.history, h);
                            extends_transitive(asked.history, handled.history, h);
                            extends_transitive(start.history, asked.history, h);
                            assert(asked.history[n] == h[n]);
                        }
                    }
                },
                Err(error) => {
                    tally.rejected = count(tally.rejected);
                    self.handle_violation(c, &error);
                    proof {
                        extends_transitive(old(self)@.history, start.history, asked.history);
                        extends_transitive(old(self)@.history, asked.history, self@.history);
                    }
                    assert forall|h: Seq<Exchange>| #[trigger] extends(
                        self@.history,
                        h,
                    ) implies (self@, tally) == old(self)@.frames_taken(
                        c,
                        report,
                        u64::MAX,
                        now,
                        h,
                    ) by {
                        extends_transitive(asked.history, self@.history, h);
                        extends_transitive(start.history, asked.history, h);
                        assert(asked.history[n] == h[n]);
                    }
                    return tally;
                },
            }
            budget = budget - 1;
        }
        tally
    }

    /// Drains and dispatches every complete inbound frame on every connection
    /// (non-blocking), in ascending order of connection ids. `now` is the
    /// time in nanoseconds, for the rate limits. Malformed frames drop their
    /// connection; nothing panics. Outbound data is flushed at the end.
    #[verifier::spinoff_prover]
    #[verifier::rlimit(40)]
    pub fn process_inbound<R: SubscriptionHost>(&mut self, host: &mut R, now: u64) -> (report:
        ProcessReport)
        requires
            old(self).wf(),
        ensures
            final(self).wf(),
            final(self).judged_as(*old(self)),
            extends(old(self)@.history, final(self)@.history),
            in_touch(
                old(host).exchanges(),
                host_part(old(self)@.history),
                final(host).exchanges(),
                host_part(final(self)@.history),
            ),
            forall|h: Seq<Exchange>| #[trigger]
                extends(final(self)@.history, h) ==> (final(self)@, report) == old(
                    self,
                )@.inbound_processed(now, h),
    {
        proof {
            reveal(GatewayView::inbound_processed);
        }
        let count: usize = self.connections.len();
        let ids = self.connections.keys();
        let mut report = ProcessReport {
            frames_received: 0,
            dispatched: 0,
            rejected: 0,
            disconnected: 0,
        };
        let mut i: usize = 0;
        assert(ids@.take(0) =~= Seq::empty());
        while i < ids.len()
            invariant
                i <= ids@.len(),
                self.wf(),
                self.judged_as(*old(self)),
                extends(old(self)@.history, self@.history),
                in_touch(
                    old(host).exchanges(),
                    host_part(old(self)@.history),
                    host.exchanges(),
                    host_part(self@.history),
                ),
                forall|h: Seq<Exchange>| #[trigger]
                    extends(self@.history, h) ==> (self@, report) == old(
                        self,
                    )@.all_frames_taken(ids@.take(i as int), now, h),
            decreases ids@.len() - i,
        {
            let ghost before = self@;
            assert(ids@.take(i + 1).drop_last() =~= ids@.take(i as int));
            report = self.take_frames(host, ConnectionId::from_u64(ids[i]), report, now);
            assert forall|h: Seq<Exchange>| #[trigger] extends(
                self@.history,
                h,
            ) implies (self@, report) == old(self)@.all_frames_taken(ids@.take(i + 1), now, h) by {
                extends_transitive(before.history, self@.history, h);
            }
            proof {
                extends_transitive(old(self)@.history, before.history, self@.history);
            }
            i = i + 1;
        }
        assert(ids@.take(ids@.len() as int) =~= ids@);
        let ghost taken = self@;
        self.flush_connections();
        let ghost flushed = self@;
        self.settle_ended(host);
        proof {
            extends_transitive(old(self)@.history, taken.history, flushed.history);
            extends_transitive(old(self)@.history, flushed.history, self@.history);
            extends_transitive(flushed.history, self@.history, self@.history);
            extends_transitive(taken.history, flushed.history, self@.history);
            let h = self@.history;
            assert(extends(h, h));
            assert(old(self)@.all_frames_taken(ids@, now, h) == (taken, report));
            assert(taken.flushed(h) == flushed);
            assert(flushed.ended_settled(h) == self@);
            passes_only_drop(old(self)@, now, h);
        }
        report.disconnected = (count - self.connections.len()) as u64;
        assert forall|h: Seq<Exchange>| #[trigger] extends(
            self@.history,
            h,
        ) implies (self@, report) == old(self)@.inbound_processed(now, h) by {
            extends_transitive(flushed.history, self@.history, h);
            extends_transitive(taken.history, flushed.history, h);
        }
        report
    }

    /// Tells the worlds' registries of the subscriptions that have ended
    /// since the last pass, oldest first.
    pub fn settle_ended<R: SubscriptionHost>(&mut self, host: &mut R)
        requires
            old(self).wf(),
        ensures
            final(self).wf(),
            final(self).judged_as(*old(self)),
            extends(old(self)@.history, final(self)@.history),
            in_touch(
                old(host).exchanges(),
                host_part(old(self)@.history),
                final(host).exchanges(),
                host_part(final(self)@.history),
            ),
            forall|h: Seq<Exchange>| #[trigger]
                extends(final(self)@.history, h) ==> final(self)@ == old(self)@.ended_settled(h),
    {
        proof {
            reveal(GatewayView::ended_settled);
        }
        let mut ended: Vec<(WorldId, SubscriptionId)> = Vec::new();
        core::mem::swap(&mut self.ended, &mut ended);
        let ghost start = self@;
        let mut i: usize = 0;
        assert(ended@.take(0) =~= Seq::empty());
        while i < ended.len()
            invariant
                i <= ended@.len(),
                self.wf(),
                self.judged_as(*old(self)),
                start == (GatewayView { ended: Seq::empty(), ..old(self)@ }),
                extends(start.history, self@.history),
                in_touch(
                    old(host).exchanges(),
                    host_part(start.history),
                    host.exchanges(),
                    host_part(self@.history),
                ),
                forall|h: Seq<Exchange>| #[trigger]
                    extends(self@.history, h) ==> self@ == start.all_ended(
                        ended@.take(i as int),
                        h,
                    ),
            decreases ended@.len() - i,
        {
            let ghost before = self@;
            assert(ended@.take(i + 1).drop_last() =~= ended@.take(i as int));
            let (world, subscription) = ended[i];
            if self.runtime.check_world(world).is_ok() {
                let ghost log = host.exchanges();
                let ghost part = host_part(self@.history);
                let answer = host.unsubscribe(world, subscription);
                let ghost n = self@.history.len() as int;
                let ghost said = answer_view(answer);
                self.record(
                    Ghost(Exchange::Unsubscribed { world, subscription, answer: said }),
                );
                assert(in_touch(
                    log,
                    part,
                    host.exchanges(),
                    host_part(self@.history),
                ));
                let _ = self.runtime.unsubscribe(world, subscription, answer);
                assert forall|h: Seq<Exchange>| #[trigger] extends(
                    self@.history,
                    h,
                ) implies self@ == start.all_ended(ended@.take(i + 1), h) by {
                    extends_transitive(before.history, self@.history, h);
                    assert(self@.history[n] == h[n]);
                }
                proof {
                    extends_transitive(start.history, before.history, self@.history);
                }
            }
            i = i + 1;
        }
        assert(ended@.take(ended@.len() as int) =~= ended@);
    }

    /// Closes a connection, telling it the reason if possible. Its
    /// subscriptions leave their registries.
    pub fn disconnect<R: SubscriptionHost>(
        &mut self,
        host: &mut R,
        connection: ConnectionId,
        reason: &str,
    ) -> (outcome: Result<(), NetworkError>)
        requires
            old(self).wf(),
        ensures
            final(self).wf(),
            final(self).judged_as(*old(self)),
            outcome is Ok,
            extends(old(self)@.history, final(self)@.history),
            in_touch(
                old(host).exchanges(),
                host_part(old(self)@.history),
                final(host).exchanges(),
                host_part(final(self)@.history),
            ),
            forall|h: Seq<Exchange>| #[trigger]
                extends(final(self)@.history, h) ==> final(self)@ == old(self)@.disconnected(
                    connection,
                    reason@,
                    h,
                ).ended_settled(h),
    {
        self.part_with(connection, reason);
        let ghost parted = self@;
        self.settle_ended(host);
        assert forall|h: Seq<Exchange>| #[trigger] extends(
            self@.history,
            h,
        ) implies self@ == old(self)@.disconnected(connection, reason@, h).ended_settled(h) by {
            extends_transitive(parted.history, self@.history, h);
        }
        proof {
            extends_transitive(old(self)@.history, parted.history, self@.history);
        }
        Ok(())
    }

    /// Flushes buffered outbound bytes to every transport. Connections whose
    /// transport fails are dropped, and their subscriptions leave their
    /// registries.
    pub fn flush_outbound<R: SubscriptionHost>(&mut self, host: &mut R) -> (outcome: Result<
        (),
        NetworkError,
    >)
        requires
            old(self).wf(),
        ensures
            final(self).wf(),
            final(self).judged_as(*old(self)),
            outcome is Ok,
            extends(old(self)@.history, final(self)@.history),
            in_touch(
                old(host).exchanges(),
                host_part(old(self)@.history),
                final(host).exchanges(),
                host_part(final(self)@.history),
            ),
            forall|h: Seq<Exchange>| #[trigger]
                extends(final(self)@.history, h) ==> final(self)@ == old(self)@.flushed(
                    h,
                ).ended_settled(h),
    {
        self.flush_connections();
        let ghost flushed = self@;
        self.settle_ended(host);
        assert forall|h: Seq<Exchange>| #[trigger] extends(
            self@.history,
            h,
        ) implies self@ == old(self)@.flushed(h).ended_settled(h) by {
            extends_transitive(flushed.history, self@.history, h);
        }
        proof {
            extends_transitive(old(self)@.history, flushed.history, self@.history);
        }
        Ok(())
    }

    /// Asks one connection to write what it buffers.
    fn ask_flush(&mut self, c: ConnectionId) -> (answer: Result<(), TransportError>)
        requires
            old(self).wf(),
            old(self)@.connections.contains_key(c.0),
        ensures
            final(self).wf(),
            final(self).judged_as(*old(self)),
            final(self)@ == old(self)@.recorded(
                (Exchange::Flushed { connection: c, answer }),
            ).contacted(c, seq![Contact::Flushed { answer }]),
    {
        let mut answer: Result<(), TransportError> = Err(TransportError::Closed);
        let ghost before = self@.connections[c.0];
        let ghost mut contacts: Seq<Contact> = Seq::empty();
        if let Some(mut entry) = self.connections.remove(c.as_u64()) {
            answer = entry.transport.flush_outbound();
            proof {
                contacts = seq![Contact::Flushed { answer }];
                assert(entry@.contacts =~= before.contacts + contacts);
            }
            self.connections.insert(c.as_u64(), entry);
        }
        proof {
            rescheduling_keeps_valid(
                old(self)@,
                c,
                ConnectionView { contacts: before.contacts + contacts, ..before },
            );
        }
        self.record(Ghost(Exchange::Flushed { connection: c, answer }));
        answer
    }

    pub(crate) fn flush_connections(&mut self)
        requires
            old(self).wf(),
        ensures
            final(self).wf(),
            final(self).judged_as(*old(self)),
            goes_on(old(self)@.history, final(self)@.history),
            forall|h: Seq<Exchange>| #[trigger]
                extends(final(self)@.history, h) ==> final(self)@ == old(self)@.flushed(h),
    {
        proof {
            reveal(GatewayView::flushed);
        }
        let ids = self.connections.keys();
        let mut failed: Vec<u64> = Vec::new();
        let mut i: usize = 0;
        assert(ids@.take(0) =~= Seq::empty());
        while i < ids.len()
            invariant
                i <= ids@.len(),
                self.wf(),
                self.judged_as(*old(self)),
                ids@.to_set() == old(self)@.connections.dom(),
                self@.connections.dom() == old(self)@.connections.dom(),
                goes_on(old(self)@.history, self@.history),
                forall|h: Seq<Exchange>| #[trigger]
                    extends(self@.history, h) ==> (self@, failed@) == old(self)@.flush_asked(
                        ids@.take(i as int),
                        h,
                    ),
            decreases ids@.len() - i,
        {
            let ghost before = self@;
            let ghost n = self@.history.len() as int;
            assert(ids@.take(i + 1).drop_last() =~= ids@.take(i as int));
            assert(ids@.to_set().contains(ids@[i as int]));
            let answer = self.ask_flush(ConnectionId::from_u64(ids[i]));
            assert(self@.connections.dom() =~= before.connections.dom());
            if answer.is_err() {
                failed.push(ids[i]);
            }
            assert forall|h: Seq<Exchange>| #[trigger] extends(
                self@.history,
                h,
            ) implies (self@, failed@) == old(self)@.flush_asked(ids@.take(i + 1), h) by {
                extends_transitive(before.history, self@.history, h);
                assert(self@.history[n] == h[n]);
            }
            proof {
                extends_transitive(old(self)@.history, before.history, self@.history);
            }
            i = i + 1;
        }
        assert(ids@.take(ids@.len() as int) =~= ids@);
        let ghost asked = self@;
        let mut j: usize = 0;
        assert(failed@.take(0) =~= Seq::empty());
        while j < failed.len()
            invariant
                j <= failed@.len(),
                self.wf(),
                self.judged_as(*old(self)),
                self@.history == asked.history,
                self@.connections.dom().subset_of(asked.connections.dom()),
                self@ == asked.all_dropped(failed@.take(j as int), "transport write failure"@),
            decreases failed@.len() - j,
        {
            assert(failed@.take(j + 1).drop_last() =~= failed@.take(j as int));
            self.drop_connection(ConnectionId::from_u64(failed[j]), "transport write failure");
            j = j + 1;
        }
        assert(failed@.take(failed@.len() as int) =~= failed@);
    }
}

} // verus!
