//! The gateway's handlers: one for each kind of client message.

use std::collections::VecDeque;
use vstd::prelude::*;
use vstd::string::*;

use crate::base::ids::{ConnectionId, SessionId, SubscriptionId, WorldId};
use crate::base::input::InputFrame;
use crate::base::query::Query;
use crate::base::subscription::SubscriptionUpdate;
use crate::base::table::{put_back, IdSet, Table};
use crate::base::text::{join, number};
use crate::base::value::{duplicate_all, views, Value, Duplicate};
use crate::network::auth::{outcome_view, Authenticator, Principal};
use crate::network::config::NetworkEvent;
use crate::network::error::AuthError;
use crate::network::frame::PROTOCOL_VERSION;
use crate::network::gateway_laws::{
    attaching_keeps_valid, detaching_keeps_valid, extends_transitive, identifying_keeps_valid,
    noting_a_call_keeps_valid, rescheduling_keeps_valid, resubscribing_keeps_valid,
};
use crate::network::gateway_model::{
    calls_valid, connections_valid, deltas_of, stamped, update_delta, update_message,
    update_messages, whole_updates, ConnectionView, GatewayView,
};
use crate::network::host::{
    asking_in_touch, drained_view, extends, goes_on, host_part, host_part_grows, in_touch,
    in_touch_transitive, staying_in_touch, Exchange, Operation, SubscriptionHost,
};
use crate::network::policy::GamePolicy;
use crate::network::protocol::{
    server_encodable, ClientMessage, DeltaKind, ServerMessage, SubscriptionDeltaEntry,
};
use crate::network::rate::RateBucket;
use crate::network::session::Session;
use crate::network::transport::Connection;
use crate::network::wire::Wire;
use crate::reducer::args::ReducerArgs;
use crate::runtime::error::RuntimeError;
use crate::runtime::metrics::count;
use crate::runtime::report::answer_view;
use crate::network::gateway::{
    runtime_error_code, NetworkGateway, PendingCall, CALLER_SOURCE_ARG, SERVER_REQUEST_MSB,
};

verus! {

broadcast use {
    put_back,
    host_part_grows,
    asking_in_touch,
    staying_in_touch,
    in_touch_transitive,
};

impl<C: Connection, A: Authenticator, P: GamePolicy> NetworkGateway<C, A, P> {
    /// Presents credentials to the authenticator.
    fn authenticate(&mut self, credentials: &str) -> (outcome: Result<Principal, AuthError>)
        requires
            old(self).wf(),
        ensures
            final(self).wf(),
            final(self).judged_as(*old(self)),
            final(self)@ == old(self)@.recorded(
                Exchange::Authenticated {
                    credentials: credentials@,
                    outcome: outcome_view(outcome),
                },
            ),
    {
        let outcome = self.authenticator.authenticate(credentials);
        self.record(
            Ghost(
                Exchange::Authenticated {
                    credentials: credentials@,
                    outcome: outcome_view(outcome),
                },
            ),
        );
        outcome
    }

    /// Handles a handshake.
    fn handle_handshake(&mut self, c: ConnectionId, version: u16)
        requires
            old(self).wf(),
        ensures
            final(self).wf(),
            final(self).judged_as(*old(self)),
            goes_on(old(self)@.history, final(self)@.history),
            forall|h: Seq<Exchange>| #[trigger]
                extends(final(self)@.history, h) ==> final(self)@ == old(self)@.handshaken(
                    c,
                    version,
                    h,
                ),
    {
        proof {
            reveal(GatewayView::handshaken);
        }
        if version != PROTOCOL_VERSION {
            self.send_error(c, 2, "unsupported protocol version", 0);
            let ghost mid = self@;
            self.part_with(c, "unsupported protocol version");
            assert forall|h: Seq<Exchange>| #[trigger] extends(
                self@.history,
                h,
            ) implies self@ == old(self)@.handshaken(c, version, h) by {
                extends_transitive(mid.history, self@.history, h);
            }
        } else {
            let name = self.server_name.clone();
            self.reply(
                c,
                &ServerMessage::HandshakeResponse {
                    version: PROTOCOL_VERSION,
                    server_name: name,
                },
            );
        }
    }

    /// Acts on what the authenticator answered for a connection without a
    /// session.
    fn identify(&mut self, c: ConnectionId, outcome: Result<Principal, AuthError>)
        requires
            old(self).wf(),
            old(self)@.connections.contains_key(c.0),
            old(self)@.connections[c.0].session is None,
        ensures
            final(self).wf(),
            final(self).judged_as(*old(self)),
            goes_on(old(self)@.history, final(self)@.history),
            forall|h: Seq<Exchange>| #[trigger]
                extends(final(self)@.history, h) ==> final(self)@ == old(self)@.identified(
                    c,
                    outcome_view(outcome),
                    h,
                ),
    {
        proof {
            reveal(GatewayView::identified);
        }
        match outcome {
            Ok(principal) => {
                let session = Session::new(
                    SessionId::from_u64(self.next_session),
                    c,
                    principal.clone(),
                );
                self.next_session = count(self.next_session);
                if let Some(mut entry) = self.connections.remove(c.as_u64()) {
                    entry.session = Some(session);
                    self.connections.insert(c.as_u64(), entry);
                }
                proof {
                    identifying_keeps_valid(old(self)@, c, session@);
                }
                self.push_event(
                    NetworkEvent::Authenticated { connection: c, principal_id: principal.id() },
                );
                self.reply(
                    c,
                    &ServerMessage::AuthResult {
                        ok: true,
                        principal: Some(principal),
                        error: None,
                    },
                );
            },
            Err(error) => {
                self.counters.auth_failures = count(self.counters.auth_failures);
                self.push_event(NetworkEvent::AuthFailed { connection: c });
                let text = error.to_text();
                self.reply(
                    c,
                    &ServerMessage::AuthResult { ok: false, principal: None, error: Some(text) },
                );
            },
        }
    }

    /// Handles an authentication attempt.
    fn handle_authenticate(&mut self, c: ConnectionId, credentials: &str, now: u64)
        requires
            old(self).wf(),
            old(self)@.connections.contains_key(c.0),
        ensures
            final(self).wf(),
            final(self).judged_as(*old(self)),
            goes_on(old(self)@.history, final(self)@.history),
            forall|h: Seq<Exchange>| #[trigger]
                extends(final(self)@.history, h) ==> final(self)@ == old(self)@.authenticated(
                    c,
                    credentials@,
                    now,
                    h,
                ),
    {
        proof {
            reveal(GatewayView::authenticated);
        }
        if !self.check_rate(c, RateBucket::Auth, 0, now) {
            return;
        }
        let ghost s = self@;
        let known = match self.connections.get(c.as_u64()) {
            Some(entry) => entry.session.is_some(),
            None => false,
        };
        if known {
            self.send_error(c, 20, "already authenticated", 0);
        } else {
            let outcome = self.authenticate(credentials);
            let ghost asked = self@;
            self.identify(c, outcome);
            assert forall|h: Seq<Exchange>| #[trigger] extends(
                self@.history,
                h,
            ) implies self@ == old(self)@.authenticated(c, credentials@, now, h) by {
                extends_transitive(asked.history, self@.history, h);
                extends_transitive(s.history, asked.history, h);
                assert(asked.history[s.history.len() as int] == h[s.history.len() as int]);
            }
        }
        assert forall|h: Seq<Exchange>| #[trigger] extends(
            self@.history,
            h,
        ) implies self@ == old(self)@.authenticated(c, credentials@, now, h) by {
            extends_transitive(s.history, self@.history, h);
        }
    }

    /// Confirms an attachment.
    fn confirm_attach(&mut self, c: ConnectionId, world: WorldId)
        requires
            old(self).wf(),
        ensures
            final(self).wf(),
            final(self).judged_as(*old(self)),
            goes_on(old(self)@.history, final(self)@.history),
            forall|h: Seq<Exchange>| #[trigger]
                extends(final(self)@.history, h) ==> final(self)@ == old(self)@.attach_confirmed(
                    c,
                    world,
                    h,
                ),
    {
        proof {
            reveal(GatewayView::attach_confirmed);
        }
        self.reply(
            c,
            &ServerMessage::AttachResult { ok: true, world: Some(world), error: None },
        );
    }

    /// Refuses an attachment.
    fn refuse_attach(&mut self, c: ConnectionId, reason: String)
        requires
            old(self).wf(),
        ensures
            final(self).wf(),
            final(self).judged_as(*old(self)),
            goes_on(old(self)@.history, final(self)@.history),
            forall|h: Seq<Exchange>| #[trigger]
                extends(final(self)@.history, h) ==> final(self)@ == old(self)@.attach_refused(
                    c,
                    reason@,
                    h,
                ),
    {
        proof {
            reveal(GatewayView::attach_refused);
        }
        self.reply(
            c,
            &ServerMessage::AttachResult { ok: false, world: None, error: Some(reason) },
        );
    }

    /// Handles an attachment request.
    #[verifier::spinoff_prover]
    #[verifier::rlimit(40)]
    fn handle_attach(&mut self, c: ConnectionId, world: WorldId)
        requires
            old(self).wf(),
            old(self)@.connections.contains_key(c.0),
        ensures
            final(self).wf(),
            final(self).judged_as(*old(self)),
            goes_on(old(self)@.history, final(self)@.history),
            forall|h: Seq<Exchange>| #[trigger]
                extends(final(self)@.history, h) ==> final(self)@ == old(self)@.attached(
                    c,
                    world,
                    h,
                ),
    {
        proof {
            reveal(GatewayView::attached);
        }
        let principal = match self.session_of(c) {
            None => {
                self.send_error(c, 20, "authentication required", 0);
                return;
            },
            Some(session) => {
                if let Some(current) = session.attached_world() {
                    if current == world {
                        self.confirm_attach(c, world);
                    } else {
                        self.send_error(
                            c,
                            21,
                            "session is already attached to a different world",
                            0,
                        );
                    }
                    return;
                }
                session.principal().clone()
            },
        };
        if self.runtime.world_status(world).is_err() {
            let digits = number(world.as_u64());
            let reason = join("unknown world ", digits.as_str());
            self.refuse_attach(c, reason);
            return;
        }
        let allowed = self.policy.authorize_attach(&principal, world);
        self.record(
            Ghost(
                Exchange::Authorized {
                    principal: principal@,
                    operation: Operation::Attach { world },
                    allowed,
                },
            ),
        );
        let ghost asked = self@;
        let ghost n = old(self)@.history.len() as int;
        if !allowed {
            self.counters.policy_rejections = count(self.counters.policy_rejections);
            self.refuse_attach(c, "not authorized to attach to this world".to_owned());
        } else {
            if let Some(mut entry) = self.connections.remove(c.as_u64()) {
                if let Some(mut session) = entry.session {
                    session.attach(world);
                    entry.session = Some(session);
                }
                self.connections.insert(c.as_u64(), entry);
            }
            proof {
                attaching_keeps_valid(asked, c, world);
            }
            self.push_event(NetworkEvent::Attached { connection: c, world });
            self.confirm_attach(c, world);
        }
        assert forall|h: Seq<Exchange>| #[trigger] extends(
            self@.history,
            h,
        ) implies self@ == old(self)@.attached(c, world, h) by {
            extends_transitive(asked.history, self@.history, h);
            assert(asked.history[n] == h[n]);
        }
    }

    /// Answers and counts a rejected input.
    fn refuse_input(&mut self, c: ConnectionId, code: u16, reason: &str)
        requires
            old(self).wf(),
        ensures
            final(self).wf(),
            final(self).judged_as(*old(self)),
            goes_on(old(self)@.history, final(self)@.history),
            forall|h: Seq<Exchange>| #[trigger]
                extends(final(self)@.history, h) ==> final(self)@ == old(self)@.input_refused(
                    c,
                    code,
                    reason@,
                    h,
                ),
    {
        proof {
            reveal(GatewayView::input_refused);
        }
        self.send_error(c, code, reason, 0);
        self.counters.inputs_rejected = count(self.counters.inputs_rejected);
    }

    /// Routes one input frame to the session's attached world. Every
    /// command's source is stamped with the authenticated principal id.
    fn handle_input(&mut self, c: ConnectionId, frame: &InputFrame)
        requires
            old(self).wf(),
            old(self)@.connections.contains_key(c.0),
        ensures
            final(self).wf(),
            final(self).judged_as(*old(self)),
            goes_on(old(self)@.history, final(self)@.history),
            forall|h: Seq<Exchange>| #[trigger]
                extends(final(self)@.history, h) ==> final(self)@ == old(self)@.input_handled(
                    c,
                    frame@,
                    h,
                ),
    {
        proof {
            reveal(GatewayView::input_handled);
        }
        let (principal, attached) = match self.session_of(c) {
            None => {
                self.refuse_input(c, 20, "authentication required");
                return;
            },
            Some(session) => (session.principal().clone(), session.attached_world()),
        };
        let world = match attached {
            None => {
                self.refuse_input(c, 21, "attach to a world before submitting input");
                return;
            },
            Some(world) => world,
        };
        if frame.commands.len() > self.config.max_commands_per_frame() {
            self.refuse_input(c, 17, "too many commands in frame");
            return;
        }
        let frame_stamped = stamp_frame(frame, principal.id());
        let allowed = self.policy.authorize_input(&principal, world, &frame_stamped);
        self.record(
            Ghost(
                Exchange::Authorized {
                    principal: principal@,
                    operation: Operation::Input { world, frame: frame_stamped@ },
                    allowed,
                },
            ),
        );
        let ghost asked = self@;
        let ghost n = old(self)@.history.len() as int;
        if !allowed {
            self.counters.policy_rejections = count(self.counters.policy_rejections);
            self.refuse_input(c, 18, "not authorized by game policy");
        } else {
            match self.runtime.submit_input(world, frame_stamped) {
                Ok(_) => {
                    self.counters.inputs_accepted = count(self.counters.inputs_accepted);
                },
                Err(error) => {
                    let text = error.to_text();
                    self.refuse_input(c, runtime_error_code(&error), text.as_str());
                },
            }
        }
        assert forall|h: Seq<Exchange>| #[trigger] extends(
            self@.history,
            h,
        ) implies self@ == old(self)@.input_handled(c, frame@, h) by {
            extends_transitive(asked.history, self@.history, h);
            assert(asked.history[n] == h[n]);
        }
    }

    /// Sends subscription messages in order and counts those taken.
    pub(crate) fn send_updates(&mut self, c: ConnectionId, messages: &Vec<ServerMessage>)
        requires
            old(self).wf(),
            forall|i: int| 0 <= i < messages@.len() ==> server_encodable(#[trigger] messages@[i]@),
        ensures
            final(self).wf(),
            final(self).judged_as(*old(self)),
            goes_on(old(self)@.history, final(self)@.history),
            forall|h: Seq<Exchange>| #[trigger]
                extends(final(self)@.history, h) ==> final(self)@ == old(self)@.updates_sent(
                    c,
                    views(messages@),
                    h,
                ),
    {
        proof {
        }
        let ghost all = views(messages@);
        let mut i: usize = 0;
        assert(all.take(0) =~= Seq::empty());
        while i < messages.len()
            invariant
                i <= messages@.len(),
                all == views(messages@),
                self.wf(),
                self.judged_as(*old(self)),
                forall|i: int|
                    0 <= i < messages@.len() ==> server_encodable(#[trigger] messages@[i]@),
                goes_on(old(self)@.history, self@.history),
                forall|h: Seq<Exchange>| #[trigger]
                    extends(self@.history, h) ==> self@ == old(self)@.updates_sent(
                        c,
                        all.take(i as int),
                        h,
                    ),
            decreases messages@.len() - i,
        {
            let ghost before = self@;
            assert(all.take(i + 1).drop_last() =~= all.take(i as int));
            assert(server_encodable(messages@[i as int]@));
            let taken = self.send(c, &messages[i]);
            let ghost sent = self@;
            if let Ok(true) = taken {
                self.counters.subscription_messages_sent = count(
                    self.counters.subscription_messages_sent,
                );
            }
            assert forall|h: Seq<Exchange>| #[trigger] extends(
                self@.history,
                h,
            ) implies self@ == old(self)@.updates_sent(c, all.take(i + 1), h) by {
                extends_transitive(before.history, self@.history, h);
                assert(extends(sent.history, h));
            }
            proof {
                extends_transitive(old(self)@.history, before.history, self@.history);
            }
            i = i + 1;
        }
        assert(all.take(all.len() as int) =~= all);
    }

    /// Drains one subscription and tells its updates. The initial snapshot
    /// carries the request id.
    pub(crate) fn pump_subscription<R: SubscriptionHost>(
        &mut self,
        host: &mut R,
        c: ConnectionId,
        world: WorldId,
        subscription: SubscriptionId,
        request_id: u64,
    )
        requires
            old(self).wf(),
        ensures
            final(self).wf(),
            final(self).judged_as(*old(self)),
            extends(old(self)@.history, final(self)@.history),
            in_touch(
                old(host).exchanges(),
                host_part(old(self)@.history),
                final(host).exchanges(),
                host_part(final(self)@.history),
            ),
            forall|h: Seq<Exchange>| #[trigger]
                extends(final(self)@.history, h) ==> final(self)@ == old(self)@.pumped(
                    c,
                    world,
                    subscription,
                    request_id,
                    h,
                ),
    {
        proof {
            reveal(GatewayView::pumped);
        }
        if self.runtime.check_world(world).is_err() {
            return;
        }
        let ghost log = host.exchanges();
        let ghost part = host_part(self@.history);
        let answer = host.drain(world, subscription);
        let ghost n = self@.history.len() as int;
        let ghost answered = drained_view(answer);
        self.record(Ghost(Exchange::Drained { world, subscription, answer: answered }));
        assert(in_touch(
            log,
            part,
            host.exchanges(),
            host_part(self@.history),
        ));
        let ghost asked = self@;
        if let Ok(updates) = answer {
            let messages = messages_of_updates(subscription, request_id, &updates);
            self.send_updates(c, &messages);
        }
        assert forall|h: Seq<Exchange>| #[trigger] extends(
            self@.history,
            h,
        ) implies self@ == old(self)@.pumped(c, world, subscription, request_id, h) by {
            extends_transitive(asked.history, self@.history, h);
            assert(asked.history[n] == h[n]);
        }
    }

    /// Answers a failed subscription or resync.
    fn fail_subscribe(&mut self, c: ConnectionId, error: &RuntimeError, request_id: u64)
        requires
            old(self).wf(),
        ensures
            final(self).wf(),
            final(self).judged_as(*old(self)),
            goes_on(old(self)@.history, final(self)@.history),
            forall|h: Seq<Exchange>| #[trigger]
                extends(final(self)@.history, h) ==> final(self)@ == old(self)@.subscribe_failed(
                    c,
                    error@,
                    request_id,
                    h,
                ),
    {
        proof {
            reveal(GatewayView::subscribe_failed);
        }
        let text = error.to_text();
        self.send_error(c, runtime_error_code(error), text.as_str(), request_id);
    }

    /// Establishes a subscription on the session's attached world. The
    /// initial snapshot, and any rejection, carry the client's request id.
    fn handle_subscribe<R: SubscriptionHost>(
        &mut self,
        host: &mut R,
        c: ConnectionId,
        request_id: u64,
        query: &Query,
        now: u64,
    )
        requires
            old(self).wf(),
            old(self)@.connections.contains_key(c.0),
        ensures
            final(self).wf(),
            final(self).judged_as(*old(self)),
            extends(old(self)@.history, final(self)@.history),
            in_touch(
                old(host).exchanges(),
                host_part(old(self)@.history),
                final(host).exchanges(),
                host_part(final(self)@.history),
            ),
            forall|h: Seq<Exchange>| #[trigger]
                extends(final(self)@.history, h) ==> final(self)@ == old(self)@.subscribe_handled(
                    c,
                    request_id,
                    query@,
                    now,
                    h,
                ),
    {
        proof {
            reveal(GatewayView::subscribe_handled);
        }
        if !self.check_rate(c, RateBucket::Subscribe, request_id, now) {
            return;
        }
        let ghost s = self@;
        self.subscribe_admitted(host, c, request_id, query);
        assert forall|h: Seq<Exchange>| #[trigger] extends(
            self@.history,
            h,
        ) implies self@ == old(self)@.subscribe_handled(c, request_id, query@, now, h) by {
            extends_transitive(s.history, self@.history, h);
        }
        proof {
            extends_transitive(old(self)@.history, s.history, self@.history);
        }
    }

    /// Establishes a subscription once the rate limit has been passed.
    #[verifier::spinoff_prover]
    #[verifier::rlimit(40)]
    fn subscribe_admitted<R: SubscriptionHost>(
        &mut self,
        host: &mut R,
        c: ConnectionId,
        request_id: u64,
        query: &Query,
    )
        requires
            old(self).wf(),
            old(self)@.connections.contains_key(c.0),
        ensures
            final(self).wf(),
            final(self).judged_as(*old(self)),
            extends(old(self)@.history, final(self)@.history),
            in_touch(
                old(host).exchanges(),
                host_part(old(self)@.history),
                final(host).exchanges(),
                host_part(final(self)@.history),
            ),
            forall|h: Seq<Exchange>| #[trigger]
                extends(final(self)@.history, h) ==> final(self)@ == old(
                    self,
                )@.subscribe_admitted(c, request_id, query@, h),
    {
        proof {
            reveal(GatewayView::subscribe_admitted);
        }
        let attached = match self.session_of(c) {
            None => {
                self.send_error(c, 20, "authentication required", request_id);
                return;
            },
            Some(session) => session.attached_world(),
        };
        let world = match attached {
            None => {
                self.send_error(c, 21, "attach to a world before subscribing", request_id);
                return;
            },
            Some(world) => world,
        };
        let used: usize = match self.connections.get(c.as_u64()) {
            Some(entry) => entry.subscriptions.len(),
            None => 0,
        };
        if used >= self.config.max_subscriptions_per_session() {
            self.send_error(c, 17, "subscription limit reached", request_id);
            return;
        }
        if let Err(error) = self.runtime.check_world(world) {
            self.fail_subscribe(c, &error, request_id);
            return;
        }
        let ghost log = host.exchanges();
        let ghost part = host_part(self@.history);
        let answer = host.subscribe(world, query);
        let ghost n = self@.history.len() as int;
        let ghost said = answer_view(answer);
        self.record(Ghost(Exchange::Subscribed { world, query: query@, answer: said }));
        assert(in_touch(
            log,
            part,
            host.exchanges(),
            host_part(self@.history),
        ));
        let outcome = self.runtime.subscribe(world, answer);
        let ghost asked = self@;
        match outcome {
            Err(error) => {
                self.fail_subscribe(c, &error, request_id);
            },
            Ok(subscription) => {
                if let Some(mut entry) = self.connections.remove(c.as_u64()) {
                    entry.subscriptions.insert(subscription.as_u64(), world);
                    self.connections.insert(c.as_u64(), entry);
                }
                proof {
                    reveal(connections_valid);
                    let subscriptions = asked.connections[c.0].subscriptions.insert(
                        subscription.0,
                        world,
                    );
                    assert(subscriptions.dom() =~= asked.connections[c.0].subscriptions.dom().insert(
                        subscription.0,
                    ));
                    resubscribing_keeps_valid(asked, c, subscriptions);
                }
                self.pump_subscription(host, c, world, subscription, request_id);
            },
        }
        assert forall|h: Seq<Exchange>| #[trigger] extends(
            self@.history,
            h,
        ) implies self@ == old(self)@.subscribe_admitted(c, request_id, query@, h) by {
            extends_transitive(asked.history, self@.history, h);
            assert(asked.history[n] == h[n]);
        }
    }

    /// Ends a subscription of the connection.
    fn handle_unsubscribe(&mut self, c: ConnectionId, subscription: SubscriptionId)
        requires
            old(self).wf(),
            old(self)@.connections.contains_key(c.0),
        ensures
            final(self).wf(),
            final(self).judged_as(*old(self)),
            goes_on(old(self)@.history, final(self)@.history),
            forall|h: Seq<Exchange>| #[trigger]
                extends(final(self)@.history, h) ==> final(self)@ == old(
                    self,
                )@.unsubscribe_handled(c, subscription, h),
    {
        proof {
            reveal(GatewayView::unsubscribe_handled);
        }
        let found = match self.connections.get(c.as_u64()) {
            Some(entry) => match entry.subscriptions.get(subscription.as_u64()) {
                Some(world) => Some(*world),
                None => None,
            },
            None => None,
        };
        match found {
            None => {
                self.send_error(c, 22, "unknown subscription", 0);
            },
            Some(world) => {
                if let Some(mut entry) = self.connections.remove(c.as_u64()) {
                    entry.subscriptions.remove(subscription.as_u64());
                    self.connections.insert(c.as_u64(), entry);
                }
                self.ended.push((world, subscription));
                proof {
                    reveal(connections_valid);
                    resubscribing_keeps_valid(
                        old(self)@,
                        c,
                        old(self)@.connections[c.0].subscriptions.remove(subscription.0),
                    );
                }
            },
        }
    }

    /// Regenerates a subscription's exact view and clears the session's stale
    /// state.
    fn handle_resync<R: SubscriptionHost>(
        &mut self,
        host: &mut R,
        c: ConnectionId,
        subscription: SubscriptionId,
        now: u64,
    )
        requires
            old(self).wf(),
            old(self)@.connections.contains_key(c.0),
        ensures
            final(self).wf(),
            final(self).judged_as(*old(self)),
            extends(old(self)@.history, final(self)@.history),
            in_touch(
                old(host).exchanges(),
                host_part(old(self)@.history),
                final(host).exchanges(),
                host_part(final(self)@.history),
            ),
            forall|h: Seq<Exchange>| #[trigger]
                extends(final(self)@.history, h) ==> final(self)@ == old(self)@.resync_handled(
                    c,
                    subscription,
                    now,
                    h,
                ),
    {
        proof {
            reveal(GatewayView::resync_handled);
        }
        if !self.check_rate(c, RateBucket::Resync, 0, now) {
            return;
        }
        let ghost s = self@;
        self.resync_admitted(host, c, subscription);
        assert forall|h: Seq<Exchange>| #[trigger] extends(
            self@.history,
            h,
        ) implies self@ == old(self)@.resync_handled(c, subscription, now, h) by {
            extends_transitive(s.history, self@.history, h);
        }
        proof {
            extends_transitive(old(self)@.history, s.history, self@.history);
        }
    }

    /// Regenerates a view once the rate limit has been passed.
    #[verifier::spinoff_prover]
    #[verifier::rlimit(40)]
    fn resync_admitted<R: SubscriptionHost>(
        &mut self,
        host: &mut R,
        c: ConnectionId,
        subscription: SubscriptionId,
    )
        requires
            old(self).wf(),
            old(self)@.connections.contains_key(c.0),
        ensures
            final(self).wf(),
            final(self).judged_as(*old(self)),
            extends(old(self)@.history, final(self)@.history),
            in_touch(
                old(host).exchanges(),
                host_part(old(self)@.history),
                final(host).exchanges(),
                host_part(final(self)@.history),
            ),
            forall|h: Seq<Exchange>| #[trigger]
                extends(final(self)@.history, h) ==> final(self)@ == old(self)@.resync_admitted(
                    c,
                    subscription,
                    h,
                ),
    {
        proof {
            reveal(GatewayView::resync_admitted);
        }
        let found = match self.connections.get(c.as_u64()) {
            Some(entry) => match entry.subscriptions.get(subscription.as_u64()) {
                Some(world) => Some(*world),
                None => None,
            },
            None => None,
        };
        let world = match found {
            None => {
                self.send_error(c, 22, "unknown subscription", 0);
                return;
            },
            Some(world) => world,
        };
        if let Some(mut entry) = self.connections.remove(c.as_u64()) {
            entry.stale = false;
            entry.pending_stale = VecDeque::new();
            self.connections.insert(c.as_u64(), entry);
        }
        proof {
            rescheduling_keeps_valid(
                old(self)@,
                c,
                ConnectionView {
                    stale: false,
                    pending_stale: Seq::empty(),
                    ..old(self)@.connections[c.0]
                },
            );
        }
        if let Err(error) = self.runtime.check_world(world) {
            self.fail_subscribe(c, &error, 0);
            return;
        }
        let ghost log = host.exchanges();
        let ghost part = host_part(self@.history);
        let answer = host.resync(world, subscription);
        let ghost n = self@.history.len() as int;
        let ghost said = answer_view(answer);
        self.record(Ghost(Exchange::Resynced { world, subscription, answer: said }));
        assert(in_touch(
            log,
            part,
            host.exchanges(),
            host_part(self@.history),
        ));
        let ghost asked = self@;
        match self.runtime.resync(world, answer) {
            Err(error) => {
                self.fail_subscribe(c, &error, 0);
            },
            Ok(_) => {
                self.pump_subscription(host, c, world, subscription, 0);
            },
        }
        assert forall|h: Seq<Exchange>| #[trigger] extends(
            self@.history,
            h,
        ) implies self@ == old(self)@.resync_admitted(c, subscription, h) by {
            extends_transitive(asked.history, self@.history, h);
            assert(asked.history[n] == h[n]);
        }
    }

    /// Answers calls of a connection, in order, whose results it will not get.
    fn fail_calls(&mut self, c: ConnectionId, ids: &Vec<u64>, reason: &str)
        requires
            old(self).wf(),
        ensures
            final(self).wf(),
            final(self).judged_as(*old(self)),
            goes_on(old(self)@.history, final(self)@.history),
            forall|h: Seq<Exchange>| #[trigger]
                extends(final(self)@.history, h) ==> final(self)@ == old(self)@.calls_failed(
                    c,
                    ids@,
                    reason@,
                    h,
                ),
    {
        let mut i: usize = 0;
        assert(ids@.take(0) =~= Seq::empty());
        while i < ids.len()
            invariant
                i <= ids@.len(),
                self.wf(),
                self.judged_as(*old(self)),
                goes_on(old(self)@.history, self@.history),
                forall|h: Seq<Exchange>| #[trigger]
                    extends(self@.history, h) ==> self@ == old(self)@.calls_failed(
                        c,
                        ids@.take(i as int),
                        reason@,
                        h,
                    ),
            decreases ids@.len() - i,
        {
            let ghost before = self@;
            assert(ids@.take(i + 1).drop_last() =~= ids@.take(i as int));
            let failure = ServerMessage::ReducerResult {
                request_id: ids[i],
                ok: false,
                value: None,
                error: Some(reason.to_owned()),
            };
            let taken = self.send(c, &failure);
            let ghost sent = self@;
            if let Ok(true) = taken {
                self.counters.reducer_results_sent = count(self.counters.reducer_results_sent);
            }
            assert forall|h: Seq<Exchange>| #[trigger] extends(
                self@.history,
                h,
            ) implies self@ == old(self)@.calls_failed(c, ids@.take(i + 1), reason@, h) by {
                extends_transitive(before.history, self@.history, h);
                assert(extends(sent.history, h));
            }
            proof {
                extends_transitive(old(self)@.history, before.history, self@.history);
            }
            i = i + 1;
        }
        assert(ids@.take(ids@.len() as int) =~= ids@);
    }

    /// Ends the session's attachment with its subscriptions and pending
    /// calls. Each of those calls is answered with a failure.
    fn handle_detach(&mut self, c: ConnectionId)
        requires
            old(self).wf(),
            old(self)@.connections.contains_key(c.0),
        ensures
            final(self).wf(),
            final(self).judged_as(*old(self)),
            goes_on(old(self)@.history, final(self)@.history),
            forall|h: Seq<Exchange>| #[trigger]
                extends(final(self)@.history, h) ==> final(self)@ == old(self)@.detached(c, h),
    {
        proof {
            reveal(GatewayView::detached);
        }
        match self.session_of(c) {
            None => {
                self.send_error(c, 20, "authentication required", 0);
                return;
            },
            Some(session) => {
                if session.attached_world().is_none() {
                    self.send_error(c, 21, "session is not attached to a world", 0);
                    return;
                }
            },
        }
        let mut waiting: Vec<u64> = Vec::new();
        if let Some(mut entry) = self.connections.remove(c.as_u64()) {
            waiting = entry.pending_ids.members();
            self.end_subscriptions(&entry.subscriptions);
            self.forget_calls(c);
            if let Some(mut session) = entry.session {
                session.detach();
                entry.session = Some(session);
            }
            entry.subscriptions = Table::new();
            entry.pending_ids = IdSet::new();
            self.connections.insert(c.as_u64(), entry);
        }
        proof {
            detaching_keeps_valid(old(self)@, c);
        }
        assert(self@ == old(self)@.released(c));
        self.push_event(NetworkEvent::Detached { connection: c });
        self.fail_calls(
            c,
            &waiting,
            "detached from the world before the call was answered",
        );
        let ghost failed = self@;
        self.reply(c, &ServerMessage::DetachResult { ok: true, error: None });
        assert forall|h: Seq<Exchange>| #[trigger] extends(
            self@.history,
            h,
        ) implies self@ == old(self)@.detached(c, h) by {
            extends_transitive(failed.history, self@.history, h);
        }
        proof {
            extends_transitive(old(self)@.history, failed.history, self@.history);
        }
    }

    /// Answers and counts a rejected reducer call.
    fn refuse_call(&mut self, c: ConnectionId, request_id: u64, reason: &str)
        requires
            old(self).wf(),
        ensures
            final(self).wf(),
            final(self).judged_as(*old(self)),
            goes_on(old(self)@.history, final(self)@.history),
            forall|h: Seq<Exchange>| #[trigger]
                extends(final(self)@.history, h) ==> final(self)@ == old(self)@.call_refused(
                    c,
                    request_id,
                    reason@,
                    h,
                ),
    {
        proof {
            reveal(GatewayView::call_refused);
        }
        self.reply(
            c,
            &ServerMessage::ReducerResult {
                request_id,
                ok: false,
                value: None,
                error: Some(reason.to_owned()),
            },
        );
        self.counters.reducer_calls_rejected = count(self.counters.reducer_calls_rejected);
    }

    /// Why a reducer call is refused before the policy is asked, if it is.
    fn call_refusal(
        &self,
        c: ConnectionId,
        request_id: u64,
        reducer: &str,
        args: &ReducerArgs,
    ) -> (reason: Option<&'static str>)
        requires
            self.wf(),
            self@.connections.contains_key(c.0),
        ensures
            match reason {
                Some(text) => self@.call_refusal(c, request_id, reducer@, args@) == Some(text@),
                None => self@.call_refusal(c, request_id, reducer@, args@) is None,
            },
    {
        if request_id >= SERVER_REQUEST_MSB {
            return Some("request id reserved for server use");
        }
        match self.session_of(c) {
            None => {
                return Some("authentication required");
            },
            Some(session) => {
                if session.attached_world().is_none() {
                    return Some("attach to a world before calling a reducer");
                }
            },
        }
        if reducer.as_bytes().len() > self.config.max_reducer_name_len() {
            return Some("reducer name too long");
        }
        if args.len() > self.config.max_reducer_args() {
            return Some("too many reducer arguments");
        }
        if let Some(entry) = self.connections.get(c.as_u64()) {
            if entry.pending_ids.len() >= self.config.max_pending_calls_per_connection() {
                return Some("too many pending reducer calls");
            }
            if entry.pending_ids.contains(request_id) {
                return Some("request id already pending");
            }
        }
        if self.next_gateway_request == u64::MAX {
            return Some("request ids exhausted");
        }
        None
    }

    /// Queues an authorized reducer call.
    #[verifier::spinoff_prover]
    #[verifier::rlimit(40)]
    fn queue_call(
        &mut self,
        c: ConnectionId,
        request_id: u64,
        reducer: &str,
        args: ReducerArgs,
        principal: &Principal,
        world: WorldId,
    )
        requires
            old(self).wf(),
            old(self)@.connections.contains_key(c.0),
            old(self)@.call_refusal(c, request_id, reducer@, args@) is None,
            old(self)@.connections[c.0].session matches Some(s) && s.principal == principal@,
            old(self)@.connections[c.0].world() == Some(world),
        ensures
            final(self).wf(),
            final(self).judged_as(*old(self)),
            goes_on(old(self)@.history, final(self)@.history),
            forall|h: Seq<Exchange>| #[trigger]
                extends(final(self)@.history, h) ==> final(self)@ == old(self)@.call_queued(
                    c,
                    request_id,
                    reducer@,
                    args@,
                    h,
                ),
    {
        proof {
            reveal(GatewayView::call_queued);
        }
        let call_args = args.insert(CALLER_SOURCE_ARG, Value::U64(principal.id()));
        let gateway_id: u64 = self.next_gateway_request;
        match self.runtime.submit_reducer_call(world, gateway_id, reducer, call_args) {
            Ok(_) => {
                proof {
                    noting_a_call_keeps_valid(self@, c, request_id);
                }
                let ghost submitted = self@;
                self.next_gateway_request = gateway_id + 1;
                self.pending.insert(
                    gateway_id,
                    PendingCall { world, connection: c, client_request_id: request_id },
                );
                if let Some(mut entry) = self.connections.remove(c.as_u64()) {
                    entry.pending_ids.insert(request_id);
                    self.connections.insert(c.as_u64(), entry);
                }
                assert(self@ == submitted.call_noted(c, request_id));
                self.counters.reducer_calls_accepted = count(self.counters.reducer_calls_accepted);
            },
            Err(error) => {
                self.next_gateway_request = gateway_id + 1;
                proof {
                    reveal(calls_valid);
                }
                let text = error.to_text();
                self.refuse_call(c, request_id, text.as_str());
            },
        }
    }

    /// Routes a reducer call to the session's attached world.
    fn handle_call_reducer(
        &mut self,
        c: ConnectionId,
        request_id: u64,
        reducer: &str,
        args: ReducerArgs,
        now: u64,
    )
        requires
            old(self).wf(),
            old(self)@.connections.contains_key(c.0),
        ensures
            final(self).wf(),
            final(self).judged_as(*old(self)),
            goes_on(old(self)@.history, final(self)@.history),
            forall|h: Seq<Exchange>| #[trigger]
                extends(final(self)@.history, h) ==> final(self)@ == old(self)@.call_handled(
                    c,
                    request_id,
                    reducer@,
                    args@,
                    now,
                    h,
                ),
    {
        proof {
            reveal(GatewayView::call_handled);
        }
        if !self.take_rate(c, RateBucket::Reducer, now) {
            self.refuse_call(c, request_id, "rate limit exceeded");
            return;
        }
        let ghost s = self@;
        self.call_admitted(c, request_id, reducer, args);
        assert forall|h: Seq<Exchange>| #[trigger] extends(
            self@.history,
            h,
        ) implies self@ == old(self)@.call_handled(c, request_id, reducer@, args@, now, h) by {
            extends_transitive(s.history, self@.history, h);
        }
        proof {
            extends_transitive(old(self)@.history, s.history, self@.history);
        }
    }

    /// Routes a reducer call once the rate limit has been passed.
    #[verifier::spinoff_prover]
    #[verifier::rlimit(40)]
    fn call_admitted(
        &mut self,
        c: ConnectionId,
        request_id: u64,
        reducer: &str,
        args: ReducerArgs,
    )
        requires
            old(self).wf(),
            old(self)@.connections.contains_key(c.0),
        ensures
            final(self).wf(),
            final(self).judged_as(*old(self)),
            goes_on(old(self)@.history, final(self)@.history),
            forall|h: Seq<Exchange>| #[trigger]
                extends(final(self)@.history, h) ==> final(self)@ == old(self)@.call_admitted(
                    c,
                    request_id,
                    reducer@,
                    args@,
                    h,
                ),
    {
        proof {
            reveal(GatewayView::call_admitted);
        }
        if let Some(reason) = self.call_refusal(c, request_id, reducer, &args) {
            self.refuse_call(c, request_id, reason);
            return;
        }
        let (principal, attached) = match self.session_of(c) {
            Some(session) => (session.principal().clone(), session.attached_world()),
            None => {
                return;
            },
        };
        let world = match attached {
            Some(world) => world,
            None => {
                return;
            },
        };
        let allowed = self.policy.authorize_reducer(&principal, world, reducer);
        self.record(
            Ghost(
                Exchange::Authorized {
                    principal: principal@,
                    operation: Operation::Call { world, reducer: reducer@ },
                    allowed,
                },
            ),
        );
        let ghost asked = self@;
        let ghost n = old(self)@.history.len() as int;
        if !allowed {
            self.counters.policy_rejections = count(self.counters.policy_rejections);
            self.refuse_call(c, request_id, "not authorized by game policy");
        } else {
            self.queue_call(c, request_id, reducer, args, &principal, world);
        }
        assert forall|h: Seq<Exchange>| #[trigger] extends(
            self@.history,
            h,
        ) implies self@ == old(self)@.call_admitted(c, request_id, reducer@, args@, h) by {
            extends_transitive(asked.history, self@.history, h);
            assert(asked.history[n] == h[n]);
        }
    }

    /// Dispatches one decoded client message.
    #[verifier::spinoff_prover]
    #[verifier::rlimit(40)]
    pub(crate) fn dispatch<R: SubscriptionHost>(
        &mut self,
        host: &mut R,
        c: ConnectionId,
        message: ClientMessage,
        now: u64,
    )
        requires
            old(self).wf(),
            old(self)@.connections.contains_key(c.0),
        ensures
            final(self).wf(),
            final(self).judged_as(*old(self)),
            extends(old(self)@.history, final(self)@.history),
            in_touch(
                old(host).exchanges(),
                host_part(old(self)@.history),
                final(host).exchanges(),
                host_part(final(self)@.history),
            ),
            forall|h: Seq<Exchange>| #[trigger]
                extends(final(self)@.history, h) ==> final(self)@ == old(self)@.dispatched(
                    c,
                    message@,
                    now,
                    h,
                ),
    {
        proof {
            reveal(GatewayView::dispatched);
        }
        match message {
            ClientMessage::Handshake { version, name: _ } => {
                self.handle_handshake(c, version);
            },
            ClientMessage::Authenticate { credentials } => {
                self.handle_authenticate(c, credentials.as_str(), now);
            },
            ClientMessage::AttachWorld { world } => {
                self.handle_attach(c, world);
            },
            ClientMessage::InputFrame { frame } => {
                if self.check_rate(c, RateBucket::Input, 0, now) {
                    let ghost s = self@;
                    self.handle_input(c, &frame);
                    assert forall|h: Seq<Exchange>| #[trigger] extends(
                        self@.history,
                        h,
                    ) implies self@ == old(self)@.dispatched(c, message@, now, h) by {
                        extends_transitive(s.history, self@.history, h);
                    }
                    proof {
                        extends_transitive(old(self)@.history, s.history, self@.history);
                    }
                }
            },
            ClientMessage::Subscribe { request_id, query } => {
                self.handle_subscribe(host, c, request_id, &query, now);
            },
            ClientMessage::Unsubscribe { subscription } => {
                self.handle_unsubscribe(c, subscription);
            },
            ClientMessage::Resync { subscription } => {
                self.handle_resync(host, c, subscription, now);
            },
            ClientMessage::DetachWorld => {
                self.handle_detach(c);
            },
            ClientMessage::CallReducer { request_id, reducer, args } => {
                self.handle_call_reducer(c, request_id, reducer.as_str(), args, now);
            },
            ClientMessage::Ping { nonce } => {
                self.reply(c, &ServerMessage::Pong { nonce });
            },
        }
    }
}

/// The frame with every command stamped with one source.
fn stamp_frame(frame: &InputFrame, source: u64) -> (result: InputFrame)
    ensures
        result@ == stamped(frame@, source),
{
    let mut result = InputFrame::new(frame.tick);
    let ghost goal = stamped(frame@, source);
    let mut i: usize = 0;
    assert(result@.commands =~= goal.commands.take(0));
    while i < frame.commands.len()
        invariant
            i <= frame.commands@.len(),
            goal == stamped(frame@, source),
            result@.tick == frame@.tick,
            result@.commands == goal.commands.take(i as int),
        decreases frame.commands@.len() - i,
    {
        let command = frame.commands[i].stamped(source);
        result.push(command);
        assert(goal.commands.take(i as int).push(goal.commands[i as int]) =~= goal.commands.take(
            i + 1,
        ));
        i = i + 1;
    }
    assert(goal.commands.take(goal.commands.len() as int) =~= goal.commands);
    result
}

/// The message that tells one update.
pub fn serialize_update(
    subscription: SubscriptionId,
    request_id: u64,
    update: &SubscriptionUpdate,
) -> (message: ServerMessage)
    ensures
        message@ == update_message(subscription, request_id, update@),
        server_encodable(message@),
{
    match update {
        SubscriptionUpdate::Initial { seq, rows } => ServerMessage::SubscriptionSnapshot {
            request_id,
            subscription,
            seq: *seq,
            rows: duplicate_all(rows),
        },
        SubscriptionUpdate::Resync { seq, rows } => ServerMessage::SubscriptionSnapshot {
            request_id: 0,
            subscription,
            seq: *seq,
            rows: duplicate_all(rows),
        },
        SubscriptionUpdate::Insert { seq, row } => ServerMessage::SubscriptionDelta {
            subscription,
            seq: *seq,
            kind: DeltaKind::Insert,
            row_id: row.row_id,
            row: Some(row.duplicate()),
        },
        SubscriptionUpdate::Update { seq, row } => ServerMessage::SubscriptionDelta {
            subscription,
            seq: *seq,
            kind: DeltaKind::Update,
            row_id: row.row_id,
            row: Some(row.duplicate()),
        },
        SubscriptionUpdate::Delete { seq, row_id } => ServerMessage::SubscriptionDelta {
            subscription,
            seq: *seq,
            kind: DeltaKind::Delete,
            row_id: *row_id,
            row: None,
        },
        SubscriptionUpdate::Stale { seq } => ServerMessage::StaleNotification {
            subscription,
            seq: *seq,
        },
    }
}

/// The delta an update amounts to, if it changes one row.
fn delta_entry(update: &SubscriptionUpdate) -> (entry: Option<SubscriptionDeltaEntry>)
    ensures
        match entry {
            Some(entry) => update_delta(update@) == Some(entry@)
                && <SubscriptionDeltaEntry as Wire>::encodable(entry@),
            None => update_delta(update@) is None,
        },
{
    match update {
        SubscriptionUpdate::Insert { seq, row } => Some(
            SubscriptionDeltaEntry {
                seq: *seq,
                kind: DeltaKind::Insert,
                row_id: row.row_id,
                row: Some(row.duplicate()),
            },
        ),
        SubscriptionUpdate::Update { seq, row } => Some(
            SubscriptionDeltaEntry {
                seq: *seq,
                kind: DeltaKind::Update,
                row_id: row.row_id,
                row: Some(row.duplicate()),
            },
        ),
        SubscriptionUpdate::Delete { seq, row_id } => Some(
            SubscriptionDeltaEntry {
                seq: *seq,
                kind: DeltaKind::Delete,
                row_id: *row_id,
                row: None,
            },
        ),
        _ => None,
    }
}

/// The messages that tell several updates: one update goes alone, several
/// deltas go in one batch behind the updates that are none.
pub fn messages_of_updates(
    subscription: SubscriptionId,
    request_id: u64,
    updates: &Vec<SubscriptionUpdate>,
) -> (messages: Vec<ServerMessage>)
    ensures
        views(messages@) == update_messages(subscription, request_id, views(updates@)),
        forall|i: int| 0 <= i < messages@.len() ==> server_encodable(#[trigger] messages@[i]@),
{
    let ghost all = views(updates@);
    let alone = updates.len() <= 1;
    let mut messages: Vec<ServerMessage> = Vec::new();
    let mut deltas: Vec<SubscriptionDeltaEntry> = Vec::new();
    assert(all.take(0) =~= Seq::empty());
    assert(views(messages@) =~= Seq::empty());
    assert(views(deltas@) =~= Seq::empty());
    let mut i: usize = 0;
    while i < updates.len()
        invariant
            i <= updates@.len(),
            all == views(updates@),
            alone == (all.len() <= 1),
            forall|i: int| 0 <= i < messages@.len() ==> server_encodable(#[trigger] messages@[i]@),
            forall|i: int|
                0 <= i < deltas@.len() ==> <SubscriptionDeltaEntry as Wire>::encodable(
                    #[trigger] deltas@[i]@,
                ),
            alone ==> deltas@.len() == 0 && views(messages@) == update_messages(
                subscription,
                request_id,
                all.take(i as int),
            ),
            !alone ==> views(messages@) == whole_updates(
                subscription,
                request_id,
                all.take(i as int),
            ) && views(deltas@) == deltas_of(all.take(i as int)),
        decreases updates@.len() - i,
    {
        let ghost told = views(messages@);
        let ghost batched = views(deltas@);
        assert(all.take(i + 1).drop_last() =~= all.take(i as int));
        assert(all.take(i + 1).last() == updates@[i as int]@);
        let delta = if alone {
            None
        } else {
            delta_entry(&updates[i])
        };
        match delta {
            Some(entry) => {
                deltas.push(entry);
                assert(views(deltas@) =~= batched.push(entry@));
            },
            None => {
                let message = serialize_update(subscription, request_id, &updates[i]);
                messages.push(message);
                assert(views(messages@) =~= told.push(message@));
                if alone {
                    assert(told =~= Seq::empty());
                    assert(views(messages@) =~= update_messages(
                        subscription,
                        request_id,
                        all.take(i + 1),
                    ));
                }
            },
        }
        i = i + 1;
    }
    assert(all.take(all.len() as int) =~= all);
    if deltas.len() > 0 {
        let ghost told = views(messages@);
        let batch = ServerMessage::SubscriptionDeltaBatch { subscription, request_id, deltas };
        messages.push(batch);
        assert(views(messages@) =~= told.push(batch@));
    }
    messages
}

} // verus!
