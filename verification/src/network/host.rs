//! What the gateway asks of its host, and the record of every answer.
//!
//! The gateway is a deterministic state machine. Everything it does not
//! decide itself comes from outside: transports, the authenticator, the
//! policy, and the subscription registries. Each such exchange is recorded
//! with what was handed out and what came back, so that the state after an
//! operation is a function of the state before it and of that record. The
//! record is borne out by those it speaks of: by the transports' logs, by what
//! authenticator and policy may answer, and by the registries' log.

use vstd::prelude::*;

use crate::base::error::{Error, ErrorView};
use crate::base::ids::{ConnectionId, SubscriptionId, WorldId};
use crate::base::input::{InputFrame, InputFrameView};
use crate::base::query::{Query, QueryView};
use crate::base::subscription::{SubscriptionUpdate, SubscriptionUpdateView};
use crate::base::value::views;
use crate::network::auth::{outcome_view, Authenticator, Principal, PrincipalView};
use crate::network::error::{AuthError, AuthErrorView, TransportError};
use crate::network::policy::GamePolicy;
use crate::network::protocol::{server_frame, ServerMessageView};
use crate::network::transport::{direct_contact, Contact};
use crate::runtime::report::answer_view;

verus! {

/// The subscription registries of the worlds a gateway serves. What they
/// answer is their implementor's; every exchange goes into their log, with
/// what was asked and what was answered.
pub trait SubscriptionHost {
    /// Every exchange so far, oldest first.
    open spec fn exchanges(&self) -> Seq<Exchange> {
        Seq::empty()
    }

    /// Establishes a subscription on a world.
    fn subscribe(&mut self, world: WorldId, query: &Query) -> (answer: Result<
        SubscriptionId,
        Error,
    >)
        ensures
            final(self).exchanges() == old(self).exchanges().push(
                (Exchange::Subscribed { world, query: query@, answer: answer_view(answer) }),
            ),
    ;

    /// Regenerates a subscription's exact view.
    fn resync(&mut self, world: WorldId, subscription: SubscriptionId) -> (answer: Result<
        (),
        Error,
    >)
        ensures
            final(self).exchanges() == old(self).exchanges().push(
                (Exchange::Resynced { world, subscription, answer: answer_view(answer) }),
            ),
    ;

    /// Ends a subscription.
    fn unsubscribe(&mut self, world: WorldId, subscription: SubscriptionId) -> (answer: Result<
        (),
        Error,
    >)
        ensures
            final(self).exchanges() == old(self).exchanges().push(
                (Exchange::Unsubscribed { world, subscription, answer: answer_view(answer) }),
            ),
    ;

    /// Takes the pending updates of one subscription.
    fn drain(&mut self, world: WorldId, subscription: SubscriptionId) -> (answer: Result<
        Vec<SubscriptionUpdate>,
        Error,
    >)
        ensures
            final(self).exchanges() == old(self).exchanges().push(
                (Exchange::Drained { world, subscription, answer: drained_view(answer) }),
            ),
    ;

    /// Takes the pending updates of every subscription of a world that has
    /// any.
    fn drain_all(&mut self, world: WorldId) -> (answer: Result<Vec<PendingUpdates>, Error>)
        ensures
            final(self).exchanges() == old(self).exchanges().push(
                (Exchange::DrainedAll { world, answer: drained_all_view(answer) }),
            ),
    ;
}

/// The content of a registry's drain.
pub open spec fn drained_view(answer: Result<Vec<SubscriptionUpdate>, Error>) -> Result<
    Seq<SubscriptionUpdateView>,
    ErrorView,
> {
    match answer {
        Ok(updates) => Ok(views(updates@)),
        Err(error) => Err(error@),
    }
}

/// The content of a drain of all updates.
pub open spec fn drained_all_view(answer: Result<Vec<PendingUpdates>, Error>) -> Result<
    Seq<PendingUpdatesView>,
    ErrorView,
> {
    match answer {
        Ok(updates) => Ok(views(updates@)),
        Err(error) => Err(error@),
    }
}

/// The pending updates of one subscription.
#[derive(Debug)]
pub struct PendingUpdates {
    /// The subscription.
    pub subscription: SubscriptionId,
    /// Its updates, oldest first.
    pub updates: Vec<SubscriptionUpdate>,
}

/// The mathematical content of [`PendingUpdates`].
pub struct PendingUpdatesView {
    pub subscription: SubscriptionId,
    pub updates: Seq<SubscriptionUpdateView>,
}

impl View for PendingUpdates {
    type V = PendingUpdatesView;

    open spec fn view(&self) -> PendingUpdatesView {
        PendingUpdatesView { subscription: self.subscription, updates: views(self.updates@) }
    }
}

/// What came of offering a message to a connection.
pub enum Offer {
    /// The session is stale and the message is none that passes all the same.
    Withheld,
    /// The transport took the message.
    Taken,
    /// The message is over the frame bound.
    Oversized,
    /// The transport's queue is full.
    Full,
    /// The transport is broken.
    Broken,
}

/// A client operation the policy decides on.
pub enum Operation {
    Attach { world: WorldId },
    Input { world: WorldId, frame: InputFrameView },
    Call { world: WorldId, reducer: Seq<char> },
}

/// One exchange with the outside: what was handed out, what came back.
#[allow(inconsistent_fields)]
pub enum Exchange {
    /// A message was offered to a connection, after `flushed` of the stale
    /// notifications that were waiting went out, by some contacts with its
    /// transport.
    Offered {
        connection: ConnectionId,
        message: ServerMessageView,
        waiting: Seq<u64>,
        flushed: nat,
        offer: Offer,
        contacts: Seq<Contact>,
    },
    /// A closing connection was told the reason, if its transport took it, by
    /// some contacts with its transport.
    Farewell {
        connection: ConnectionId,
        reason: Seq<char>,
        taken: bool,
        contacts: Seq<Contact>,
    },
    /// Credentials were presented to the authenticator.
    Authenticated { credentials: Seq<char>, outcome: Result<PrincipalView, AuthErrorView> },
    /// The policy decided.
    Authorized { principal: PrincipalView, operation: Operation, allowed: bool },
    /// A registry was asked to subscribe.
    Subscribed { world: WorldId, query: QueryView, answer: Result<SubscriptionId, ErrorView> },
    /// A registry was asked to resync.
    Resynced { world: WorldId, subscription: SubscriptionId, answer: Result<(), ErrorView> },
    /// A registry was asked to end a subscription.
    Unsubscribed { world: WorldId, subscription: SubscriptionId, answer: Result<(), ErrorView> },
    /// A registry was drained of one subscription's updates.
    Drained {
        world: WorldId,
        subscription: SubscriptionId,
        answer: Result<Seq<SubscriptionUpdateView>, ErrorView>,
    },
    /// A registry was drained of all updates.
    DrainedAll { world: WorldId, answer: Result<Seq<PendingUpdatesView>, ErrorView> },
    /// A connection was asked for a frame.
    Received { connection: ConnectionId, answer: Result<Option<Seq<u8>>, TransportError> },
    /// A connection was asked to write what it buffers.
    Flushed { connection: ConnectionId, answer: Result<(), TransportError> },
}

/// The record of exchanges so far is the beginning of a longer one.
pub open spec fn extends(history: Seq<Exchange>, longer: Seq<Exchange>) -> bool {
    &&& history.len() <= longer.len()
    &&& forall|i: int|
        #![trigger history[i]]
        #![trigger longer[i]]
        0 <= i < history.len() ==> history[i] == longer[i]
}

// ------------------------------------------------- what bears the record out

/// The stale notification of a subscription.
pub open spec fn stale_notice(subscription: u64) -> ServerMessageView {
    ServerMessageView::StaleNotification { subscription: SubscriptionId(subscription), seq: 0 }
}

/// A stale notification was offered as a frame, and taken or refused.
pub open spec fn notice_offered(
    contact: Contact,
    subscription: u64,
    max_payload: u32,
    taken: bool,
) -> bool {
    match (contact, server_frame(stale_notice(subscription), max_payload)) {
        (Contact::Frame { frame, answer }, Ok(bytes)) => frame == bytes && taken == (answer is Ok),
        _ => false,
    }
}

/// The contacts by which waiting stale notifications go out: `flushed` of them
/// are taken, and the next one, if there is one, is refused or cannot be
/// framed.
pub open spec fn notices_offered(
    waiting: Seq<u64>,
    max_payload: u32,
    flushed: nat,
    contacts: Seq<Contact>,
) -> bool {
    &&& flushed <= waiting.len()
    &&& contacts.len() >= flushed
    &&& forall|i: int|
        0 <= i < flushed ==> notice_offered(#[trigger] contacts[i], waiting[i], max_payload, true)
    &&& if flushed < waiting.len() {
        if server_frame(stale_notice(waiting[flushed as int]), max_payload) is Ok {
            contacts.len() == flushed + 1 && notice_offered(
                contacts[flushed as int],
                waiting[flushed as int],
                max_payload,
                false,
            )
        } else {
            contacts.len() == flushed
        }
    } else {
        contacts.len() == flushed
    }
}

/// How a message was offered to a transport: stale notifications first, then
/// the message without encoding, then notifications again, then its frame.
pub struct Attempt {
    pub first: Seq<Contact>,
    pub early: nat,
    pub direct: Result<(), TransportError>,
    pub second: Seq<Contact>,
    pub framed: Result<(), TransportError>,
}

impl Attempt {
    /// Whether the attempt went like this.
    pub open spec fn went(
        self,
        message: ServerMessageView,
        waiting: Seq<u64>,
        max_payload: u32,
        flushed: nat,
        offer: Offer,
        contacts: Seq<Contact>,
    ) -> bool {
        let begun = self.first + direct_contact(message, max_payload, self.direct);
        &&& notices_offered(waiting, max_payload, self.early, self.first)
        &&& match self.direct {
            Ok(_) => offer is Taken && flushed == self.early && contacts == begun,
            Err(_) => match server_frame(message, max_payload) {
                Err(_) => offer is Oversized && flushed == self.early && contacts == begun,
                Ok(frame) => flushed >= self.early && notices_offered(
                    waiting.skip(self.early as int),
                    max_payload,
                    (flushed - self.early) as nat,
                    self.second,
                ) && contacts == begun + self.second.push(
                    Contact::Frame { frame, answer: self.framed },
                ) && offer == match self.framed {
                    Ok(_) => Offer::Taken,
                    Err(TransportError::Full) => Offer::Full,
                    Err(_) => Offer::Broken,
                },
            },
        }
    }
}

/// The contacts by which a message was offered. A message that is withheld
/// does not reach the transport.
pub open spec fn message_offered(
    message: ServerMessageView,
    waiting: Seq<u64>,
    max_payload: u32,
    flushed: nat,
    offer: Offer,
    contacts: Seq<Contact>,
) -> bool {
    if offer is Withheld {
        notices_offered(waiting, max_payload, flushed, contacts)
    } else {
        exists|attempt: Attempt| #[trigger]
            attempt.went(message, waiting, max_payload, flushed, offer, contacts)
    }
}

/// The contacts by which a closing connection was told the reason.
pub open spec fn farewell_offered(
    reason: Seq<char>,
    max_payload: u32,
    taken: bool,
    contacts: Seq<Contact>,
) -> bool {
    match server_frame(ServerMessageView::Disconnect { reason }, max_payload) {
        Ok(frame) => contacts.len() == 2 && (contacts[0] matches Contact::Frame {
            frame: offered,
            answer,
        } && offered == frame && taken == (answer is Ok)) && contacts[1] is Flushed,
        Err(_) => contacts.len() == 1 && !taken && contacts[0] is Flushed,
    }
}

/// An authenticator may have answered some credentials like this.
pub open spec fn vouched<A: Authenticator>(
    authenticator: A,
    credentials: Seq<char>,
    outcome: Result<PrincipalView, AuthErrorView>,
) -> bool {
    exists|given: &str, answer: Result<Principal, AuthError>| #[trigger]
        call_ensures(A::authenticate, (&authenticator, given), answer) && given@ == credentials
            && outcome_view(answer) == outcome
}

/// A policy may have decided an operation like this.
pub open spec fn decided<P: GamePolicy>(
    policy: P,
    principal: PrincipalView,
    operation: Operation,
    allowed: bool,
) -> bool {
    match operation {
        Operation::Attach { world } => exists|asked: &Principal| #[trigger]
            call_ensures(P::authorize_attach, (&policy, asked, world), allowed) && asked@
                == principal,
        Operation::Input { world, frame } => exists|asked: &Principal, given: &InputFrame| #[trigger]
            call_ensures(P::authorize_input, (&policy, asked, world, given), allowed) && asked@
                == principal && given@ == frame,
        Operation::Call { world, reducer } => exists|asked: &Principal, given: &str| #[trigger]
            call_ensures(P::authorize_reducer, (&policy, asked, world, given), allowed) && asked@
                == principal && given@ == reducer,
    }
}

/// An exchange is borne out: what the authenticator or the policy said is
/// what it may say, and what a transport was told is what its log shows. Of
/// decisions only those of the policy in force can be.
pub open spec fn borne_out<A: Authenticator, P: GamePolicy>(
    exchange: Exchange,
    authenticator: A,
    policy: P,
    in_force: bool,
    max_payload: u32,
) -> bool {
    match exchange {
        Exchange::Authenticated { credentials, outcome } => vouched(
            authenticator,
            credentials,
            outcome,
        ),
        Exchange::Authorized { principal, operation, allowed } => in_force ==> decided(
            policy,
            principal,
            operation,
            allowed,
        ),
        Exchange::Offered { message, waiting, flushed, offer, contacts, .. } => message_offered(
            message,
            waiting,
            max_payload,
            flushed,
            offer,
            contacts,
        ),
        Exchange::Farewell { reason, taken, contacts, .. } => farewell_offered(
            reason,
            max_payload,
            taken,
            contacts,
        ),
        _ => true,
    }
}

/// Every exchange of a record is borne out; the policy in force was installed
/// after the first `since` of them.
#[verifier::opaque]
pub open spec fn record_borne_out<A: Authenticator, P: GamePolicy>(
    history: Seq<Exchange>,
    authenticator: A,
    policy: P,
    since: nat,
    max_payload: u32,
) -> bool {
    &&& since <= history.len()
    &&& forall|i: int|
        0 <= i < history.len() ==> borne_out(
            #[trigger] history[i],
            authenticator,
            policy,
            i >= since,
            max_payload,
        )
}

/// One more exchange that is borne out keeps the record so.
pub proof fn recording_bears_out<A: Authenticator, P: GamePolicy>(
    history: Seq<Exchange>,
    exchange: Exchange,
    authenticator: A,
    policy: P,
    since: nat,
    max_payload: u32,
)
    requires
        record_borne_out(history, authenticator, policy, since, max_payload),
        borne_out(exchange, authenticator, policy, true, max_payload),
    ensures
        record_borne_out(history.push(exchange), authenticator, policy, since, max_payload),
{
    reveal(record_borne_out);
    let after = history.push(exchange);
    assert forall|i: int| 0 <= i < after.len() implies borne_out(
        #[trigger] after[i],
        authenticator,
        policy,
        i >= since,
        max_payload,
    ) by {
        if i < history.len() {
            assert(after[i] == history[i]);
        }
    }
}

/// Whether an exchange was one with the registries.
pub open spec fn with_host(exchange: Exchange) -> bool {
    match exchange {
        Exchange::Subscribed { .. } => true,
        Exchange::Resynced { .. } => true,
        Exchange::Unsubscribed { .. } => true,
        Exchange::Drained { .. } => true,
        Exchange::DrainedAll { .. } => true,
        _ => false,
    }
}

/// The exchanges of a record that were with the registries.
pub open spec fn host_part(history: Seq<Exchange>) -> Seq<Exchange>
    decreases history.len(),
{
    if history.len() == 0 {
        Seq::empty()
    } else if with_host(history.last()) {
        host_part(history.drop_last()).push(history.last())
    } else {
        host_part(history.drop_last())
    }
}

/// One more exchange is one with the registries, or leaves their part as it
/// was.
pub broadcast proof fn host_part_grows(history: Seq<Exchange>, exchange: Exchange)
    ensures
        #[trigger] host_part(history.push(exchange)) == if with_host(exchange) {
            host_part(history).push(exchange)
        } else {
            host_part(history)
        },
{
    assert(history.push(exchange).drop_last() =~= history);
}

/// A record goes on without an exchange with the registries.
pub open spec fn goes_on(history: Seq<Exchange>, longer: Seq<Exchange>) -> bool {
    extends(history, longer) && host_part(longer) == host_part(history)
}

/// What went into the registries' log between two moments is what went into
/// the registries' part of the record between them.
#[verifier::opaque]
pub open spec fn in_touch(
    log: Seq<Exchange>,
    part: Seq<Exchange>,
    later_log: Seq<Exchange>,
    later_part: Seq<Exchange>,
) -> bool {
    &&& log.len() <= later_log.len()
    &&& later_log.take(log.len() as int) == log
    &&& later_part == part + later_log.skip(log.len() as int)
}

/// Nothing goes into the log while nothing goes into the record's part.
pub broadcast proof fn staying_in_touch(log: Seq<Exchange>, part: Seq<Exchange>)
    ensures
        #[trigger] in_touch(log, part, log, part),
{
    reveal(in_touch);
    assert(log.take(log.len() as int) =~= log);
    assert(part + log.skip(log.len() as int) =~= part);
}

/// One exchange goes into both.
pub broadcast proof fn asking_in_touch(
    log: Seq<Exchange>,
    part: Seq<Exchange>,
    exchange: Exchange,
)
    ensures
        #[trigger] in_touch(log, part, log.push(exchange), part.push(exchange)),
{
    reveal(in_touch);
    assert(log.push(exchange).take(log.len() as int) =~= log);
    assert(part + log.push(exchange).skip(log.len() as int) =~= part.push(exchange));
}

/// Two such stretches are one.
pub broadcast proof fn in_touch_transitive(
    log: Seq<Exchange>,
    part: Seq<Exchange>,
    mid_log: Seq<Exchange>,
    mid_part: Seq<Exchange>,
    later_log: Seq<Exchange>,
    later_part: Seq<Exchange>,
)
    requires
        #[trigger] in_touch(log, part, mid_log, mid_part),
        #[trigger] in_touch(mid_log, mid_part, later_log, later_part),
    ensures
        in_touch(log, part, later_log, later_part),
{
    reveal(in_touch);
    assert(later_log.take(log.len() as int) =~= log) by {
        assert forall|i: int| 0 <= i < log.len() implies later_log[i] == log[i] by {
            assert(later_log.take(mid_log.len() as int)[i] == mid_log[i]);
            assert(mid_log.take(log.len() as int)[i] == log[i]);
        }
    }
    assert(mid_log.skip(log.len() as int) + later_log.skip(mid_log.len() as int)
        =~= later_log.skip(log.len() as int)) by {
        assert forall|i: int| log.len() <= i < mid_log.len() implies later_log[i]
            == mid_log[i] by {
            assert(later_log.take(mid_log.len() as int)[i] == mid_log[i]);
        }
    }
    assert(part + (mid_log.skip(log.len() as int) + later_log.skip(mid_log.len() as int)) =~= (part
        + mid_log.skip(log.len() as int)) + later_log.skip(mid_log.len() as int));
}

} // verus!
