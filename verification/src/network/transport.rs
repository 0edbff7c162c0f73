//! Transports.
//!
//! The gateway depends only on the [`Connection`] trait: bounded inbound and
//! outbound frame queues that never block. [`MemoryTransport`] opens
//! deterministic in-process links: one end is registered with the gateway,
//! the other drives the client. [`FrameReader`] cuts a byte stream into
//! validated frames for streaming transports, and [`FrameQueue`] bounds what
//! they still have to write.

use std::collections::VecDeque;
use std::sync::Arc;
use vstd::prelude::*;
use vstd::rwlock::{RwLock, RwLockPredicate};

use crate::network::error::TransportError;
use crate::network::frame::{copy_bytes, frame_parsed, parse_frame, slice_of};
use crate::network::protocol::{ServerMessage, ServerMessageView};
use crate::network::spsc::{is_power_of_two, SpscRing};
use crate::network::wire::put_bytes;

verus! {

/// One contact with a transport: what it was handed or asked, and what it
/// answered.
#[allow(inconsistent_fields)]
pub enum Contact {
    /// A frame was offered.
    Frame { frame: Seq<u8>, answer: Result<(), TransportError> },
    /// A message was offered without encoding.
    Message {
        message: ServerMessageView,
        max_payload: u32,
        answer: Result<(), TransportError>,
    },
    /// The next frame was asked for.
    Asked { answer: Result<Option<Seq<u8>>, TransportError> },
    /// The next message that was buffered without encoding was asked for.
    AskedDirect { answer: Result<Option<ServerMessageView>, TransportError> },
    /// What is buffered was to be written.
    Flushed { answer: Result<(), TransportError> },
    /// The transport was closed.
    Closed,
}

/// The content of what a transport answered when asked for a frame.
pub open spec fn received_view(answer: Result<Option<Vec<u8>>, TransportError>) -> Result<
    Option<Seq<u8>>,
    TransportError,
> {
    match answer {
        Ok(Some(bytes)) => Ok(Some(bytes@)),
        Ok(None) => Ok(None),
        Err(error) => Err(error),
    }
}

/// The content of what a transport answered when asked for a message.
pub open spec fn message_view(answer: Result<Option<ServerMessage>, TransportError>) -> Result<
    Option<ServerMessageView>,
    TransportError,
> {
    match answer {
        Ok(Some(message)) => Ok(Some(message@)),
        Ok(None) => Ok(None),
        Err(error) => Err(error),
    }
}

/// The contact of offering a message without encoding. A transport that
/// answers [`TransportError::Closed`] did not have to do with it.
pub open spec fn direct_contact(
    message: ServerMessageView,
    max_payload: u32,
    answer: Result<(), TransportError>,
) -> Seq<Contact> {
    if answer == Err::<(), TransportError>(TransportError::Closed) {
        Seq::empty()
    } else {
        seq![Contact::Message { message, max_payload, answer }]
    }
}

/// The contact of asking for a message. A transport that has none did not
/// have to do with it.
pub open spec fn asked_direct_contact(
    answer: Result<Option<ServerMessageView>, TransportError>,
) -> Seq<Contact> {
    if answer == Ok::<Option<ServerMessageView>, TransportError>(None) {
        Seq::empty()
    } else {
        seq![Contact::AskedDirect { answer }]
    }
}

/// A transport connection: whole-frame queues, non-blocking.
///
/// Implementations bound both directions ([`TransportError::Full`] at
/// capacity), so a slow peer can never block the gateway. What a transport
/// answers is its implementor's; every contact goes into its log, with what
/// it was handed and what it answered.
pub trait Connection {
    /// Every contact so far, oldest first.
    open spec fn contacts(&self) -> Seq<Contact> {
        Seq::empty()
    }

    /// A display identity for the peer.
    fn peer(&self) -> &str;

    /// The next complete inbound frame, `None` when none is buffered, or an
    /// error when the transport is broken.
    fn try_recv_frame(&mut self) -> (frame: Result<Option<Vec<u8>>, TransportError>)
        ensures
            final(self).contacts() == old(self).contacts().push(
                (Contact::Asked { answer: received_view(frame) }),
            ),
    ;

    /// Whether inbound data may be pending.
    fn has_pending_data(&self) -> bool {
        true
    }

    /// Buffers one outbound frame for delivery, or fails with
    /// [`TransportError::Full`] at capacity.
    fn try_send_frame(&mut self, frame: Vec<u8>) -> (outcome: Result<(), TransportError>)
        ensures
            final(self).contacts() == old(self).contacts().push(
                (Contact::Frame { frame: frame@, answer: outcome }),
            ),
    ;

    /// Attempts to write buffered outbound bytes (non-blocking).
    fn flush_outbound(&mut self) -> (outcome: Result<(), TransportError>)
        ensures
            final(self).contacts() == old(self).contacts().push(
                (Contact::Flushed { answer: outcome }),
            ),
    ;

    /// Closes the connection.
    fn close(&mut self)
        ensures
            final(self).contacts() == old(self).contacts().push(Contact::Closed),
    ;

    /// Buffers a message without encoding it. Transports that do not support
    /// this answer [`TransportError::Closed`], and the caller sends a frame.
    fn try_send_direct(&mut self, message: &ServerMessage, max_payload: u32) -> (outcome: Result<
        (),
        TransportError,
    >)
        ensures
            final(self).contacts() == old(self).contacts() + direct_contact(
                message@,
                max_payload,
                outcome,
            ),
    {
        assert(self.contacts() + Seq::<Contact>::empty() =~= self.contacts());
        Err(TransportError::Closed)
    }

    /// Takes a message that was buffered without encoding.
    fn try_recv_direct(&mut self) -> (message: Result<Option<ServerMessage>, TransportError>)
        ensures
            final(self).contacts() == old(self).contacts() + asked_direct_contact(
                message_view(message),
            ),
    {
        assert(self.contacts() + Seq::<Contact>::empty() =~= self.contacts());
        Ok(None)
    }
}

/// What the receiving end of a link takes out: a message or a frame.
pub enum Received {
    /// A message that was passed without encoding.
    Message(ServerMessage),
    /// An encoded frame.
    Frame(Vec<u8>),
}

// ------------------------------------------------------------- memory links

/// The least power of two that is at least `n` and at least two.
pub fn ring_capacity(n: usize) -> (capacity: usize)
    requires
        n <= usize::MAX / 2,
    ensures
        capacity >= 2,
        capacity >= n,
        is_power_of_two(capacity as nat),
        capacity == 2 || capacity < 2 * n,
{
    let mut capacity: usize = 2;
    assert(is_power_of_two(2nat)) by {
        reveal_with_fuel(is_power_of_two, 2);
    }
    while capacity < n
        invariant
            n <= usize::MAX / 2,
            capacity >= 2,
            is_power_of_two(capacity as nat),
            capacity == 2 || capacity < 2 * n,
        decreases usize::MAX - capacity,
    {
        assert((2 * capacity) as nat / 2 == capacity as nat);
        capacity = 2 * capacity;
    }
    capacity
}

/// An in-process link between a server end and a client end: bounded
/// first-in first-out queues of frames both ways, and of messages from the
/// server to the client. Frames and messages to the client share one bound.
pub struct MemoryLink {
    outbound_frames: SpscRing<Vec<u8>>,
    outbound_msgs: SpscRing<ServerMessage>,
    inbound: SpscRing<Vec<u8>>,
    outbound_cap: usize,
    inbound_cap: usize,
    closed: bool,
}

/// The contents of a queue of frames.
pub open spec fn frames_view(frames: Seq<Vec<u8>>) -> Seq<Seq<u8>> {
    Seq::new(frames.len(), |i: int| frames[i]@)
}

/// The mathematical content of a [`MemoryLink`].
pub struct MemoryLinkView {
    pub outbound_frames: Seq<Seq<u8>>,
    pub outbound_msgs: Seq<ServerMessageView>,
    pub inbound: Seq<Seq<u8>>,
    pub outbound_cap: usize,
    pub inbound_cap: usize,
    pub closed: bool,
}

impl MemoryLinkView {
    /// How much one end could take: frames for the server, frames and
    /// messages for the client.
    pub open spec fn waiting(&self, server: bool) -> nat {
        if server {
            self.inbound.len()
        } else {
            self.outbound_frames.len() + self.outbound_msgs.len()
        }
    }

    /// The frames one end could take, oldest first.
    pub open spec fn frames(&self, server: bool) -> Seq<Seq<u8>> {
        if server {
            self.inbound
        } else {
            self.outbound_frames
        }
    }

    /// The answer to one more thing sent by one end: nothing goes over a
    /// closed link, nor over the bound.
    pub open spec fn sending(&self, server: bool) -> Result<(), TransportError> {
        let bound = if server {
            self.outbound_cap
        } else {
            self.inbound_cap
        };
        if self.closed {
            Err(TransportError::Closed)
        } else if self.waiting(!server) >= bound {
            Err(TransportError::Full)
        } else {
            Ok(())
        }
    }
}

/// The first of some things, if there are any.
pub open spec fn first<T>(things: Seq<T>) -> Option<T> {
    if things.len() > 0 {
        Some(things[0])
    } else {
        None
    }
}

/// The content of what an end received.
pub enum ReceivedView {
    Message(ServerMessageView),
    Frame(Seq<u8>),
}

impl View for Received {
    type V = ReceivedView;

    open spec fn view(&self) -> ReceivedView {
        match *self {
            Received::Message(message) => ReceivedView::Message(message@),
            Received::Frame(frame) => ReceivedView::Frame(frame@),
        }
    }
}

impl View for MemoryLink {
    type V = MemoryLinkView;

    closed spec fn view(&self) -> MemoryLinkView {
        MemoryLinkView {
            outbound_frames: frames_view(self.outbound_frames@),
            outbound_msgs: crate::base::value::views(self.outbound_msgs@),
            inbound: frames_view(self.inbound@),
            outbound_cap: self.outbound_cap,
            inbound_cap: self.inbound_cap,
            closed: self.closed,
        }
    }
}

impl MemoryLink {
    /// What every operation keeps: each direction is within its bound.
    pub closed spec fn wf(&self) -> bool {
        &&& self.outbound_frames.wf()
        &&& self.outbound_msgs.wf()
        &&& self.inbound.wf()
        &&& self.outbound_frames.room() >= self.outbound_cap
        &&& self.outbound_msgs.room() >= self.outbound_cap
        &&& self.inbound.room() >= self.inbound_cap
        &&& self.outbound_frames@.len() + self.outbound_msgs@.len() <= self.outbound_cap
        &&& self.inbound@.len() <= self.inbound_cap
    }

    /// An open link with nothing in it.
    pub fn new(inbound_cap: usize, outbound_cap: usize) -> (link: MemoryLink)
        requires
            inbound_cap <= usize::MAX / 2,
            outbound_cap <= usize::MAX / 2,
        ensures
            link.wf(),
            link@ == (MemoryLinkView {
                outbound_frames: Seq::empty(),
                outbound_msgs: Seq::empty(),
                inbound: Seq::empty(),
                outbound_cap,
                inbound_cap,
                closed: false,
            }),
    {
        let out_ring: usize = ring_capacity(outbound_cap);
        let in_ring: usize = ring_capacity(inbound_cap);
        let link = MemoryLink {
            outbound_frames: SpscRing::new(out_ring),
            outbound_msgs: SpscRing::new(out_ring),
            inbound: SpscRing::new(in_ring),
            outbound_cap,
            inbound_cap,
            closed: false,
        };
        assert(link@.outbound_frames =~= Seq::empty());
        assert(link@.outbound_msgs =~= Seq::empty());
        assert(link@.inbound =~= Seq::empty());
        link
    }

    /// Sends a frame from the server to the client.
    pub fn server_send(&mut self, frame: Vec<u8>) -> (outcome: Result<(), TransportError>)
        requires
            old(self).wf(),
        ensures
            final(self).wf(),
            match outcome {
                Ok(_) => !old(self)@.closed && old(self)@.outbound_frames.len() + old(
                    self,
                )@.outbound_msgs.len() < old(self)@.outbound_cap && final(self)@
                    == (MemoryLinkView {
                    outbound_frames: old(self)@.outbound_frames.push(frame@),
                    ..old(self)@
                }),
                Err(e) => final(self)@ == old(self)@ && e == if old(self)@.closed {
                    TransportError::Closed
                } else {
                    TransportError::Full
                } && (old(self)@.closed || old(self)@.outbound_frames.len() + old(
                    self,
                )@.outbound_msgs.len() >= old(self)@.outbound_cap),
            },
    {
        if self.closed {
            return Err(TransportError::Closed);
        }
        if self.outbound_frames.len() + self.outbound_msgs.len() >= self.outbound_cap {
            return Err(TransportError::Full);
        }
        let ghost queued = frames_view(self.outbound_frames@);
        let _ = self.outbound_frames.push(frame);
        assert(frames_view(self.outbound_frames@) =~= queued.push(frame@));
        Ok(())
    }

    /// Passes a message from the server to the client without encoding it.
    pub fn server_pass(&mut self, message: ServerMessage) -> (outcome: Result<(), TransportError>)
        requires
            old(self).wf(),
        ensures
            final(self).wf(),
            match outcome {
                Ok(_) => !old(self)@.closed && old(self)@.outbound_frames.len() + old(
                    self,
                )@.outbound_msgs.len() < old(self)@.outbound_cap && final(self)@
                    == (MemoryLinkView {
                    outbound_msgs: old(self)@.outbound_msgs.push(message@),
                    ..old(self)@
                }),
                Err(e) => final(self)@ == old(self)@ && e == if old(self)@.closed {
                    TransportError::Closed
                } else {
                    TransportError::Full
                } && (old(self)@.closed || old(self)@.outbound_frames.len() + old(
                    self,
                )@.outbound_msgs.len() >= old(self)@.outbound_cap),
            },
    {
        if self.closed {
            return Err(TransportError::Closed);
        }
        if self.outbound_frames.len() + self.outbound_msgs.len() >= self.outbound_cap {
            return Err(TransportError::Full);
        }
        let ghost queued = crate::base::value::views(self.outbound_msgs@);
        let _ = self.outbound_msgs.push(message);
        assert(crate::base::value::views(self.outbound_msgs@) =~= queued.push(message@));
        Ok(())
    }

    /// Sends a frame from the client to the server.
    pub fn client_send(&mut self, frame: Vec<u8>) -> (outcome: Result<(), TransportError>)
        requires
            old(self).wf(),
        ensures
            final(self).wf(),
            match outcome {
                Ok(_) => !old(self)@.closed && old(self)@.inbound.len() < old(self)@.inbound_cap
                    && final(self)@ == (MemoryLinkView {
                    inbound: old(self)@.inbound.push(frame@),
                    ..old(self)@
                }),
                Err(e) => final(self)@ == old(self)@ && e == if old(self)@.closed {
                    TransportError::Closed
                } else {
                    TransportError::Full
                } && (old(self)@.closed || old(self)@.inbound.len() >= old(self)@.inbound_cap),
            },
    {
        if self.closed {
            return Err(TransportError::Closed);
        }
        if self.inbound.len() >= self.inbound_cap {
            return Err(TransportError::Full);
        }
        let ghost queued = frames_view(self.inbound@);
        let _ = self.inbound.push(frame);
        assert(frames_view(self.inbound@) =~= queued.push(frame@));
        Ok(())
    }

    /// Takes the oldest frame the client sent.
    pub fn server_recv(&mut self) -> (frame: Option<Vec<u8>>)
        requires
            old(self).wf(),
        ensures
            final(self).wf(),
            match frame {
                Some(f) => old(self)@.inbound.len() > 0 && f@ == old(self)@.inbound[0] && final(
                    self)@ == (MemoryLinkView {
                    inbound: old(self)@.inbound.drop_first(),
                    ..old(self)@
                }),
                None => old(self)@.inbound.len() == 0 && final(self)@ == old(self)@,
            },
    {
        let frame = self.inbound.pop();
        assert(frame is Some ==> frames_view(self.inbound@) =~= frames_view(
            old(self).inbound@,
        ).drop_first());
        frame
    }

    /// Takes the oldest frame the server sent.
    pub fn client_recv(&mut self) -> (frame: Option<Vec<u8>>)
        requires
            old(self).wf(),
        ensures
            final(self).wf(),
            match frame {
                Some(f) => old(self)@.outbound_frames.len() > 0 && f@ == old(
                    self,
                )@.outbound_frames[0] && final(self)@ == (MemoryLinkView {
                    outbound_frames: old(self)@.outbound_frames.drop_first(),
                    ..old(self)@
                }),
                None => old(self)@.outbound_frames.len() == 0 && final(self)@ == old(self)@,
            },
    {
        let frame = self.outbound_frames.pop();
        assert(frame is Some ==> frames_view(self.outbound_frames@) =~= frames_view(
            old(self).outbound_frames@,
        ).drop_first());
        frame
    }

    /// Takes the oldest message the server passed.
    pub fn client_take(&mut self) -> (message: Option<ServerMessage>)
        requires
            old(self).wf(),
        ensures
            final(self).wf(),
            match message {
                Some(m) => old(self)@.outbound_msgs.len() > 0 && m@ == old(self)@.outbound_msgs[0]
                    && final(self)@ == (MemoryLinkView {
                    outbound_msgs: old(self)@.outbound_msgs.drop_first(),
                    ..old(self)@
                }),
                None => old(self)@.outbound_msgs.len() == 0 && final(self)@ == old(self)@,
            },
    {
        let message = self.outbound_msgs.pop();
        assert(message is Some ==> crate::base::value::views(self.outbound_msgs@)
            =~= crate::base::value::views(old(self).outbound_msgs@).drop_first());
        message
    }

    /// Whether the server has frames to take.
    pub fn server_pending(&self) -> (pending: bool)
        ensures
            pending == (self@.waiting(true) > 0),
    {
        !self.inbound.is_empty()
    }

    /// Whether the client has frames or messages to take.
    pub fn client_pending(&self) -> (pending: bool)
        ensures
            pending == (self@.waiting(false) > 0),
    {
        !self.outbound_frames.is_empty() || !self.outbound_msgs.is_empty()
    }

    /// Closes the link for sending. What is queued can still be taken.
    pub fn close(&mut self)
        requires
            old(self).wf(),
        ensures
            final(self).wf(),
            final(self)@ == (MemoryLinkView { closed: true, ..old(self)@ }),
    {
        self.closed = true;
    }
}

/// What a shared link keeps: the bounds it was opened with, and that each
/// direction is within its bound.
pub struct LinkInvariant {
    inbound_cap: usize,
    outbound_cap: usize,
}

impl RwLockPredicate<MemoryLink> for LinkInvariant {
    closed spec fn inv(self, link: MemoryLink) -> bool {
        &&& link.wf()
        &&& link@.inbound_cap == self.inbound_cap
        &&& link@.outbound_cap == self.outbound_cap
    }
}

/// One end of an in-process link. Both ends share the link, so what one end
/// finds depends on what the other did; each operation is one operation of
/// [`MemoryLink`]. An end remembers that it closed the link, which nothing
/// opens again.
pub struct MemoryConnection {
    server_side: bool,
    closed: bool,
    link: Arc<RwLock<MemoryLink, LinkInvariant>>,
    contacts: Ghost<Seq<Contact>>,
}

/// Opens in-process connection pairs.
pub struct MemoryTransport;

impl MemoryTransport {
    /// Opens a fresh pair: the server end, then the client end.
    pub fn connect(inbound_cap: usize, outbound_cap: usize) -> (pair: (
        MemoryConnection,
        MemoryConnection,
    ))
        requires
            inbound_cap <= usize::MAX / 2,
            outbound_cap <= usize::MAX / 2,
        ensures
            pair.0.is_server(),
            !pair.1.is_server(),
            pair.0.shares_link(pair.1),
            pair.0.contacts() == Seq::<Contact>::empty(),
            pair.1.contacts() == Seq::<Contact>::empty(),
            !pair.0.is_closed(),
            !pair.1.is_closed(),
            pair.0.inbound_cap() == inbound_cap,
            pair.0.outbound_cap() == outbound_cap,
            pair.1.inbound_cap() == inbound_cap,
            pair.1.outbound_cap() == outbound_cap,
    {
        let link = MemoryLink::new(inbound_cap, outbound_cap);
        let shared = Arc::new(
            RwLock::new(link, Ghost(LinkInvariant { inbound_cap, outbound_cap })),
        );
        let server = MemoryConnection {
            server_side: true,
            closed: false,
            link: shared.clone(),
            contacts: Ghost(Seq::empty()),
        };
        let client = MemoryConnection {
            server_side: false,
            closed: false,
            link: shared,
            contacts: Ghost(Seq::empty()),
        };
        (server, client)
    }
}

impl MemoryConnection {
    /// Whether this is the server end.
    pub closed spec fn is_server(&self) -> bool {
        self.server_side
    }

    /// Whether two ends belong to the same link.
    pub closed spec fn shares_link(&self, other: MemoryConnection) -> bool {
        self.link == other.link
    }

    /// Whether this end has closed the link.
    pub closed spec fn is_closed(&self) -> bool {
        self.closed
    }

    /// How many frames the link holds for the server at most.
    pub closed spec fn inbound_cap(&self) -> usize {
        self.link.pred().inbound_cap
    }

    /// How many frames and messages the link holds for the client at most.
    pub closed spec fn outbound_cap(&self) -> usize {
        self.link.pred().outbound_cap
    }

    /// Whether the shared link may be found like this: it has the bounds it
    /// was opened with, and each direction is within its bound.
    pub open spec fn may_find(&self, link: MemoryLinkView) -> bool {
        &&& link.inbound_cap == self.inbound_cap()
        &&& link.outbound_cap == self.outbound_cap()
        &&& link.waiting(true) <= link.inbound_cap
        &&& link.waiting(false) <= link.outbound_cap
    }

    /// Whether this is the end that another one was, with the same link,
    /// closed or not as that one was.
    pub open spec fn same_end(&self, before: MemoryConnection) -> bool {
        &&& self.is_server() == before.is_server()
        &&& self.is_closed() == before.is_closed()
        &&& self.inbound_cap() == before.inbound_cap()
        &&& self.outbound_cap() == before.outbound_cap()
        &&& forall|other: MemoryConnection| #[trigger]
            self.shares_link(other) == before.shares_link(other)
    }

    /// Takes whatever the client end finds first: messages, then frames.
    pub fn try_recv_any(&mut self) -> (received: Result<Option<Received>, TransportError>)
        ensures
            received is Ok,
            old(self).is_server() ==> received->Ok_0 is None,
            !old(self).is_server() ==> exists|link: MemoryLinkView, later: MemoryLinkView| #[trigger]
                old(self).may_find(link) && #[trigger] old(self).may_find(later) && (
                match received->Ok_0 {
                    Some(Received::Message(message)) => first(link.outbound_msgs) == Some(message@),
                    Some(Received::Frame(frame)) => link.outbound_msgs.len() == 0 && first(
                        later.outbound_frames,
                    ) == Some(frame@),
                    None => link.outbound_msgs.len() == 0 && later.outbound_frames.len() == 0,
                }),
            final(self).same_end(*old(self)),
    {
        if self.server_side {
            return Ok(None);
        }
        let answer = self.try_recv_direct();
        let ghost link = choose|link: MemoryLinkView| #[trigger]
            old(self).may_find(link) && message_view(answer) == Ok::<
                Option<ServerMessageView>,
                TransportError,
            >(first(link.outbound_msgs));
        assert(old(self).may_find(link));
        if let Ok(Some(message)) = answer {
            return Ok(Some(Received::Message(message)));
        }
        let ghost asked = *self;
        let answer = self.try_recv_frame();
        let ghost later = choose|later: MemoryLinkView| #[trigger]
            asked.may_find(later) && received_view(answer) == Ok::<
                Option<Seq<u8>>,
                TransportError,
            >(first(later.frames(asked.is_server())));
        assert(old(self).may_find(later));
        if let Ok(Some(frame)) = answer {
            return Ok(Some(Received::Frame(frame)));
        }
        Ok(None)
    }
}

impl Connection for MemoryConnection {
    closed spec fn contacts(&self) -> Seq<Contact> {
        self.contacts@
    }

    fn peer(&self) -> (label: &str)
        ensures
            label@ == if self.is_server() {
                "memory:server"@
            } else {
                "memory:client"@
            },
    {
        if self.server_side {
            "memory:server"
        } else {
            "memory:client"
        }
    }

    /// Takes the oldest frame for this end, as the call finds the link.
    fn try_recv_frame(&mut self) -> (frame: Result<Option<Vec<u8>>, TransportError>)
        ensures
            exists|link: MemoryLinkView| #[trigger]
                old(self).may_find(link) && received_view(frame) == Ok::<
                    Option<Seq<u8>>,
                    TransportError,
                >(first(link.frames(old(self).is_server()))),
            final(self).same_end(*old(self)),
    {
        let (mut link, handle) = self.link.acquire_write();
        let ghost found = link@;
        assert(old(self).may_find(found));
        let frame = if self.server_side {
            link.server_recv()
        } else {
            link.client_recv()
        };
        handle.release_write(link);
        let answer = Ok(frame);
        self.contacts = Ghost(
            self.contacts@.push(Contact::Asked { answer: received_view(answer) }),
        );
        answer
    }

    /// Whether this end could take something from the link as the call finds
    /// it. A direction without room never has anything pending.
    fn has_pending_data(&self) -> (pending: bool)
        ensures
            exists|link: MemoryLinkView| #[trigger]
                self.may_find(link) && pending == (link.waiting(self.is_server()) > 0),
    {
        let (link, handle) = self.link.acquire_write();
        let pending = if self.server_side {
            link.server_pending()
        } else {
            link.client_pending()
        };
        assert(self.may_find(link@));
        handle.release_write(link);
        pending
    }

    /// Sends a frame to the other end, as the call finds the link. A closed
    /// end sends nothing, and a direction without room takes nothing.
    fn try_send_frame(&mut self, frame: Vec<u8>) -> (outcome: Result<(), TransportError>)
        ensures
            old(self).is_closed() ==> outcome == Err::<(), TransportError>(TransportError::Closed),
            !old(self).is_closed() ==> exists|link: MemoryLinkView| #[trigger]
                old(self).may_find(link) && outcome == link.sending(old(self).is_server()),
            final(self).same_end(*old(self)),
    {
        let ghost bytes = frame@;
        if self.closed {
            let outcome = Err(TransportError::Closed);
            self.contacts = Ghost(
                self.contacts@.push(Contact::Frame { frame: bytes, answer: outcome }),
            );
            return outcome;
        }
        let (mut link, handle) = self.link.acquire_write();
        let ghost found = link@;
        assert(old(self).may_find(found));
        let outcome = if self.server_side {
            link.server_send(frame)
        } else {
            link.client_send(frame)
        };
        handle.release_write(link);
        assert(outcome matches Ok(unit) ==> unit == ());
        self.contacts = Ghost(
            self.contacts@.push(Contact::Frame { frame: bytes, answer: outcome }),
        );
        outcome
    }

    fn flush_outbound(&mut self) -> (outcome: Result<(), TransportError>)
        ensures
            outcome is Ok,
            final(self).same_end(*old(self)),
    {
        self.contacts = Ghost(self.contacts@.push(Contact::Flushed { answer: Ok(()) }));
        Ok(())
    }

    /// Closes the link for sending: from here on this end sends nothing, and
    /// answers [`TransportError::Closed`]. The link itself is closed by
    /// [`MemoryLink::close`], so that the other end finds it closed too; that
    /// the other end does is not part of the contract, which speaks of this
    /// end alone.
    fn close(&mut self)
        ensures
            final(self).is_closed(),
            final(self).is_server() == old(self).is_server(),
            final(self).inbound_cap() == old(self).inbound_cap(),
            final(self).outbound_cap() == old(self).outbound_cap(),
            forall|other: MemoryConnection| #[trigger]
                final(self).shares_link(other) == old(self).shares_link(other),
    {
        let (mut link, handle) = self.link.acquire_write();
        link.close();
        handle.release_write(link);
        self.closed = true;
        self.contacts = Ghost(self.contacts@.push(Contact::Closed));
    }

    /// Passes a message to the client end without encoding it, as the call
    /// finds the link. The client end passes none.
    fn try_send_direct(&mut self, message: &ServerMessage, max_payload: u32) -> (outcome: Result<
        (),
        TransportError,
    >)
        ensures
            !old(self).is_server() || old(self).is_closed() ==> outcome == Err::<
                (),
                TransportError,
            >(TransportError::Closed),
            old(self).is_server() && !old(self).is_closed() ==> exists|link: MemoryLinkView| #[trigger]
                old(self).may_find(link) && outcome == link.sending(true),
            final(self).same_end(*old(self)),
    {
        if self.closed || !self.server_side {
            assert(self.contacts@ + Seq::<Contact>::empty() =~= self.contacts@);
            return Err(TransportError::Closed);
        }
        let (mut link, handle) = self.link.acquire_write();
        let ghost found = link@;
        assert(old(self).may_find(found));
        let outcome = link.server_pass(message.clone());
        handle.release_write(link);
        assert(outcome matches Ok(unit) ==> unit == ());
        self.contacts = Ghost(
            self.contacts@ + direct_contact(message@, max_payload, outcome),
        );
        outcome
    }

    /// Takes the oldest message that was passed to the client end, as the call
    /// finds the link. The server end is passed none.
    fn try_recv_direct(&mut self) -> (message: Result<Option<ServerMessage>, TransportError>)
        ensures
            old(self).is_server() ==> message == Ok::<Option<ServerMessage>, TransportError>(None),
            !old(self).is_server() ==> exists|link: MemoryLinkView| #[trigger]
                old(self).may_find(link) && message_view(message) == Ok::<
                    Option<ServerMessageView>,
                    TransportError,
                >(first(link.outbound_msgs)),
            final(self).same_end(*old(self)),
    {
        if self.server_side {
            assert(self.contacts@ + Seq::<Contact>::empty() =~= self.contacts@);
            return Ok(None);
        }
        let (mut link, handle) = self.link.acquire_write();
        let ghost found = link@;
        assert(old(self).may_find(found));
        let message = Ok(link.client_take());
        handle.release_write(link);
        self.contacts = Ghost(self.contacts@ + asked_direct_contact(message_view(message)));
        message
    }
}

// --------------------------------------------------------- byte transports

/// Cuts a byte stream into validated frames. The frame bound is enforced as
/// soon as a header arrives, before its body is buffered. A violation breaks
/// the stream for good.
pub struct FrameReader {
    buffer: Vec<u8>,
    max_payload: u32,
    broken: bool,
}

/// The mathematical content of a [`FrameReader`].
pub struct FrameReaderView {
    pub buffer: Seq<u8>,
    pub max_payload: u32,
    pub broken: bool,
}

impl View for FrameReader {
    type V = FrameReaderView;

    closed spec fn view(&self) -> FrameReaderView {
        FrameReaderView {
            buffer: self.buffer@,
            max_payload: self.max_payload,
            broken: self.broken,
        }
    }
}

impl FrameReader {
    /// A reader that has seen nothing.
    pub fn new(max_payload: u32) -> (reader: FrameReader)
        ensures
            reader@ == (FrameReaderView { buffer: Seq::empty(), max_payload, broken: false }),
    {
        FrameReader { buffer: Vec::new(), max_payload, broken: false }
    }

    /// Buffers bytes that arrived.
    pub fn feed(&mut self, bytes: &[u8])
        ensures
            final(self)@ == (FrameReaderView {
                buffer: old(self)@.buffer + bytes@,
                ..old(self)@
            }),
    {
        put_bytes(&mut self.buffer, bytes);
    }

    /// Takes one complete frame off the front, `None` when more bytes are
    /// needed, or fails when the bytes can never become a valid frame.
    pub fn next_frame(&mut self) -> (frame: Result<Option<Vec<u8>>, TransportError>)
        ensures
            match (old(self)@.broken, frame_parsed(old(self)@.buffer, old(self)@.max_payload)) {
                (true, _) => frame == Err::<Option<Vec<u8>>, TransportError>(
                    TransportError::Closed,
                ) && final(self)@ == old(self)@,
                (false, Err(_)) => frame == Err::<Option<Vec<u8>>, TransportError>(
                    TransportError::Io,
                ) && final(self)@ == (FrameReaderView { broken: true, ..old(self)@ }),
                (false, Ok(None)) => frame == Ok::<Option<Vec<u8>>, TransportError>(None) && final(
                    self)@ == old(self)@,
                (false, Ok(Some((bytes, consumed)))) => frame is Ok && frame->Ok_0 is Some
                    && frame->Ok_0->0@ == bytes && final(self)@ == (FrameReaderView {
                    buffer: old(self)@.buffer.skip(consumed),
                    ..old(self)@
                }),
            },
    {
        if self.broken {
            return Err(TransportError::Closed);
        }
        match parse_frame(self.buffer.as_slice(), self.max_payload) {
            Ok(Some((frame, consumed))) => {
                let left = copy_bytes(slice_of(self.buffer.as_slice(), consumed, self.buffer.len()));
                self.buffer = left;
                assert(self.buffer@ =~= old(self).buffer@.skip(consumed as int));
                Ok(Some(frame))
            },
            Ok(None) => Ok(None),
            Err(violation) => {
                self.broken = true;
                Err(TransportError::from_protocol(violation))
            },
        }
    }

    /// Breaks the stream for good.
    pub fn close(&mut self)
        ensures
            final(self)@ == (FrameReaderView { broken: true, ..old(self)@ }),
    {
        self.broken = true;
    }
}

/// A bounded queue of frames that wait to be written, the first of them
/// perhaps in part.
pub struct FrameQueue {
    frames: VecDeque<Vec<u8>>,
    offset: usize,
    capacity: usize,
}

/// The mathematical content of a [`FrameQueue`].
pub struct FrameQueueView {
    pub frames: Seq<Seq<u8>>,
    pub offset: int,
    pub capacity: usize,
}

/// The bytes of several frames, one after another.
pub open spec fn frames_joined(frames: Seq<Seq<u8>>) -> Seq<u8>
    decreases frames.len(),
{
    if frames.len() == 0 {
        Seq::empty()
    } else {
        frames[0] + frames_joined(frames.drop_first())
    }
}

impl View for FrameQueue {
    type V = FrameQueueView;

    closed spec fn view(&self) -> FrameQueueView {
        FrameQueueView {
            frames: frames_view(self.frames@),
            offset: self.offset as int,
            capacity: self.capacity,
        }
    }
}

impl FrameQueueView {
    /// What every operation keeps: within the bound, and the part written is
    /// less than the first frame.
    pub open spec fn valid(self) -> bool {
        &&& self.frames.len() <= self.capacity
        &&& 0 <= self.offset
        &&& self.offset > 0 ==> self.frames.len() > 0 && self.offset < self.frames[0].len()
    }

    /// The bytes that are still to be written.
    pub open spec fn unwritten(self) -> Seq<u8> {
        frames_joined(self.frames).skip(self.offset)
    }
}

impl FrameQueue {
    /// An empty queue for at most `capacity` frames.
    pub fn new(capacity: usize) -> (queue: FrameQueue)
        ensures
            queue@ == (FrameQueueView { frames: Seq::empty(), offset: 0, capacity }),
            queue@.valid(),
    {
        let queue = FrameQueue { frames: VecDeque::new(), offset: 0, capacity };
        assert(queue@.frames =~= Seq::empty());
        queue
    }

    /// Queues a frame, or fails at the bound.
    pub fn push(&mut self, frame: Vec<u8>) -> (outcome: Result<(), TransportError>)
        requires
            old(self)@.valid(),
        ensures
            final(self)@.valid(),
            match outcome {
                Ok(_) => old(self)@.frames.len() < old(self)@.capacity && final(self)@
                    == (FrameQueueView {
                    frames: old(self)@.frames.push(frame@),
                    ..old(self)@
                }),
                Err(e) => old(self)@.frames.len() == old(self)@.capacity && final(self)@ == old(
                    self,
                )@ && e == TransportError::Full,
            },
    {
        if self.frames.len() >= self.capacity {
            return Err(TransportError::Full);
        }
        let ghost queued = frames_view(self.frames@);
        self.frames.push_back(frame);
        assert(frames_view(self.frames@) =~= queued.push(frame@));
        Ok(())
    }

    /// The bytes to write next: the rest of the first frame, if any.
    pub fn front(&self) -> (bytes: Option<&[u8]>)
        requires
            self@.valid(),
        ensures
            match bytes {
                Some(b) => self@.frames.len() > 0 && b@ == self@.frames[0].skip(self@.offset),
                None => self@.frames.len() == 0,
            },
    {
        if self.frames.len() == 0 {
            return None;
        }
        let first = &self.frames[0];
        let bytes = slice_of(first.as_slice(), self.offset, first.len());
        assert(bytes@ =~= self@.frames[0].skip(self@.offset));
        Some(bytes)
    }

    /// Records that `written` bytes of the first frame's rest were written.
    /// Exactly those bytes leave the front of what is unwritten.
    pub fn advance(&mut self, written: usize)
        requires
            old(self)@.valid(),
            old(self)@.frames.len() > 0,
            old(self)@.offset + written <= old(self)@.frames[0].len(),
        ensures
            final(self)@.valid(),
            final(self)@.unwritten() == old(self)@.unwritten().skip(written as int),
            final(self)@.capacity == old(self)@.capacity,
            final(self)@ == if old(self)@.offset + written == old(self)@.frames[0].len() {
                (FrameQueueView {
                    frames: old(self)@.frames.drop_first(),
                    offset: 0,
                    ..old(self)@
                })
            } else {
                (FrameQueueView { offset: old(self)@.offset + written, ..old(self)@ })
            },
    {
        let ghost before = self@;
        let ghost first = self@.frames[0];
        let ghost tail = frames_joined(self@.frames.drop_first());
        let total: usize = self.frames[0].len();
        self.offset = self.offset + written;
        if self.offset >= total {
            self.frames.pop_front();
            self.offset = 0;
            assert(self@.frames =~= before.frames.drop_first());
            assert(tail.skip(0) =~= tail);
            assert((first + tail).skip(before.offset).skip(written as int) =~= tail);
        } else {
            assert((first + tail).skip(before.offset).skip(written as int) =~= (first + tail).skip(
                before.offset + written,
            ));
        }
    }
}

/// One end of a link can send as long as the link is open and fewer things wait
/// for the other end than its bound allows. What waits for the client are the
/// frames and the messages together; what waits for the server are frames.
pub proof fn links_take_up_to_their_bound(link: MemoryLinkView)
    ensures
        link.sending(true) is Ok <==> !link.closed && link.outbound_frames.len()
            + link.outbound_msgs.len() < link.outbound_cap,
        link.sending(false) is Ok <==> !link.closed && link.inbound.len() < link.inbound_cap,
        forall|server: bool|
            #![trigger link.sending(server)]
            link.sending(server) is Err ==> link.sending(server)->Err_0 == if link.closed {
                TransportError::Closed
            } else {
                TransportError::Full
            },
        link.waiting(true) == link.inbound.len(),
        link.waiting(false) == link.outbound_frames.len() + link.outbound_msgs.len(),
        link.frames(true) == link.inbound,
        link.frames(false) == link.outbound_frames,
{
}

} // verus!
