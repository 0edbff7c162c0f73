//! The versioned binary realtime protocol: the messages, and their encoding
//! into and decoding from single frames.
//!
//! Decoding is total: any byte string yields a message or a typed
//! [`ProtocolError`]. No count or length found in a frame is trusted with
//! memory before the bytes behind it are there.

use vstd::prelude::*;

use crate::base::change::{Change, ChangeView, DeliveredRow, DeliveredRowView};
use crate::base::ids::{RowId, SubscriptionId, TickId, TransactionId, WorldId};
use crate::base::input::{InputFrame, InputFrameView};
use crate::base::query::{Query, QueryView};
use crate::base::value::{
    duplicate_all, duplicate_opt, opt_view, views, Duplicate, Row, Value, ValueView,
};
use crate::network::auth::{Principal, PrincipalView};
use crate::network::error::{NetworkError, NetworkErrorView, ProtocolError, ProtocolErrorView};
use crate::network::frame::{
    build_frame, builds_as, decode_frame, frame_built, frame_bytes, frame_decoded, frame_reads_back,
};
use crate::network::payload::{bad_tag, tag_text};
use crate::network::wire::{
    byte_decoded, get_whole, join_assoc, malformed, put_counted, put_text, text_encoded,
    whole_decoded, whole_reads_back, Counted, Decoded, Outcome, OutcomeView, Wire,
};
use crate::reducer::args::{Entries, ReducerArgs};
use crate::reducer::event::{ReducerEvent, ReducerEventView};

verus! {

// Message kinds from client to server.
const KIND_HANDSHAKE: u8 = 0x01;

const KIND_AUTHENTICATE: u8 = 0x02;

const KIND_ATTACH: u8 = 0x03;

const KIND_INPUT_FRAME: u8 = 0x04;

const KIND_SUBSCRIBE: u8 = 0x05;

const KIND_UNSUBSCRIBE: u8 = 0x06;

const KIND_RESYNC: u8 = 0x07;

const KIND_PING: u8 = 0x08;

const KIND_DETACH: u8 = 0x09;

const KIND_CALL_REDUCER: u8 = 0x0A;

// Message kinds from server to client.
const KIND_HANDSHAKE_RESPONSE: u8 = 0x81;

const KIND_AUTH_RESULT: u8 = 0x82;

const KIND_ATTACH_RESULT: u8 = 0x83;

const KIND_TICK_UPDATE: u8 = 0x84;

const KIND_SUB_SNAPSHOT: u8 = 0x85;

const KIND_SUB_DELTA: u8 = 0x86;

const KIND_STALE: u8 = 0x87;

const KIND_ERROR: u8 = 0x88;

const KIND_PONG: u8 = 0x89;

const KIND_DISCONNECT: u8 = 0x8A;

const KIND_DETACH_RESULT: u8 = 0x8B;

const KIND_REDUCER_RESULT: u8 = 0x8C;

const KIND_SUB_DELTA_BATCH: u8 = 0x8D;

// ---------------------------------------------------------------- messages

/// A message from a client to the server.
#[derive(Debug, PartialEq, Eq)]
pub enum ClientMessage {
    /// Protocol version negotiation.
    Handshake { version: u16, name: String },
    /// Opaque credentials for the authenticator.
    Authenticate { credentials: String },
    /// Attach the session to a world.
    AttachWorld { world: WorldId },
    /// Submit one tick's input frame.
    InputFrame { frame: InputFrame },
    /// Establish a subscription with a logical query. `request_id` comes
    /// back in the snapshot and in a rejection.
    Subscribe { request_id: u64, query: Query },
    /// End a subscription.
    Unsubscribe { subscription: SubscriptionId },
    /// Regenerate a subscription's exact view.
    Resync { subscription: SubscriptionId },
    /// Liveness probe; answered with `Pong`.
    Ping { nonce: u64 },
    /// End the session's world attachment and its subscriptions.
    DetachWorld,
    /// Invoke a registered reducer on the attached world's next tick.
    CallReducer { request_id: u64, reducer: String, args: ReducerArgs },
}

/// The mathematical content of a [`ClientMessage`].
pub enum ClientMessageView {
    Handshake { version: u16, name: Seq<char> },
    Authenticate { credentials: Seq<char> },
    AttachWorld { world: WorldId },
    InputFrame { frame: InputFrameView },
    Subscribe { request_id: u64, query: QueryView },
    Unsubscribe { subscription: SubscriptionId },
    Resync { subscription: SubscriptionId },
    Ping { nonce: u64 },
    DetachWorld,
    CallReducer { request_id: u64, reducer: Seq<char>, args: Entries },
}

impl View for ClientMessage {
    type V = ClientMessageView;

    open spec fn view(&self) -> ClientMessageView {
        match self {
            ClientMessage::Handshake { version, name } => ClientMessageView::Handshake {
                version: *version,
                name: name@,
            },
            ClientMessage::Authenticate { credentials } => ClientMessageView::Authenticate {
                credentials: credentials@,
            },
            ClientMessage::AttachWorld { world } => ClientMessageView::AttachWorld {
                world: *world,
            },
            ClientMessage::InputFrame { frame } => ClientMessageView::InputFrame { frame: frame@ },
            ClientMessage::Subscribe { request_id, query } => ClientMessageView::Subscribe {
                request_id: *request_id,
                query: query@,
            },
            ClientMessage::Unsubscribe { subscription } => ClientMessageView::Unsubscribe {
                subscription: *subscription,
            },
            ClientMessage::Resync { subscription } => ClientMessageView::Resync {
                subscription: *subscription,
            },
            ClientMessage::Ping { nonce } => ClientMessageView::Ping { nonce: *nonce },
            ClientMessage::DetachWorld => ClientMessageView::DetachWorld,
            ClientMessage::CallReducer { request_id, reducer, args } =>
                ClientMessageView::CallReducer {
                request_id: *request_id,
                reducer: reducer@,
                args: args@,
            },
        }
    }
}

/// The row-level change kind of a subscription delta.
#[derive(Clone, Copy, Debug, PartialEq, Eq, Structural)]
pub enum DeltaKind {
    /// The row entered the view.
    Insert,
    /// The row changed but remains visible.
    Update,
    /// The row left the view.
    Delete,
}

/// A single delta entry inside a batch.
#[derive(Debug, PartialEq, Eq)]
pub struct SubscriptionDeltaEntry {
    /// Commit sequence of the transition.
    pub seq: u64,
    /// Row-level change kind.
    pub kind: DeltaKind,
    /// Identity of the affected row.
    pub row_id: RowId,
    /// The row data (absent for deletes).
    pub row: Option<DeliveredRow>,
}

/// The mathematical content of a [`SubscriptionDeltaEntry`].
pub struct DeltaEntryView {
    pub seq: u64,
    pub kind: DeltaKind,
    pub row_id: RowId,
    pub row: Option<DeliveredRowView>,
}

impl View for SubscriptionDeltaEntry {
    type V = DeltaEntryView;

    open spec fn view(&self) -> DeltaEntryView {
        DeltaEntryView {
            seq: self.seq,
            kind: self.kind,
            row_id: self.row_id,
            row: opt_view(self.row),
        }
    }
}

/// A message from the server to a client.
#[allow(inconsistent_fields)]
#[derive(Debug, PartialEq, Eq)]
pub enum ServerMessage {
    /// Server version and name.
    HandshakeResponse { version: u16, server_name: String },
    /// Outcome of `Authenticate`.
    AuthResult { ok: bool, principal: Option<Principal>, error: Option<String> },
    /// Outcome of `AttachWorld`.
    AttachResult { ok: bool, world: Option<WorldId>, error: Option<String> },
    /// Outcome of `DetachWorld`.
    DetachResult { ok: bool, error: Option<String> },
    /// One committed world tick's authoritative changes and the events
    /// emitted during it.
    TickUpdate {
        world: WorldId,
        tick: TickId,
        tx_id: TransactionId,
        changes: Vec<Change>,
        events: Vec<ReducerEvent>,
    },
    /// A subscription's full view. `request_id` is that of the originating
    /// `Subscribe` (0 for resyncs).
    SubscriptionSnapshot {
        request_id: u64,
        subscription: SubscriptionId,
        seq: u64,
        rows: Vec<DeliveredRow>,
    },
    /// One subscription delta.
    SubscriptionDelta {
        subscription: SubscriptionId,
        seq: u64,
        kind: DeltaKind,
        row_id: RowId,
        row: Option<DeliveredRow>,
    },
    /// A subscription fell behind; its view is invalid until resync.
    StaleNotification { subscription: SubscriptionId, seq: u64 },
    /// A protocol error with a stable code.
    Error { code: u16, message: String, request_id: u64 },
    /// Reply to `Ping`.
    Pong { nonce: u64 },
    /// The server is closing the connection.
    Disconnect { reason: String },
    /// The outcome of a `CallReducer`.
    ReducerResult { request_id: u64, ok: bool, value: Option<Value>, error: Option<String> },
    /// A batch of subscription deltas for one subscription in one frame.
    SubscriptionDeltaBatch {
        subscription: SubscriptionId,
        request_id: u64,
        deltas: Vec<SubscriptionDeltaEntry>,
    },
}

/// The mathematical content of a [`ServerMessage`].
#[allow(inconsistent_fields)]
pub enum ServerMessageView {
    HandshakeResponse { version: u16, server_name: Seq<char> },
    AuthResult { ok: bool, principal: Option<PrincipalView>, error: Option<Seq<char>> },
    AttachResult { ok: bool, world: Option<WorldId>, error: Option<Seq<char>> },
    DetachResult { ok: bool, error: Option<Seq<char>> },
    TickUpdate {
        world: WorldId,
        tick: TickId,
        tx_id: TransactionId,
        changes: Seq<ChangeView>,
        events: Seq<ReducerEventView>,
    },
    SubscriptionSnapshot {
        request_id: u64,
        subscription: SubscriptionId,
        seq: u64,
        rows: Seq<DeliveredRowView>,
    },
    SubscriptionDelta {
        subscription: SubscriptionId,
        seq: u64,
        kind: DeltaKind,
        row_id: RowId,
        row: Option<DeliveredRowView>,
    },
    StaleNotification { subscription: SubscriptionId, seq: u64 },
    Error { code: u16, message: Seq<char>, request_id: u64 },
    Pong { nonce: u64 },
    Disconnect { reason: Seq<char> },
    ReducerResult {
        request_id: u64,
        ok: bool,
        value: Option<ValueView>,
        error: Option<Seq<char>>,
    },
    SubscriptionDeltaBatch {
        subscription: SubscriptionId,
        request_id: u64,
        deltas: Seq<DeltaEntryView>,
    },
}

impl View for ServerMessage {
    type V = ServerMessageView;

    open spec fn view(&self) -> ServerMessageView {
        match *self {
            ServerMessage::HandshakeResponse { version, server_name } =>
                ServerMessageView::HandshakeResponse { version, server_name: server_name@ },
            ServerMessage::AuthResult { ok, principal, error } => ServerMessageView::AuthResult {
                ok,
                principal: opt_view(principal),
                error: opt_view(error),
            },
            ServerMessage::AttachResult { ok, world, error } => ServerMessageView::AttachResult {
                ok,
                world,
                error: opt_view(error),
            },
            ServerMessage::DetachResult { ok, error } => ServerMessageView::DetachResult {
                ok,
                error: opt_view(error),
            },
            ServerMessage::TickUpdate { world, tick, tx_id, changes, events } =>
                ServerMessageView::TickUpdate {
                world,
                tick,
                tx_id,
                changes: views(changes@),
                events: views(events@),
            },
            ServerMessage::SubscriptionSnapshot { request_id, subscription, seq, rows } =>
                ServerMessageView::SubscriptionSnapshot {
                request_id,
                subscription,
                seq,
                rows: views(rows@),
            },
            ServerMessage::SubscriptionDelta { subscription, seq, kind, row_id, row } =>
                ServerMessageView::SubscriptionDelta {
                subscription,
                seq,
                kind,
                row_id,
                row: opt_view(row),
            },
            ServerMessage::StaleNotification { subscription, seq } =>
                ServerMessageView::StaleNotification { subscription, seq },
            ServerMessage::Error { code, message, request_id } => ServerMessageView::Error {
                code,
                message: message@,
                request_id,
            },
            ServerMessage::Pong { nonce } => ServerMessageView::Pong { nonce },
            ServerMessage::Disconnect { reason } => ServerMessageView::Disconnect {
                reason: reason@,
            },
            ServerMessage::ReducerResult { request_id, ok, value, error } =>
                ServerMessageView::ReducerResult {
                request_id,
                ok,
                value: opt_view(value),
                error: opt_view(error),
            },
            ServerMessage::SubscriptionDeltaBatch { subscription, request_id, deltas } =>
                ServerMessageView::SubscriptionDeltaBatch {
                subscription,
                request_id,
                deltas: views(deltas@),
            },
        }
    }
}

impl Duplicate for SubscriptionDeltaEntry {
    fn duplicate(&self) -> (copy: SubscriptionDeltaEntry) {
        SubscriptionDeltaEntry {
            seq: self.seq,
            kind: self.kind,
            row_id: self.row_id,
            row: duplicate_opt(&self.row),
        }
    }
}

impl Duplicate for Principal {
    fn duplicate(&self) -> (copy: Principal) {
        self.clone()
    }
}

impl Clone for ServerMessage {
    fn clone(&self) -> (copy: Self)
        ensures
            copy@ == self@,
    {
        match self {
            ServerMessage::HandshakeResponse { version, server_name } =>
                ServerMessage::HandshakeResponse {
                version: *version,
                server_name: server_name.clone(),
            },
            ServerMessage::AuthResult { ok, principal, error } => ServerMessage::AuthResult {
                ok: *ok,
                principal: duplicate_opt(principal),
                error: duplicate_opt(error),
            },
            ServerMessage::AttachResult { ok, world, error } => ServerMessage::AttachResult {
                ok: *ok,
                world: *world,
                error: duplicate_opt(error),
            },
            ServerMessage::DetachResult { ok, error } => ServerMessage::DetachResult {
                ok: *ok,
                error: duplicate_opt(error),
            },
            ServerMessage::TickUpdate { world, tick, tx_id, changes, events } =>
                ServerMessage::TickUpdate {
                world: *world,
                tick: *tick,
                tx_id: *tx_id,
                changes: duplicate_all(changes),
                events: duplicate_all(events),
            },
            ServerMessage::SubscriptionSnapshot { request_id, subscription, seq, rows } =>
                ServerMessage::SubscriptionSnapshot {
                request_id: *request_id,
                subscription: *subscription,
                seq: *seq,
                rows: duplicate_all(rows),
            },
            ServerMessage::SubscriptionDelta { subscription, seq, kind, row_id, row } =>
                ServerMessage::SubscriptionDelta {
                subscription: *subscription,
                seq: *seq,
                kind: *kind,
                row_id: *row_id,
                row: duplicate_opt(row),
            },
            ServerMessage::StaleNotification { subscription, seq } =>
                ServerMessage::StaleNotification { subscription: *subscription, seq: *seq },
            ServerMessage::Error { code, message, request_id } => ServerMessage::Error {
                code: *code,
                message: message.clone(),
                request_id: *request_id,
            },
            ServerMessage::Pong { nonce } => ServerMessage::Pong { nonce: *nonce },
            ServerMessage::Disconnect { reason } => ServerMessage::Disconnect {
                reason: reason.clone(),
            },
            ServerMessage::ReducerResult { request_id, ok, value, error } =>
                ServerMessage::ReducerResult {
                request_id: *request_id,
                ok: *ok,
                value: duplicate_opt(value),
                error: duplicate_opt(error),
            },
            ServerMessage::SubscriptionDeltaBatch { subscription, request_id, deltas } =>
                ServerMessage::SubscriptionDeltaBatch {
                subscription: *subscription,
                request_id: *request_id,
                deltas: duplicate_all(deltas),
            },
        }
    }
}

// ---------------------------------------------------------- reducer names

/// The name of a reducer as it travels: never empty.
pub struct ReducerName {
    /// The name.
    pub name: String,
}

impl View for ReducerName {
    type V = Seq<char>;

    open spec fn view(&self) -> Seq<char> {
        self.name@
    }
}

impl Wire for ReducerName {
    open spec fn encodable(v: Seq<char>) -> bool {
        true
    }

    open spec fn faithful(v: Seq<char>) -> bool {
        v.len() > 0 && <String as Wire>::faithful(v)
    }

    open spec fn encoded(v: Seq<char>) -> Seq<u8> {
        text_encoded(v)
    }

    open spec fn decoded(bytes: Seq<u8>) -> Decoded<Seq<char>> {
        match <String as Wire>::decoded(bytes) {
            Err(e) => Err(e),
            Ok((name, rest)) => if name.len() == 0 {
                Err(ProtocolErrorView::Malformed("reducer call name must not be empty"@))
            } else {
                Ok((name, rest))
            },
        }
    }

    proof fn reads_back(v: Seq<char>, rest: Seq<u8>) {
        <String as Wire>::reads_back(v, rest);
    }

    fn put(&self, out: &mut Vec<u8>) {
        put_text(out, self.name.as_str());
    }

    fn get(cursor: &mut &[u8]) -> (result: Result<ReducerName, ProtocolError>) {
        let name = String::get(cursor)?;
        if name.as_str().is_empty() {
            return Err(malformed("reducer call name must not be empty"));
        }
        Ok(ReducerName { name })
    }
}

// ------------------------------------------------------------------ deltas

/// The tag byte of a delta kind.
pub open spec fn delta_tag(kind: DeltaKind) -> u8 {
    match kind {
        DeltaKind::Insert => 1,
        DeltaKind::Update => 2,
        DeltaKind::Delete => 3,
    }
}

impl View for DeltaKind {
    type V = DeltaKind;

    open spec fn view(&self) -> DeltaKind {
        *self
    }
}

impl Wire for DeltaKind {
    open spec fn encodable(v: DeltaKind) -> bool {
        true
    }

    open spec fn faithful(v: DeltaKind) -> bool {
        true
    }

    open spec fn encoded(v: DeltaKind) -> Seq<u8> {
        seq![delta_tag(v)]
    }

    open spec fn decoded(bytes: Seq<u8>) -> Decoded<DeltaKind> {
        match byte_decoded(bytes) {
            Err(e) => Err(e),
            Ok((tag, rest)) => if tag == 1 {
                Ok((DeltaKind::Insert, rest))
            } else if tag == 2 {
                Ok((DeltaKind::Update, rest))
            } else if tag == 3 {
                Ok((DeltaKind::Delete, rest))
            } else {
                Err(ProtocolErrorView::Malformed(tag_text("unknown delta kind tag "@, tag)))
            },
        }
    }

    proof fn reads_back(v: DeltaKind, rest: Seq<u8>) {
        <u8 as Wire>::reads_back(delta_tag(v), rest);
    }

    fn put(&self, out: &mut Vec<u8>) {
        let tag: u8 = match self {
            DeltaKind::Insert => 1,
            DeltaKind::Update => 2,
            DeltaKind::Delete => 3,
        };
        tag.put(out);
    }

    fn get(cursor: &mut &[u8]) -> (result: Result<DeltaKind, ProtocolError>) {
        let tag: u8 = u8::get(cursor)?;
        match tag {
            1 => Ok(DeltaKind::Insert),
            2 => Ok(DeltaKind::Update),
            3 => Ok(DeltaKind::Delete),
            _ => Err(bad_tag("unknown delta kind tag ", tag)),
        }
    }
}

/// The part of a delta in front of the row: sequence, kind and row identity.
pub type DeltaHead = (u64, (DeltaKind, u64));

/// The part of a delta in front of the row.
pub open spec fn delta_head(v: DeltaEntryView) -> (u64, (DeltaKind, u64)) {
    (v.seq, (v.kind, v.row_id.0))
}

impl Wire for SubscriptionDeltaEntry {
    /// A delta that is no delete carries its row.
    open spec fn encodable(v: DeltaEntryView) -> bool {
        v.kind != DeltaKind::Delete ==> v.row is Some
    }

    /// The row is the one identified, and a delete carries none.
    open spec fn faithful(v: DeltaEntryView) -> bool {
        match v.row {
            None => v.kind == DeltaKind::Delete,
            Some(row) => v.kind != DeltaKind::Delete && row.row_id == v.row_id && <Row as Wire>::faithful(
                row.row,
            ),
        }
    }

    open spec fn encoded(v: DeltaEntryView) -> Seq<u8> {
        <DeltaHead as Wire>::encoded(delta_head(v)) + if v.kind == DeltaKind::Delete {
            Seq::empty()
        } else {
            <Row as Wire>::encoded(v.row->0.row)
        }
    }

    open spec fn decoded(bytes: Seq<u8>) -> Decoded<DeltaEntryView> {
        match <DeltaHead as Wire>::decoded(bytes) {
            Err(e) => Err(e),
            Ok(((seq, (kind, id)), rest)) => if kind == DeltaKind::Delete {
                Ok((DeltaEntryView { seq, kind, row_id: RowId(id), row: None }, rest))
            } else {
                match <Row as Wire>::decoded(rest) {
                    Err(e) => Err(e),
                    Ok((row, rest)) => Ok(
                        (
                            DeltaEntryView {
                                seq,
                                kind,
                                row_id: RowId(id),
                                row: Some(DeliveredRowView { row_id: RowId(id), row }),
                            },
                            rest,
                        ),
                    ),
                }
            },
        }
    }

    proof fn reads_back(v: DeltaEntryView, rest: Seq<u8>) {
        let head = <DeltaHead as Wire>::encoded(delta_head(v));
        match v.row {
            None => {
                <DeltaHead as Wire>::reads_back(delta_head(v), rest);
                assert(Self::encoded(v) =~= head);
            },
            Some(row) => {
                let body = <Row as Wire>::encoded(row.row);
                <DeltaHead as Wire>::reads_back(delta_head(v), body + rest);
                <Row as Wire>::reads_back(row.row, rest);
                join_assoc(head, body, rest);
            },
        }
    }

    fn put(&self, out: &mut Vec<u8>) {
        put_delta(out, self.seq, self.kind, self.row_id, &self.row);
    }

    fn get(cursor: &mut &[u8]) -> (result: Result<SubscriptionDeltaEntry, ProtocolError>) {
        let (seq, (kind, id)) = <DeltaHead as Wire>::get(cursor)?;
        let row_id = RowId::from_u64(id);
        if kind == DeltaKind::Delete {
            Ok(SubscriptionDeltaEntry { seq, kind, row_id, row: None })
        } else {
            let row = Row::get(cursor)?;
            Ok(
                SubscriptionDeltaEntry {
                    seq,
                    kind,
                    row_id,
                    row: Some(DeliveredRow::new(row_id, row)),
                },
            )
        }
    }
}

fn put_delta(
    out: &mut Vec<u8>,
    seq: u64,
    kind: DeltaKind,
    row_id: RowId,
    row: &Option<DeliveredRow>,
)
    requires
        <SubscriptionDeltaEntry as Wire>::encodable(
            DeltaEntryView { seq, kind, row_id, row: opt_view(*row) },
        ),
    ensures
        final(out)@ == old(out)@ + <SubscriptionDeltaEntry as Wire>::encoded(
            DeltaEntryView { seq, kind, row_id, row: opt_view(*row) },
        ),
{
    let head: DeltaHead = (seq, (kind, row_id.as_u64()));
    head.put(out);
    let ghost v = DeltaEntryView { seq, kind, row_id, row: opt_view(*row) };
    assert(head@ == delta_head(v));
    if kind != DeltaKind::Delete {
        if let Some(delivered) = row {
            delivered.row.put(out);
            proof {
                join_assoc(
                    old(out)@,
                    <DeltaHead as Wire>::encoded(delta_head(v)),
                    <Row as Wire>::encoded(delivered.row@),
                );
            }
        }
    } else {
        assert(<SubscriptionDeltaEntry as Wire>::encoded(v) =~= <DeltaHead as Wire>::encoded(
            delta_head(v),
        ));
    }
}

// --------------------------------------------------------- client messages

/// The kind byte of a client message.
pub open spec fn client_kind(m: ClientMessageView) -> u8 {
    match m {
        ClientMessageView::Handshake { .. } => 0x01,
        ClientMessageView::Authenticate { .. } => 0x02,
        ClientMessageView::AttachWorld { .. } => 0x03,
        ClientMessageView::InputFrame { .. } => 0x04,
        ClientMessageView::Subscribe { .. } => 0x05,
        ClientMessageView::Unsubscribe { .. } => 0x06,
        ClientMessageView::Resync { .. } => 0x07,
        ClientMessageView::Ping { .. } => 0x08,
        ClientMessageView::DetachWorld => 0x09,
        ClientMessageView::CallReducer { .. } => 0x0A,
    }
}

/// A handshake payload.
pub type HandshakeWire = (u16, String);

/// A subscribe payload.
pub type SubscribeWire = (u64, Query);

/// A reducer call payload.
pub type CallWire = (u64, (ReducerName, ReducerArgs));

/// The payload of a client message.
pub open spec fn client_payload(m: ClientMessageView) -> Seq<u8> {
    match m {
        ClientMessageView::Handshake { version, name } => <HandshakeWire as Wire>::encoded(
            (version, name),
        ),
        ClientMessageView::Authenticate { credentials } => <String as Wire>::encoded(credentials),
        ClientMessageView::AttachWorld { world } => <u64 as Wire>::encoded(world.0),
        ClientMessageView::InputFrame { frame } => <InputFrame as Wire>::encoded(frame),
        ClientMessageView::Subscribe { request_id, query } => <SubscribeWire as Wire>::encoded(
            (request_id, query),
        ),
        ClientMessageView::Unsubscribe { subscription } => <u64 as Wire>::encoded(subscription.0),
        ClientMessageView::Resync { subscription } => <u64 as Wire>::encoded(subscription.0),
        ClientMessageView::Ping { nonce } => <u64 as Wire>::encoded(nonce),
        ClientMessageView::DetachWorld => Seq::empty(),
        ClientMessageView::CallReducer { request_id, reducer, args } => <CallWire as Wire>::encoded(
            (request_id, (reducer, args)),
        ),
    }
}

/// A client message whose text and sequence lengths fit their length fields,
/// whose command kinds, table and reducer names are not empty and whose
/// arguments are in the order of their names: every message that can be sent.
pub open spec fn client_faithful(m: ClientMessageView) -> bool {
    match m {
        ClientMessageView::Handshake { version, name } => <String as Wire>::faithful(name),
        ClientMessageView::Authenticate { credentials } => <String as Wire>::faithful(credentials),
        ClientMessageView::InputFrame { frame } => <InputFrame as Wire>::faithful(frame),
        ClientMessageView::Subscribe { request_id, query } => <Query as Wire>::faithful(query),
        ClientMessageView::CallReducer { request_id, reducer, args } =>
            <ReducerName as Wire>::faithful(reducer) && <ReducerArgs as Wire>::faithful(args),
        _ => true,
    }
}

/// The client message of a kind and payload.
pub open spec fn client_from(kind: u8, payload: Seq<u8>) -> Result<
    ClientMessageView,
    ProtocolErrorView,
> {
    if kind == 0x01 {
        match whole_decoded::<HandshakeWire>(payload) {
            Err(e) => Err(e),
            Ok((version, name)) => Ok(ClientMessageView::Handshake { version, name }),
        }
    } else if kind == 0x02 {
        match whole_decoded::<String>(payload) {
            Err(e) => Err(e),
            Ok(credentials) => Ok(ClientMessageView::Authenticate { credentials }),
        }
    } else if kind == 0x03 {
        match whole_decoded::<u64>(payload) {
            Err(e) => Err(e),
            Ok(id) => Ok(ClientMessageView::AttachWorld { world: WorldId(id) }),
        }
    } else if kind == 0x04 {
        match whole_decoded::<InputFrame>(payload) {
            Err(e) => Err(e),
            Ok(frame) => Ok(ClientMessageView::InputFrame { frame }),
        }
    } else if kind == 0x05 {
        match whole_decoded::<SubscribeWire>(payload) {
            Err(e) => Err(e),
            Ok((request_id, query)) => Ok(ClientMessageView::Subscribe { request_id, query }),
        }
    } else if kind == 0x06 {
        match whole_decoded::<u64>(payload) {
            Err(e) => Err(e),
            Ok(id) => Ok(ClientMessageView::Unsubscribe { subscription: SubscriptionId(id) }),
        }
    } else if kind == 0x07 {
        match whole_decoded::<u64>(payload) {
            Err(e) => Err(e),
            Ok(id) => Ok(ClientMessageView::Resync { subscription: SubscriptionId(id) }),
        }
    } else if kind == 0x08 {
        match whole_decoded::<u64>(payload) {
            Err(e) => Err(e),
            Ok(nonce) => Ok(ClientMessageView::Ping { nonce }),
        }
    } else if kind == 0x09 {
        match whole_decoded::<()>(payload) {
            Err(e) => Err(e),
            Ok(_) => Ok(ClientMessageView::DetachWorld),
        }
    } else if kind == 0x0A {
        match whole_decoded::<CallWire>(payload) {
            Err(e) => Err(e),
            Ok((request_id, (reducer, args))) => Ok(
                ClientMessageView::CallReducer { request_id, reducer, args },
            ),
        }
    } else {
        Err(ProtocolErrorView::UnknownKind(kind))
    }
}

/// What frame bytes decode as, read as a client message.
pub open spec fn client_decoded(frame: Seq<u8>, max_payload: u32) -> Result<
    ClientMessageView,
    ProtocolErrorView,
> {
    match frame_decoded(frame, max_payload) {
        Err(e) => Err(e),
        Ok((kind, payload)) => client_from(kind, payload),
    }
}

/// Encodes a client message into one bounded frame.
pub fn encode_client(message: &ClientMessage, max_payload: u32) -> (frame: Result<
    Vec<u8>,
    NetworkError,
>)
    ensures
        builds_as(
            frame,
            frame_built(client_kind(message@), client_payload(message@), max_payload),
        ),
{
    let mut payload: Vec<u8> = Vec::new();
    let kind: u8 = match message {
        ClientMessage::Handshake { version, name } => {
            version.put(&mut payload);
            name.put(&mut payload);
            KIND_HANDSHAKE
        },
        ClientMessage::Authenticate { credentials } => {
            credentials.put(&mut payload);
            KIND_AUTHENTICATE
        },
        ClientMessage::AttachWorld { world } => {
            world.as_u64().put(&mut payload);
            KIND_ATTACH
        },
        ClientMessage::InputFrame { frame } => {
            frame.put(&mut payload);
            KIND_INPUT_FRAME
        },
        ClientMessage::Subscribe { request_id, query } => {
            request_id.put(&mut payload);
            query.put(&mut payload);
            KIND_SUBSCRIBE
        },
        ClientMessage::Unsubscribe { subscription } => {
            subscription.as_u64().put(&mut payload);
            KIND_UNSUBSCRIBE
        },
        ClientMessage::Resync { subscription } => {
            subscription.as_u64().put(&mut payload);
            KIND_RESYNC
        },
        ClientMessage::Ping { nonce } => {
            nonce.put(&mut payload);
            KIND_PING
        },
        ClientMessage::DetachWorld => KIND_DETACH,
        ClientMessage::CallReducer { request_id, reducer, args } => {
            request_id.put(&mut payload);
            put_text(&mut payload, reducer.as_str());
            args.put(&mut payload);
            KIND_CALL_REDUCER
        },
    };
    assert(payload@ =~= client_payload(message@));
    build_frame(kind, payload.as_slice(), max_payload)
}

/// Decodes a complete frame into a client message.
pub fn decode_client(frame: &[u8], max_payload: u32) -> (result: Result<
    ClientMessage,
    ProtocolError,
>)
    ensures
        match client_decoded(frame@, max_payload) {
            Ok(m) => result is Ok && result->Ok_0@ == m,
            Err(e) => result is Err && result->Err_0@ == e,
        },
{
    let (kind, payload) = decode_frame(frame, max_payload)?;
    let bytes = payload.as_slice();
    match kind {
        KIND_HANDSHAKE => {
            let (version, name) = get_whole::<HandshakeWire>(bytes)?;
            Ok(ClientMessage::Handshake { version, name })
        },
        KIND_AUTHENTICATE => {
            let credentials = get_whole::<String>(bytes)?;
            Ok(ClientMessage::Authenticate { credentials })
        },
        KIND_ATTACH => {
            let id: u64 = get_whole::<u64>(bytes)?;
            Ok(ClientMessage::AttachWorld { world: WorldId::from_u64(id) })
        },
        KIND_INPUT_FRAME => {
            let frame = get_whole::<InputFrame>(bytes)?;
            Ok(ClientMessage::InputFrame { frame })
        },
        KIND_SUBSCRIBE => {
            let (request_id, query) = get_whole::<SubscribeWire>(bytes)?;
            Ok(ClientMessage::Subscribe { request_id, query })
        },
        KIND_UNSUBSCRIBE => {
            let id: u64 = get_whole::<u64>(bytes)?;
            Ok(ClientMessage::Unsubscribe { subscription: SubscriptionId::from_u64(id) })
        },
        KIND_RESYNC => {
            let id: u64 = get_whole::<u64>(bytes)?;
            Ok(ClientMessage::Resync { subscription: SubscriptionId::from_u64(id) })
        },
        KIND_PING => {
            let nonce: u64 = get_whole::<u64>(bytes)?;
            Ok(ClientMessage::Ping { nonce })
        },
        KIND_DETACH => {
            get_whole::<()>(bytes)?;
            Ok(ClientMessage::DetachWorld)
        },
        KIND_CALL_REDUCER => {
            let (request_id, (reducer, args)) = get_whole::<CallWire>(bytes)?;
            Ok(ClientMessage::CallReducer { request_id, reducer: reducer.name, args })
        },
        _ => Err(ProtocolError::UnknownKind(kind)),
    }
}

/// Reading back a client message: the frame of any message within the
/// payload limit decodes as that message.
pub proof fn client_reads_back(m: ClientMessageView, max_payload: u32)
    requires
        client_faithful(m),
        client_payload(m).len() <= max_payload,
    ensures
        client_decoded(frame_bytes(client_kind(m), client_payload(m)), max_payload) == Ok::<
            ClientMessageView,
            ProtocolErrorView,
        >(m),
{
    frame_reads_back(client_kind(m), client_payload(m), max_payload);
    match m {
        ClientMessageView::Handshake { version, name } => {
            whole_reads_back::<HandshakeWire>((version, name));
        },
        ClientMessageView::Authenticate { credentials } => {
            whole_reads_back::<String>(credentials);
        },
        ClientMessageView::AttachWorld { world } => {
            whole_reads_back::<u64>(world.0);
        },
        ClientMessageView::InputFrame { frame } => {
            whole_reads_back::<InputFrame>(frame);
        },
        ClientMessageView::Subscribe { request_id, query } => {
            whole_reads_back::<SubscribeWire>((request_id, query));
        },
        ClientMessageView::Unsubscribe { subscription } => {
            whole_reads_back::<u64>(subscription.0);
        },
        ClientMessageView::Resync { subscription } => {
            whole_reads_back::<u64>(subscription.0);
        },
        ClientMessageView::Ping { nonce } => {
            whole_reads_back::<u64>(nonce);
        },
        ClientMessageView::DetachWorld => {
            whole_reads_back::<()>(());
        },
        ClientMessageView::CallReducer { request_id, reducer, args } => {
            whole_reads_back::<CallWire>((request_id, (reducer, args)));
        },
    }
}

// --------------------------------------------------------- server messages

/// The kind byte of a server message.
pub open spec fn server_kind(m: ServerMessageView) -> u8 {
    match m {
        ServerMessageView::HandshakeResponse { .. } => 0x81,
        ServerMessageView::AuthResult { .. } => 0x82,
        ServerMessageView::AttachResult { .. } => 0x83,
        ServerMessageView::TickUpdate { .. } => 0x84,
        ServerMessageView::SubscriptionSnapshot { .. } => 0x85,
        ServerMessageView::SubscriptionDelta { .. } => 0x86,
        ServerMessageView::StaleNotification { .. } => 0x87,
        ServerMessageView::Error { .. } => 0x88,
        ServerMessageView::Pong { .. } => 0x89,
        ServerMessageView::Disconnect { .. } => 0x8A,
        ServerMessageView::DetachResult { .. } => 0x8B,
        ServerMessageView::ReducerResult { .. } => 0x8C,
        ServerMessageView::SubscriptionDeltaBatch { .. } => 0x8D,
    }
}

/// An authentication outcome payload: the principal's id and name.
pub type AuthWire = Outcome<(u64, String)>;

/// An attach outcome payload: the world.
pub type AttachWire = Outcome<u64>;

/// A detach outcome payload.
pub type DetachWire = Outcome<()>;

/// A tick update payload: world, tick, transaction, changes, events.
pub type TickWire = (u64, (u64, (u64, (Counted<Change>, Counted<ReducerEvent>))));

/// A snapshot payload: request, subscription, sequence, rows.
pub type SnapshotWire = (u64, (u64, (u64, Counted<DeliveredRow>)));

/// A delta payload: the subscription, then the delta.
pub type DeltaWire = (u64, SubscriptionDeltaEntry);

/// A stale payload: subscription, sequence.
pub type StaleWire = (u64, u64);

/// An error payload: code, message, request.
pub type ErrorWire = (u16, (String, u64));

/// A reducer result payload: the request, then its outcome.
pub type ResultWire = (u64, Outcome<Value>);

/// A delta batch payload: subscription, request, deltas.
pub type BatchWire = (u64, (u64, Counted<SubscriptionDeltaEntry>));

/// The raw number of a world.
pub open spec fn world_raw(world: WorldId) -> u64 {
    world.0
}

/// The reason given, or the usual one.
pub open spec fn reason_or(error: Option<Seq<char>>, usual: Seq<char>) -> Seq<char> {
    match error {
        Some(reason) => reason,
        None => usual,
    }
}

/// The payload of a server message. A refusal without a reason gets the
/// usual one.
pub open spec fn server_payload(m: ServerMessageView) -> Seq<u8> {
    match m {
        ServerMessageView::HandshakeResponse { version, server_name } =>
            <HandshakeWire as Wire>::encoded((version, server_name)),
        ServerMessageView::AuthResult { ok, principal, error } => <AuthWire as Wire>::encoded(
            if ok {
                OutcomeView::Done((principal->0.id, principal->0.name))
            } else {
                OutcomeView::Refused(reason_or(error, "authentication failed"@))
            },
        ),
        ServerMessageView::AttachResult { ok, world, error } => <AttachWire as Wire>::encoded(
            if ok {
                OutcomeView::Done(world_raw(world->0))
            } else {
                OutcomeView::Refused(reason_or(error, "attach failed"@))
            },
        ),
        ServerMessageView::DetachResult { ok, error } => <DetachWire as Wire>::encoded(
            if ok {
                OutcomeView::Done(())
            } else {
                OutcomeView::Refused(reason_or(error, "detach failed"@))
            },
        ),
        ServerMessageView::TickUpdate { world, tick, tx_id, changes, events } =>
            <TickWire as Wire>::encoded((world.0, (tick.0, (tx_id.0, (changes, events))))),
        ServerMessageView::SubscriptionSnapshot { request_id, subscription, seq, rows } =>
            <SnapshotWire as Wire>::encoded((request_id, (subscription.0, (seq, rows)))),
        ServerMessageView::SubscriptionDelta { subscription, seq, kind, row_id, row } =>
            <DeltaWire as Wire>::encoded((subscription.0, DeltaEntryView { seq, kind, row_id, row })),
        ServerMessageView::StaleNotification { subscription, seq } => <StaleWire as Wire>::encoded(
            (subscription.0, seq),
        ),
        ServerMessageView::Error { code, message, request_id } => <ErrorWire as Wire>::encoded(
            (code, (message, request_id)),
        ),
        ServerMessageView::Pong { nonce } => <u64 as Wire>::encoded(nonce),
        ServerMessageView::Disconnect { reason } => <String as Wire>::encoded(reason),
        ServerMessageView::ReducerResult { request_id, ok, value, error } =>
            <ResultWire as Wire>::encoded(
            (
                request_id,
                if ok {
                    OutcomeView::Done(value->0)
                } else {
                    OutcomeView::Refused(reason_or(error, "reducer call failed"@))
                },
            ),
        ),
        ServerMessageView::SubscriptionDeltaBatch { subscription, request_id, deltas } =>
            <BatchWire as Wire>::encoded((subscription.0, (request_id, deltas))),
    }
}

/// A server message that holds what its kind promises: a granted request
/// carries its result, and an insert or update delta carries its row.
pub open spec fn server_encodable(m: ServerMessageView) -> bool {
    match m {
        ServerMessageView::AuthResult { ok, principal, .. } => ok ==> principal is Some,
        ServerMessageView::AttachResult { ok, world, .. } => ok ==> world is Some,
        ServerMessageView::ReducerResult { ok, value, .. } => ok ==> value is Some,
        ServerMessageView::SubscriptionDelta { kind, row, .. } => kind != DeltaKind::Delete
            ==> row is Some,
        ServerMessageView::SubscriptionDeltaBatch { deltas, .. } => forall|i: int|
            0 <= i < deltas.len() ==> <SubscriptionDeltaEntry as Wire>::encodable(
                #[trigger] deltas[i],
            ),
        _ => true,
    }
}

/// A server message in the form the server sends: a granted request carries
/// its result alone, a refused one its reason alone, a delta the row it
/// identifies and a delete none; and whose lengths fit their length fields.
pub open spec fn server_faithful(m: ServerMessageView) -> bool {
    match m {
        ServerMessageView::HandshakeResponse { server_name, .. } => <String as Wire>::faithful(
            server_name,
        ),
        ServerMessageView::AuthResult { ok, principal, error } => if ok {
            error is None && principal is Some && <String as Wire>::faithful(principal->0.name)
        } else {
            principal is None && error is Some && <String as Wire>::faithful(error->0)
        },
        ServerMessageView::AttachResult { ok, world, error } => if ok {
            error is None && world is Some
        } else {
            world is None && error is Some && <String as Wire>::faithful(error->0)
        },
        ServerMessageView::DetachResult { ok, error } => if ok {
            error is None
        } else {
            error is Some && <String as Wire>::faithful(error->0)
        },
        ServerMessageView::TickUpdate { changes, events, .. } =>
            <Counted<Change> as Wire>::faithful(changes) && <Counted<
            ReducerEvent,
        > as Wire>::faithful(events),
        ServerMessageView::SubscriptionSnapshot { rows, .. } => <Counted<
            DeliveredRow,
        > as Wire>::faithful(rows),
        ServerMessageView::SubscriptionDelta { seq, kind, row_id, row, .. } =>
            <SubscriptionDeltaEntry as Wire>::faithful(DeltaEntryView { seq, kind, row_id, row }),
        ServerMessageView::Error { message, .. } => <String as Wire>::faithful(message),
        ServerMessageView::Disconnect { reason } => <String as Wire>::faithful(reason),
        ServerMessageView::ReducerResult { ok, value, error, .. } => if ok {
            error is None && value is Some && <Value as Wire>::faithful(value->0)
        } else {
            value is None && error is Some && <String as Wire>::faithful(error->0)
        },
        ServerMessageView::SubscriptionDeltaBatch { deltas, .. } => <Counted<
            SubscriptionDeltaEntry,
        > as Wire>::faithful(deltas),
        _ => true,
    }
}

/// The server message of a kind and payload.
pub open spec fn server_from(kind: u8, payload: Seq<u8>) -> Result<
    ServerMessageView,
    ProtocolErrorView,
> {
    if kind == 0x81 {
        match whole_decoded::<HandshakeWire>(payload) {
            Err(e) => Err(e),
            Ok((version, server_name)) => Ok(
                ServerMessageView::HandshakeResponse { version, server_name },
            ),
        }
    } else if kind == 0x82 {
        match whole_decoded::<AuthWire>(payload) {
            Err(e) => Err(e),
            Ok(OutcomeView::Done((id, name))) => Ok(
                ServerMessageView::AuthResult {
                    ok: true,
                    principal: Some(PrincipalView { id, name }),
                    error: None,
                },
            ),
            Ok(OutcomeView::Refused(reason)) => Ok(
                ServerMessageView::AuthResult { ok: false, principal: None, error: Some(reason) },
            ),
        }
    } else if kind == 0x83 {
        match whole_decoded::<AttachWire>(payload) {
            Err(e) => Err(e),
            Ok(OutcomeView::Done(world)) => Ok(
                ServerMessageView::AttachResult {
                    ok: true,
                    world: Some(WorldId(world)),
                    error: None,
                },
            ),
            Ok(OutcomeView::Refused(reason)) => Ok(
                ServerMessageView::AttachResult { ok: false, world: None, error: Some(reason) },
            ),
        }
    } else if kind == 0x84 {
        match whole_decoded::<TickWire>(payload) {
            Err(e) => Err(e),
            Ok((world, (tick, (tx_id, (changes, events))))) => Ok(
                ServerMessageView::TickUpdate {
                    world: WorldId(world),
                    tick: TickId(tick),
                    tx_id: TransactionId(tx_id),
                    changes,
                    events,
                },
            ),
        }
    } else if kind == 0x85 {
        match whole_decoded::<SnapshotWire>(payload) {
            Err(e) => Err(e),
            Ok((request_id, (subscription, (seq, rows)))) => Ok(
                ServerMessageView::SubscriptionSnapshot {
                    request_id,
                    subscription: SubscriptionId(subscription),
                    seq,
                    rows,
                },
            ),
        }
    } else if kind == 0x86 {
        match whole_decoded::<DeltaWire>(payload) {
            Err(e) => Err(e),
            Ok((subscription, delta)) => Ok(
                ServerMessageView::SubscriptionDelta {
                    subscription: SubscriptionId(subscription),
                    seq: delta.seq,
                    kind: delta.kind,
                    row_id: delta.row_id,
                    row: delta.row,
                },
            ),
        }
    } else if kind == 0x87 {
        match whole_decoded::<StaleWire>(payload) {
            Err(e) => Err(e),
            Ok((subscription, seq)) => Ok(
                ServerMessageView::StaleNotification {
                    subscription: SubscriptionId(subscription),
                    seq,
                },
            ),
        }
    } else if kind == 0x88 {
        match whole_decoded::<ErrorWire>(payload) {
            Err(e) => Err(e),
            Ok((code, (message, request_id))) => Ok(
                ServerMessageView::Error { code, message, request_id },
            ),
        }
    } else if kind == 0x89 {
        match whole_decoded::<u64>(payload) {
            Err(e) => Err(e),
            Ok(nonce) => Ok(ServerMessageView::Pong { nonce }),
        }
    } else if kind == 0x8A {
        match whole_decoded::<String>(payload) {
            Err(e) => Err(e),
            Ok(reason) => Ok(ServerMessageView::Disconnect { reason }),
        }
    } else if kind == 0x8B {
        match whole_decoded::<DetachWire>(payload) {
            Err(e) => Err(e),
            Ok(OutcomeView::Done(_)) => Ok(
                ServerMessageView::DetachResult { ok: true, error: None },
            ),
            Ok(OutcomeView::Refused(reason)) => Ok(
                ServerMessageView::DetachResult { ok: false, error: Some(reason) },
            ),
        }
    } else if kind == 0x8C {
        match whole_decoded::<ResultWire>(payload) {
            Err(e) => Err(e),
            Ok((request_id, OutcomeView::Done(value))) => Ok(
                ServerMessageView::ReducerResult {
                    request_id,
                    ok: true,
                    value: Some(value),
                    error: None,
                },
            ),
            Ok((request_id, OutcomeView::Refused(reason))) => Ok(
                ServerMessageView::ReducerResult {
                    request_id,
                    ok: false,
                    value: None,
                    error: Some(reason),
                },
            ),
        }
    } else if kind == 0x8D {
        match whole_decoded::<BatchWire>(payload) {
            Err(e) => Err(e),
            Ok((subscription, (request_id, deltas))) => Ok(
                ServerMessageView::SubscriptionDeltaBatch {
                    subscription: SubscriptionId(subscription),
                    request_id,
                    deltas,
                },
            ),
        }
    } else {
        Err(ProtocolErrorView::UnknownKind(kind))
    }
}

/// What frame bytes decode as, read as a server message.
pub open spec fn server_decoded(frame: Seq<u8>, max_payload: u32) -> Result<
    ServerMessageView,
    ProtocolErrorView,
> {
    match frame_decoded(frame, max_payload) {
        Err(e) => Err(e),
        Ok((kind, payload)) => server_from(kind, payload),
    }
}

/// Appends a refusal: the reason given, or the usual one.
fn put_refusal(out: &mut Vec<u8>, error: &Option<String>, usual: &str)
    ensures
        final(out)@ == old(out)@ + (<bool as Wire>::encoded(false) + text_encoded(
            reason_or(opt_view(*error), usual@),
        )),
{
    false.put(out);
    match error {
        Some(reason) => {
            put_text(out, reason.as_str());
        },
        None => {
            put_text(out, usual);
        },
    }
    proof {
        join_assoc(
            old(out)@,
            <bool as Wire>::encoded(false),
            text_encoded(reason_or(opt_view(*error), usual@)),
        );
    }
}

/// The frame of a server message, or why there is none.
#[verifier::opaque]
pub open spec fn server_frame(m: ServerMessageView, max_payload: u32) -> Result<
    Seq<u8>,
    NetworkErrorView,
> {
    frame_built(server_kind(m), server_payload(m), max_payload)
}

/// Encodes a server message into one bounded frame.
pub fn encode_server(message: &ServerMessage, max_payload: u32) -> (frame: Result<
    Vec<u8>,
    NetworkError,
>)
    requires
        server_encodable(message@),
    ensures
        builds_as(frame, server_frame(message@, max_payload)),
        builds_as(
            frame,
            frame_built(server_kind(message@), server_payload(message@), max_payload),
        ),
{
    proof {
        reveal(server_frame);
    }
    let mut payload: Vec<u8> = Vec::new();
    let kind: u8 = match message {
        ServerMessage::HandshakeResponse { version, server_name } => {
            version.put(&mut payload);
            server_name.put(&mut payload);
            KIND_HANDSHAKE_RESPONSE
        },
        ServerMessage::AuthResult { ok, principal, error } => {
            if *ok {
                if let Some(principal) = principal {
                    true.put(&mut payload);
                    principal.id().put(&mut payload);
                    put_text(&mut payload, principal.name());
                }
            } else {
                put_refusal(&mut payload, error, "authentication failed");
            }
            KIND_AUTH_RESULT
        },
        ServerMessage::AttachResult { ok, world, error } => {
            if *ok {
                if let Some(world) = world {
                    true.put(&mut payload);
                    world.as_u64().put(&mut payload);
                }
            } else {
                put_refusal(&mut payload, error, "attach failed");
            }
            KIND_ATTACH_RESULT
        },
        ServerMessage::DetachResult { ok, error } => {
            if *ok {
                true.put(&mut payload);
            } else {
                put_refusal(&mut payload, error, "detach failed");
            }
            KIND_DETACH_RESULT
        },
        ServerMessage::TickUpdate { world, tick, tx_id, changes, events } => {
            world.as_u64().put(&mut payload);
            tick.as_u64().put(&mut payload);
            tx_id.as_u64().put(&mut payload);
            put_counted(&mut payload, changes.as_slice());
            put_counted(&mut payload, events.as_slice());
            KIND_TICK_UPDATE
        },
        ServerMessage::SubscriptionSnapshot { request_id, subscription, seq, rows } => {
            request_id.put(&mut payload);
            subscription.as_u64().put(&mut payload);
            seq.put(&mut payload);
            put_counted(&mut payload, rows.as_slice());
            KIND_SUB_SNAPSHOT
        },
        ServerMessage::SubscriptionDelta { subscription, seq, kind, row_id, row } => {
            subscription.as_u64().put(&mut payload);
            put_delta(&mut payload, *seq, *kind, *row_id, row);
            KIND_SUB_DELTA
        },
        ServerMessage::StaleNotification { subscription, seq } => {
            subscription.as_u64().put(&mut payload);
            seq.put(&mut payload);
            KIND_STALE
        },
        ServerMessage::Error { code, message, request_id } => {
            code.put(&mut payload);
            message.put(&mut payload);
            request_id.put(&mut payload);
            KIND_ERROR
        },
        ServerMessage::Pong { nonce } => {
            nonce.put(&mut payload);
            KIND_PONG
        },
        ServerMessage::Disconnect { reason } => {
            reason.put(&mut payload);
            KIND_DISCONNECT
        },
        ServerMessage::ReducerResult { request_id, ok, value, error } => {
            request_id.put(&mut payload);
            if *ok {
                if let Some(value) = value {
                    true.put(&mut payload);
                    value.put(&mut payload);
                }
            } else {
                put_refusal(&mut payload, error, "reducer call failed");
            }
            KIND_REDUCER_RESULT
        },
        ServerMessage::SubscriptionDeltaBatch { subscription, request_id, deltas } => {
            subscription.as_u64().put(&mut payload);
            request_id.put(&mut payload);
            put_counted(&mut payload, deltas.as_slice());
            KIND_SUB_DELTA_BATCH
        },
    };
    assert(payload@ =~= server_payload(message@));
    build_frame(kind, payload.as_slice(), max_payload)
}

/// Decodes a complete frame into a server message.
pub fn decode_server(frame: &[u8], max_payload: u32) -> (result: Result<
    ServerMessage,
    ProtocolError,
>)
    ensures
        match server_decoded(frame@, max_payload) {
            Ok(m) => result is Ok && result->Ok_0@ == m,
            Err(e) => result is Err && result->Err_0@ == e,
        },
{
    let (kind, payload) = decode_frame(frame, max_payload)?;
    let bytes = payload.as_slice();
    match kind {
        KIND_HANDSHAKE_RESPONSE => {
            let (version, server_name) = get_whole::<HandshakeWire>(bytes)?;
            Ok(ServerMessage::HandshakeResponse { version, server_name })
        },
        KIND_AUTH_RESULT => match get_whole::<AuthWire>(bytes)? {
            Outcome::Done((id, name)) => Ok(
                ServerMessage::AuthResult {
                    ok: true,
                    principal: Some(Principal::new(id, name.as_str())),
                    error: None,
                },
            ),
            Outcome::Refused(reason) => Ok(
                ServerMessage::AuthResult { ok: false, principal: None, error: Some(reason) },
            ),
        },
        KIND_ATTACH_RESULT => match get_whole::<AttachWire>(bytes)? {
            Outcome::Done(world) => Ok(
                ServerMessage::AttachResult {
                    ok: true,
                    world: Some(WorldId::from_u64(world)),
                    error: None,
                },
            ),
            Outcome::Refused(reason) => Ok(
                ServerMessage::AttachResult { ok: false, world: None, error: Some(reason) },
            ),
        },
        KIND_DETACH_RESULT => match get_whole::<DetachWire>(bytes)? {
            Outcome::Done(_) => Ok(ServerMessage::DetachResult { ok: true, error: None }),
            Outcome::Refused(reason) => Ok(
                ServerMessage::DetachResult { ok: false, error: Some(reason) },
            ),
        },
        KIND_TICK_UPDATE => {
            let (world, (tick, (tx_id, (changes, events)))) = get_whole::<TickWire>(bytes)?;
            Ok(
                ServerMessage::TickUpdate {
                    world: WorldId::from_u64(world),
                    tick: TickId::from_u64(tick),
                    tx_id: TransactionId::from_u64(tx_id),
                    changes: changes.items,
                    events: events.items,
                },
            )
        },
        KIND_SUB_SNAPSHOT => {
            let (request_id, (subscription, (seq, rows))) = get_whole::<SnapshotWire>(bytes)?;
            Ok(
                ServerMessage::SubscriptionSnapshot {
                    request_id,
                    subscription: SubscriptionId::from_u64(subscription),
                    seq,
                    rows: rows.items,
                },
            )
        },
        KIND_SUB_DELTA => {
            let (subscription, delta) = get_whole::<DeltaWire>(bytes)?;
            Ok(
                ServerMessage::SubscriptionDelta {
                    subscription: SubscriptionId::from_u64(subscription),
                    seq: delta.seq,
                    kind: delta.kind,
                    row_id: delta.row_id,
                    row: delta.row,
                },
            )
        },
        KIND_STALE => {
            let (subscription, seq) = get_whole::<StaleWire>(bytes)?;
            Ok(
                ServerMessage::StaleNotification {
                    subscription: SubscriptionId::from_u64(subscription),
                    seq,
                },
            )
        },
        KIND_ERROR => {
            let (code, (message, request_id)) = get_whole::<ErrorWire>(bytes)?;
            Ok(ServerMessage::Error { code, message, request_id })
        },
        KIND_PONG => {
            let nonce: u64 = get_whole::<u64>(bytes)?;
            Ok(ServerMessage::Pong { nonce })
        },
        KIND_DISCONNECT => {
            let reason = get_whole::<String>(bytes)?;
            Ok(ServerMessage::Disconnect { reason })
        },
        KIND_REDUCER_RESULT => {
            let (request_id, outcome) = get_whole::<ResultWire>(bytes)?;
            match outcome {
                Outcome::Done(value) => Ok(
                    ServerMessage::ReducerResult {
                        request_id,
                        ok: true,
                        value: Some(value),
                        error: None,
                    },
                ),
                Outcome::Refused(reason) => Ok(
                    ServerMessage::ReducerResult {
                        request_id,
                        ok: false,
                        value: None,
                        error: Some(reason),
                    },
                ),
            }
        },
        KIND_SUB_DELTA_BATCH => {
            let (subscription, (request_id, deltas)) = get_whole::<BatchWire>(bytes)?;
            Ok(
                ServerMessage::SubscriptionDeltaBatch {
                    subscription: SubscriptionId::from_u64(subscription),
                    request_id,
                    deltas: deltas.items,
                },
            )
        },
        _ => Err(ProtocolError::UnknownKind(kind)),
    }
}

/// Reading back a server message: the frame of any message within the
/// payload limit decodes as that message.
pub proof fn server_reads_back(m: ServerMessageView, max_payload: u32)
    requires
        server_faithful(m),
        server_payload(m).len() <= max_payload,
    ensures
        server_encodable(m),
        server_decoded(frame_bytes(server_kind(m), server_payload(m)), max_payload) == Ok::<
            ServerMessageView,
            ProtocolErrorView,
        >(m),
{
    frame_reads_back(server_kind(m), server_payload(m), max_payload);
    match m {
        ServerMessageView::HandshakeResponse { version, server_name } => {
            whole_reads_back::<HandshakeWire>((version, server_name));
        },
        ServerMessageView::AuthResult { ok, principal, error } => {
            if ok {
                whole_reads_back::<AuthWire>(
                    OutcomeView::Done((principal->0.id, principal->0.name)),
                );
            } else {
                whole_reads_back::<AuthWire>(OutcomeView::Refused(error->0));
            }
        },
        ServerMessageView::AttachResult { ok, world, error } => {
            if ok {
                whole_reads_back::<AttachWire>(OutcomeView::Done(world_raw(world->0)));
            } else {
                whole_reads_back::<AttachWire>(OutcomeView::Refused(error->0));
            }
        },
        ServerMessageView::DetachResult { ok, error } => {
            if ok {
                whole_reads_back::<DetachWire>(OutcomeView::Done(()));
            } else {
                whole_reads_back::<DetachWire>(OutcomeView::Refused(error->0));
            }
        },
        ServerMessageView::TickUpdate { world, tick, tx_id, changes, events } => {
            whole_reads_back::<TickWire>((world.0, (tick.0, (tx_id.0, (changes, events)))));
        },
        ServerMessageView::SubscriptionSnapshot { request_id, subscription, seq, rows } => {
            whole_reads_back::<SnapshotWire>((request_id, (subscription.0, (seq, rows))));
        },
        ServerMessageView::SubscriptionDelta { subscription, seq, kind, row_id, row } => {
            whole_reads_back::<DeltaWire>(
                (subscription.0, DeltaEntryView { seq, kind, row_id, row }),
            );
        },
        ServerMessageView::StaleNotification { subscription, seq } => {
            whole_reads_back::<StaleWire>((subscription.0, seq));
        },
        ServerMessageView::Error { code, message, request_id } => {
            whole_reads_back::<ErrorWire>((code, (message, request_id)));
        },
        ServerMessageView::Pong { nonce } => {
            whole_reads_back::<u64>(nonce);
        },
        ServerMessageView::Disconnect { reason } => {
            whole_reads_back::<String>(reason);
        },
        ServerMessageView::ReducerResult { request_id, ok, value, error } => {
            if ok {
                whole_reads_back::<ResultWire>((request_id, OutcomeView::Done(value->0)));
            } else {
                whole_reads_back::<ResultWire>((request_id, OutcomeView::Refused(error->0)));
            }
        },
        ServerMessageView::SubscriptionDeltaBatch { subscription, request_id, deltas } => {
            whole_reads_back::<BatchWire>((subscription.0, (request_id, deltas)));
            assert forall|i: int| 0 <= i < deltas.len() implies <SubscriptionDeltaEntry as Wire>::encodable(
                #[trigger] deltas[i],
            ) by {
                assert(<SubscriptionDeltaEntry as Wire>::faithful(deltas[i]));
            }
        },
    }
}

} // verus!
