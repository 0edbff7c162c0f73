//! Laws of the wire format: which bytes every message consists of. Clients in
//! other languages read and write the same bytes, so the format is fixed down
//! to each tag, each width and each order of fields.

use vstd::arithmetic::power::pow;
use vstd::prelude::*;
use vstd::utf8::*;

use crate::base::change::{Change, ChangeBodyView, ChangeView, DeliveredRow, DeliveredRowView};
use crate::base::input::{InputCommand, InputCommandView, InputFrame, InputFrameView};
use crate::base::query::{
    ComparisonOp, OrderBy, OrderByView, OrderDirection, Predicate, PredicateView, Query, QueryView,
};
use crate::base::value::{Row, Value, ValueView};
use crate::network::checksum::crc32;
use crate::network::error::ProtocolErrorView;
use crate::network::frame::{
    checked_bytes, frame_bytes, frame_decoded, frame_parsed, magic, PROTOCOL_VERSION,
};
use crate::network::payload::{kind_decoded, opt_decoded, opt_encoded};
use crate::network::protocol::{
    client_from, client_kind, client_payload, server_from, server_kind, server_payload,
    ClientMessageView, DeltaEntryView, DeltaKind, ServerMessageView, SubscriptionDeltaEntry,
};
use crate::network::wire::{
    all_encoded, counted_encoded, le_bytes, le_number, text_encoded, whole_decoded, Counted, Wire,
};
use crate::reducer::args::{Entries, ReducerArgs};
use crate::reducer::event::{ReducerEvent, ReducerEventView};

verus! {

/// A number in so many bytes, the lowest first.
pub open spec fn number_bytes(x: int, n: nat) -> Seq<u8> {
    Seq::new(n, |i: int| (x / pow(256, i as nat) % 256) as u8)
}

/// A number in eight bytes.
pub open spec fn wide(x: int) -> Seq<u8> {
    number_bytes(x, 8)
}

/// A text: the length of its UTF-8 form in eight bytes, then that form.
pub open spec fn text_bytes(text: Seq<char>) -> Seq<u8> {
    wide(encode_utf8(text).len() as u64 as int) + encode_utf8(text)
}

proof fn little_endian(x: nat, n: nat)
    ensures
        le_bytes(x, n) == number_bytes(x as int, n),
    decreases n,
{
    if n == 0 {
        assert(le_bytes(x, n) =~= number_bytes(x as int, n));
    } else {
        little_endian(x / 256, (n - 1) as nat);
        let bytes = le_bytes(x, n);
        let rest = le_bytes(x / 256, (n - 1) as nat);
        assert(bytes.len() == n);
        assert forall|i: int| 0 <= i < n implies bytes[i] == #[trigger] number_bytes(
            x as int,
            n,
        )[i] by {
            vstd::arithmetic::power::lemma_pow0(256);
            if i > 0 {
                assert(bytes[i] == rest[i - 1]);
                let p = pow(256, (i - 1) as nat);
                vstd::arithmetic::power::lemma_pow_positive(256, (i - 1) as nat);
                assert(pow(256, i as nat) == 256 * p) by {
                    reveal(vstd::arithmetic::power::pow);
                }
                vstd::arithmetic::div_mod::lemma_div_denominator(x as int, 256, p);
            }
        }
        assert(bytes =~= number_bytes(x as int, n));
    }
}

/// Numbers travel in fixed widths, the lowest byte first; a truth value is one
/// byte, 1 for true; a text is its length and its UTF-8 form; an optional thing
/// is a byte, 1 if it is there, and then the thing; several things are their
/// number in eight bytes and then each of them in turn.
pub proof fn plain_things_on_the_wire(
    a: u16,
    b: u32,
    c: u64,
    flag: bool,
    text: Seq<char>,
    value: Option<ValueView>,
    values: Seq<ValueView>,
)
    ensures
        <u16 as Wire>::encoded(a) == number_bytes(a as int, 2),
        <u32 as Wire>::encoded(b) == number_bytes(b as int, 4),
        <u64 as Wire>::encoded(c) == wide(c as int),
        <bool as Wire>::encoded(flag) == seq![
            if flag {
                1u8
            } else {
                0u8
            },
        ],
        <String as Wire>::encoded(text) == text_bytes(text),
        text_encoded(text) == text_bytes(text),
        opt_encoded::<Value>(value) == match value {
            Some(v) => seq![1u8] + <Value as Wire>::encoded(v),
            None => seq![0u8],
        },
        counted_encoded::<Value>(values) == wide(values.len() as u64 as int) + all_encoded::<Value>(
            values,
        ),
        values.len() > 0 ==> all_encoded::<Value>(values) == <Value as Wire>::encoded(values[0])
            + all_encoded::<Value>(values.subrange(1, values.len() as int)),
{
    little_endian(a as nat, 2);
    little_endian(b as nat, 4);
    little_endian(c as nat, 8);
    little_endian(encode_utf8(text).len() as u64 as nat, 8);
    little_endian(values.len() as u64 as nat, 8);
    if values.len() > 0 {
        assert(values.drop_first() =~= values.subrange(1, values.len() as int));
    }
}

/// The signed number that eight bytes hold, as a number from 0.
pub open spec fn as_unsigned(v: int) -> int {
    if v < 0 {
        v + 0x1_0000_0000_0000_0000
    } else {
        v
    }
}

/// A value is a tag byte, from 0 to 6 by its type, and then the value: a truth
/// value as one byte, every number in eight, a text as texts are.
pub proof fn values_on_the_wire(v: ValueView)
    ensures
        <Value as Wire>::encoded(v) == match v {
            ValueView::Bool(b) => seq![
                0u8,
                if b {
                    1u8
                } else {
                    0u8
                },
            ],
            ValueView::I32(n) => seq![1u8] + wide(as_unsigned(n as int)),
            ValueView::I64(n) => seq![2u8] + wide(as_unsigned(n as int)),
            ValueView::U32(n) => seq![3u8] + wide(n as int),
            ValueView::U64(n) => seq![4u8] + wide(n as int),
            ValueView::F64(bits) => seq![5u8] + wide(bits as int),
            ValueView::Text(s) => seq![6u8] + text_bytes(s),
        },
{
    match v {
        ValueView::Bool(b) => {
            assert(<Value as Wire>::encoded(v) =~= seq![
                0u8,
                if b {
                    1u8
                } else {
                    0u8
                },
            ]);
        },
        ValueView::I32(n) => {
            little_endian(as_unsigned(n as int) as nat, 8);
        },
        ValueView::I64(n) => {
            little_endian(as_unsigned(n as int) as nat, 8);
        },
        ValueView::U32(n) => {
            little_endian(n as nat, 8);
        },
        ValueView::U64(n) => {
            little_endian(n as nat, 8);
        },
        ValueView::F64(bits) => {
            little_endian(bits as nat, 8);
        },
        ValueView::Text(s) => {
            little_endian(encode_utf8(s).len() as u64 as nat, 8);
        },
    }
}

/// A row is its values, counted; a delivered row its id and then the row; an
/// event its name and its payload; a command its source, its kind and its
/// optional payload; an input frame its tick and its commands, counted.
pub proof fn records_on_the_wire(
    row: Seq<ValueView>,
    delivered: DeliveredRowView,
    event: ReducerEventView,
    command: InputCommandView,
    frame: InputFrameView,
    args: Entries,
)
    ensures
        <Row as Wire>::encoded(row) == wide(row.len() as u64 as int) + all_encoded::<Value>(row),
        <DeliveredRow as Wire>::encoded(delivered) == wide(delivered.row_id.0 as int)
            + <Row as Wire>::encoded(delivered.row),
        <ReducerEvent as Wire>::encoded(event) == text_bytes(event.name)
            + <Value as Wire>::encoded(event.payload),
        <InputCommand as Wire>::encoded(command) == wide(command.source as int) + text_bytes(
            command.kind,
        ) + match command.payload {
            Some(v) => seq![1u8] + <Value as Wire>::encoded(v),
            None => seq![0u8],
        },
        <InputFrame as Wire>::encoded(frame) == wide(frame.tick.0 as int) + (wide(
            frame.commands.len() as u64 as int,
        ) + all_encoded::<InputCommand>(frame.commands)),
        <ReducerArgs as Wire>::encoded(args) == wide(args.len() as u64 as int) + all_encoded::<
            (String, Value),
        >(args),
{
    little_endian(row.len() as u64 as nat, 8);
    little_endian(delivered.row_id.0 as nat, 8);
    little_endian(encode_utf8(event.name).len() as u64 as nat, 8);
    little_endian(command.source as nat, 8);
    little_endian(encode_utf8(command.kind).len() as u64 as nat, 8);
    little_endian(frame.tick.0 as nat, 8);
    little_endian(frame.commands.len() as u64 as nat, 8);
    little_endian(args.len() as u64 as nat, 8);
}

/// An optional row.
pub open spec fn maybe_row(row: Option<Seq<ValueView>>) -> Seq<u8> {
    match row {
        Some(row) => seq![1u8] + <Row as Wire>::encoded(row),
        None => seq![0u8],
    }
}

/// An optional version.
pub open spec fn maybe_version(version: Option<u64>) -> Seq<u8> {
    match version {
        Some(version) => seq![1u8] + wide(version as int),
        None => seq![0u8],
    }
}

/// A change is its table, a byte for its kind (1 an insert, 2 an update, 3 a
/// delete), its row id, then the old row, the new row, the old version and the
/// new version, each if there is one. A delta is its sequence number, a byte for
/// its kind (numbered alike), its row id and, unless it is a delete, the row.
pub proof fn changes_on_the_wire(change: ChangeView, delta: DeltaEntryView)
    ensures
        ({
            let (tag, old_row, new_row, old_version, new_version) = match change.body {
                ChangeBodyView::Insert { row, version } => (
                    1u8,
                    None,
                    Some(row),
                    None,
                    Some(version.0),
                ),
                ChangeBodyView::Update { old_row, old_version, new_row, new_version } => (
                    2u8,
                    Some(old_row),
                    Some(new_row),
                    Some(old_version.0),
                    Some(new_version.0),
                ),
                ChangeBodyView::Delete { row, version } => (
                    3u8,
                    Some(row),
                    None,
                    Some(version.0),
                    None,
                ),
            };
            <Change as Wire>::encoded(change) == wide(change.table_id.0 as int) + seq![tag] + wide(
                change.row_id.0 as int,
            ) + (maybe_row(old_row) + maybe_row(new_row) + maybe_version(old_version)
                + maybe_version(new_version))
        }),
        <SubscriptionDeltaEntry as Wire>::encoded(delta) == wide(delta.seq as int) + (seq![
            match delta.kind {
                DeltaKind::Insert => 1u8,
                DeltaKind::Update => 2u8,
                DeltaKind::Delete => 3u8,
            },
        ] + wide(delta.row_id.0 as int)) + if delta.kind == DeltaKind::Delete {
            Seq::empty()
        } else {
            <Row as Wire>::encoded(delta.row->0.row)
        },
{
    little_endian(change.table_id.0 as nat, 8);
    little_endian(change.row_id.0 as nat, 8);
    little_endian(delta.seq as nat, 8);
    little_endian(delta.row_id.0 as nat, 8);
    match change.body {
        ChangeBodyView::Insert { row, version } => {
            little_endian(version.0 as nat, 8);
        },
        ChangeBodyView::Update { old_row, old_version, new_row, new_version } => {
            little_endian(old_version.0 as nat, 8);
            little_endian(new_version.0 as nat, 8);
        },
        ChangeBodyView::Delete { row, version } => {
            little_endian(version.0 as nat, 8);
        },
    }
}

/// A query is its table, its conditions, counted, and then, each if there is
/// one, its ordering, its limit and its columns. A condition is its column, a
/// byte for the comparison and its value; an ordering its column and a byte for
/// the direction.
pub proof fn queries_on_the_wire(query: QueryView, predicate: PredicateView, order: OrderByView)
    ensures
        <Query as Wire>::encoded(query) == text_bytes(query.table) + (counted_encoded::<Predicate>(
            query.predicates,
        ) + (opt_encoded::<OrderBy>(query.order_by) + (opt_encoded::<u32>(query.limit)
            + opt_encoded::<Counted<String>>(query.projection)))),
        <Predicate as Wire>::encoded(predicate) == text_bytes(predicate.column) + seq![
            match predicate.op {
                ComparisonOp::Eq => 0u8,
                ComparisonOp::Ne => 1u8,
                ComparisonOp::Lt => 2u8,
                ComparisonOp::Lte => 3u8,
                ComparisonOp::Gt => 4u8,
                ComparisonOp::Gte => 5u8,
            },
        ] + <Value as Wire>::encoded(predicate.value),
        <OrderBy as Wire>::encoded(order) == text_bytes(order.column) + seq![
            match order.direction {
                OrderDirection::Ascending => 0u8,
                OrderDirection::Descending => 1u8,
            },
        ],
{
    little_endian(encode_utf8(query.table).len() as u64 as nat, 8);
    little_endian(encode_utf8(predicate.column).len() as u64 as nat, 8);
    little_endian(encode_utf8(order.column).len() as u64 as nat, 8);
}

/// The kind byte and the payload of every message that a client sends.
pub proof fn client_messages_on_the_wire(m: ClientMessageView)
    ensures
        ({
            let (kind, payload) = match m {
                ClientMessageView::Handshake { version, name } => (
                    0x01u8,
                    number_bytes(version as int, 2) + text_bytes(name),
                ),
                ClientMessageView::Authenticate { credentials } => (
                    0x02u8,
                    text_bytes(credentials),
                ),
                ClientMessageView::AttachWorld { world } => (0x03u8, wide(world.0 as int)),
                ClientMessageView::InputFrame { frame } => (
                    0x04u8,
                    <InputFrame as Wire>::encoded(frame),
                ),
                ClientMessageView::Subscribe { request_id, query } => (
                    0x05u8,
                    wide(request_id as int) + <Query as Wire>::encoded(query),
                ),
                ClientMessageView::Unsubscribe { subscription } => (
                    0x06u8,
                    wide(subscription.0 as int),
                ),
                ClientMessageView::Resync { subscription } => (0x07u8, wide(subscription.0 as int)),
                ClientMessageView::Ping { nonce } => (0x08u8, wide(nonce as int)),
                ClientMessageView::DetachWorld => (0x09u8, Seq::empty()),
                ClientMessageView::CallReducer { request_id, reducer, args } => (
                    0x0Au8,
                    wide(request_id as int) + (text_bytes(reducer) + <ReducerArgs as Wire>::encoded(
                        args,
                    )),
                ),
            };
            client_kind(m) == kind && client_payload(m) == payload
        }),
{
    match m {
        ClientMessageView::Handshake { version, name } => {
            little_endian(version as nat, 2);
            little_endian(encode_utf8(name).len() as u64 as nat, 8);
        },
        ClientMessageView::Authenticate { credentials } => {
            little_endian(encode_utf8(credentials).len() as u64 as nat, 8);
        },
        ClientMessageView::AttachWorld { world } => {
            little_endian(world.0 as nat, 8);
        },
        ClientMessageView::InputFrame { frame } => {},
        ClientMessageView::Subscribe { request_id, query } => {
            little_endian(request_id as nat, 8);
        },
        ClientMessageView::Unsubscribe { subscription } => {
            little_endian(subscription.0 as nat, 8);
        },
        ClientMessageView::Resync { subscription } => {
            little_endian(subscription.0 as nat, 8);
        },
        ClientMessageView::Ping { nonce } => {
            little_endian(nonce as nat, 8);
        },
        ClientMessageView::DetachWorld => {},
        ClientMessageView::CallReducer { request_id, reducer, args } => {
            little_endian(request_id as nat, 8);
            little_endian(encode_utf8(reducer).len() as u64 as nat, 8);
        },
    }
}

/// What travels of a request that was refused: a 0 byte and the reason.
pub open spec fn refusal_bytes(error: Option<Seq<char>>, usual: Seq<char>) -> Seq<u8> {
    seq![0u8] + text_bytes(
        match error {
            Some(reason) => reason,
            None => usual,
        },
    )
}

/// The kind byte and the payload of every message that the server sends.
pub proof fn server_messages_on_the_wire(m: ServerMessageView)
    ensures
        ({
            let (kind, payload) = match m {
                ServerMessageView::HandshakeResponse { version, server_name } => (
                    0x81u8,
                    number_bytes(version as int, 2) + text_bytes(server_name),
                ),
                ServerMessageView::AuthResult { ok, principal, error } => (
                    0x82u8,
                    if ok {
                        seq![1u8] + (wide(principal->0.id as int) + text_bytes(principal->0.name))
                    } else {
                        refusal_bytes(error, "authentication failed"@)
                    },
                ),
                ServerMessageView::AttachResult { ok, world, error } => (
                    0x83u8,
                    if ok {
                        seq![1u8] + wide((world->0).0 as int)
                    } else {
                        refusal_bytes(error, "attach failed"@)
                    },
                ),
                ServerMessageView::TickUpdate { world, tick, tx_id, changes, events } => (
                    0x84u8,
                    wide(world.0 as int) + (wide(tick.0 as int) + (wide(tx_id.0 as int) + (
                    counted_encoded::<Change>(changes) + counted_encoded::<ReducerEvent>(events)))),
                ),
                ServerMessageView::SubscriptionSnapshot { request_id, subscription, seq, rows } => (
                    0x85u8,
                    wide(request_id as int) + (wide(subscription.0 as int) + (wide(seq as int)
                        + counted_encoded::<DeliveredRow>(rows))),
                ),
                ServerMessageView::SubscriptionDelta { subscription, seq, kind, row_id, row } => (
                    0x86u8,
                    wide(subscription.0 as int) + <SubscriptionDeltaEntry as Wire>::encoded(
                        DeltaEntryView { seq, kind, row_id, row },
                    ),
                ),
                ServerMessageView::StaleNotification { subscription, seq } => (
                    0x87u8,
                    wide(subscription.0 as int) + wide(seq as int),
                ),
                ServerMessageView::Error { code, message, request_id } => (
                    0x88u8,
                    number_bytes(code as int, 2) + (text_bytes(message) + wide(request_id as int)),
                ),
                ServerMessageView::Pong { nonce } => (0x89u8, wide(nonce as int)),
                ServerMessageView::Disconnect { reason } => (0x8Au8, text_bytes(reason)),
                ServerMessageView::DetachResult { ok, error } => (
                    0x8Bu8,
                    if ok {
                        seq![1u8]
                    } else {
                        refusal_bytes(error, "detach failed"@)
                    },
                ),
                ServerMessageView::ReducerResult { request_id, ok, value, error } => (
                    0x8Cu8,
                    wide(request_id as int) + if ok {
                        seq![1u8] + <Value as Wire>::encoded(value->0)
                    } else {
                        refusal_bytes(error, "reducer call failed"@)
                    },
                ),
                ServerMessageView::SubscriptionDeltaBatch { subscription, request_id, deltas } => (
                    0x8Du8,
                    wide(subscription.0 as int) + (wide(request_id as int) + counted_encoded::<
                        SubscriptionDeltaEntry,
                    >(deltas)),
                ),
            };
            server_kind(m) == kind && server_payload(m) =~= payload
        }),
{
    assert forall|x: u64| #[trigger] <u64 as Wire>::encoded(x) == wide(x as int) by {
        little_endian(x as nat, 8);
    }
    assert forall|x: u16| #[trigger] <u16 as Wire>::encoded(x) == number_bytes(x as int, 2) by {
        little_endian(x as nat, 2);
    }
    assert forall|t: Seq<char>| #[trigger] text_encoded(t) == text_bytes(t) by {
        little_endian(encode_utf8(t).len() as u64 as nat, 8);
    }
}

/// A frame is the four magic bytes, the protocol version in two, the message
/// kind in one, the payload's length in four, the payload, and in four more the
/// checksum of the version, the kind and the payload.
pub proof fn frames_on_the_wire(kind: u8, payload: Seq<u8>)
    ensures
        frame_bytes(kind, payload) == magic() + number_bytes(2, 2) + seq![kind] + number_bytes(
            payload.len() as int,
            4,
        ) + payload + number_bytes(
            crc32(number_bytes(2, 2) + seq![kind] + payload) as int,
            4,
        ),
        checked_bytes(kind, payload) == number_bytes(2, 2) + seq![kind] + payload,
        magic() == seq![0x4Eu8, 0x45u8, 0x58u8, 0x4Eu8],
{
    magic_letters();
    little_endian(2, 2);
    little_endian(payload.len(), 4);
    little_endian(crc32(checked_bytes(kind, payload)) as nat, 4);
}

/// The number that two bytes hold, the lower first.
pub open spec fn two_bytes(bytes: Seq<u8>, at: int) -> int {
    bytes[at] + 0x100 * bytes[at + 1]
}

/// The number that four bytes hold, the lowest first.
pub open spec fn four_bytes(bytes: Seq<u8>, at: int) -> int {
    two_bytes(bytes, at) + 0x1_0000 * two_bytes(bytes, at + 2)
}

proof fn reading_two(bytes: Seq<u8>, at: int)
    requires
        0 <= at <= bytes.len() - 2,
    ensures
        le_number(bytes.subrange(at, at + 2)) == two_bytes(bytes, at),
{
    reveal_with_fuel(le_number, 3);
    let part = bytes.subrange(at, at + 2);
    assert(part.drop_first()[0] == bytes[at + 1]);
}

proof fn reading_four(bytes: Seq<u8>, at: int)
    requires
        0 <= at <= bytes.len() - 4,
    ensures
        le_number(bytes.subrange(at, at + 4)) == four_bytes(bytes, at),
{
    reveal_with_fuel(le_number, 5);
    let part = bytes.subrange(at, at + 4);
    assert(part.drop_first()[0] == bytes[at + 1]);
    assert(part.drop_first().drop_first()[0] == bytes[at + 2]);
    assert(part.drop_first().drop_first().drop_first()[0] == bytes[at + 3]);
}

/// Bytes are a frame if, and only if, they begin with the letters `NEXN`,
/// declare version 2 and a length within the bound, are complete, and carry the
/// checksum of their version, kind and payload. Otherwise the first of these
/// that fails is what is wrong; of too few bytes a stream waits for more.
pub proof fn frames_are_checked(bytes: Seq<u8>, max_payload: u32)
    ensures
        ({
            let version = two_bytes(bytes, 4);
            let len = four_bytes(bytes, 7);
            let decoded = frame_decoded(bytes, max_payload);
            let parsed = frame_parsed(bytes, max_payload);
            if bytes.len() < 11 {
                decoded is Err && decoded->Err_0 == ProtocolErrorView::Truncated && parsed is Ok
                    && parsed->Ok_0 is None
            } else if !(bytes[0] == 0x4E && bytes[1] == 0x45 && bytes[2] == 0x58 && bytes[3]
                == 0x4E) {
                decoded is Err && parsed is Err && decoded->Err_0 == ProtocolErrorView::BadMagic
                    && parsed->Err_0 == decoded->Err_0
            } else if version != 2 {
                decoded is Err && parsed is Err && decoded->Err_0
                    == ProtocolErrorView::UnsupportedVersion(version as u16) && parsed->Err_0
                    == decoded->Err_0
            } else if len > max_payload {
                decoded is Err && parsed is Err && decoded->Err_0 == (
                ProtocolErrorView::Oversized { len: len as u64, max: max_payload as u64 })
                    && parsed->Err_0 == decoded->Err_0
            } else if bytes.len() < 15 + len {
                decoded is Err && decoded->Err_0 == ProtocolErrorView::Truncated && parsed is Ok
                    && parsed->Ok_0 is None
            } else if four_bytes(bytes, 11 + len) != crc32(
                bytes.subrange(4, 7) + bytes.subrange(11, 11 + len),
            ) {
                decoded is Err && parsed is Err && decoded->Err_0 == ProtocolErrorView::BadChecksum
                    && parsed->Err_0 == decoded->Err_0
            } else {
                decoded is Ok && decoded->Ok_0 == (bytes[6], bytes.subrange(11, 11 + len))
                    && parsed is Ok && parsed->Ok_0 == Some(
                    (bytes.subrange(0, 15 + len), 15 + len),
                )
            }
        }),
{
    if bytes.len() >= 11 {
        reading_two(bytes, 4);
        reading_four(bytes, 7);
        let len = four_bytes(bytes, 7);
        assert(bytes.take(4)[0] == bytes[0] && bytes.take(4)[1] == bytes[1]);
        assert(bytes.take(4)[2] == bytes[2] && bytes.take(4)[3] == bytes[3]);
        magic_letters();
        if bytes[0] == 0x4E && bytes[1] == 0x45 && bytes[2] == 0x58 && bytes[3] == 0x4E {
            assert(bytes.take(4) =~= magic());
        }
        if two_bytes(bytes, 4) == 2 && bytes.len() >= 15 + len {
            reading_four(bytes, 11 + len);
            little_endian(2, 2);
            version_bytes();
            assert(checked_bytes(bytes[6], bytes.subrange(11, 11 + len)) =~= bytes.subrange(4, 7)
                + bytes.subrange(11, 11 + len));
        }
        assert(bytes.take(15 + len) =~= bytes.subrange(0, 15 + len));
    }
}

proof fn magic_letters()
    ensures
        magic() == seq![0x4Eu8, 0x45u8, 0x58u8, 0x4Eu8],
{
    assert(magic() =~= seq![0x4Eu8, 0x45u8, 0x58u8, 0x4Eu8]);
}

proof fn version_bytes()
    ensures
        le_bytes(PROTOCOL_VERSION as nat, 2) == seq![2u8, 0u8],
{
    reveal_with_fuel(le_bytes, 3);
    assert(le_bytes(PROTOCOL_VERSION as nat, 2) =~= seq![2u8, 0u8]);
}

/// A frame's kind says which message it carries, and no other byte stands for a
/// message: those of clients are the kinds from 1 to 10, those of the server the
/// kinds from 0x81 to 0x8D.
pub proof fn kinds_say_which_message(kind: u8, payload: Seq<u8>)
    ensures
        client_from(kind, payload) is Ok ==> client_kind(client_from(kind, payload)->Ok_0) == kind,
        server_from(kind, payload) is Ok ==> server_kind(server_from(kind, payload)->Ok_0) == kind,
        !(0x01 <= kind <= 0x0A) ==> client_from(kind, payload) is Err && client_from(
            kind,
            payload,
        )->Err_0 == ProtocolErrorView::UnknownKind(kind),
        !(0x81 <= kind <= 0x8D) ==> server_from(kind, payload) is Err && server_from(
            kind,
            payload,
        )->Err_0 == ProtocolErrorView::UnknownKind(kind),
{
}

/// A payload is read to its end: what is read leaves no byte, and a payload with
/// bytes left over is malformed.
pub proof fn payloads_are_read_to_their_end<T: Wire>(payload: Seq<u8>)
    ensures
        ({
            let whole = whole_decoded::<T>(payload);
            match T::decoded(payload) {
                Ok((v, rest)) => if rest.len() == 0 {
                    whole is Ok && whole->Ok_0 == v
                } else {
                    whole is Err && whole->Err_0 is Malformed
                },
                Err(e) => whole is Err && whole->Err_0 == e,
            }
        }),
{
    reveal(whole_decoded);
}

/// A byte that says which of several things follows must be one of those that
/// are in use: a truth value or the presence of something 0 or 1, a change or a
/// delta 1 to 3, a comparison 0 to 5, a direction 0 or 1, a value 0 to 6.
pub proof fn tags_are_strict(bytes: Seq<u8>, what: Seq<char>)
    requires
        bytes.len() > 0,
    ensures
        ({
            let b = bytes[0];
            let rest = bytes.subrange(1, bytes.len() as int);
            &&& b <= 1 ==> <bool as Wire>::decoded(bytes) is Ok && <bool as Wire>::decoded(
                bytes,
            )->Ok_0 == (b == 1, rest)
            &&& b > 1 ==> <bool as Wire>::decoded(bytes) is Err
            &&& b == 0 ==> opt_decoded::<u64>(bytes, what) is Ok && opt_decoded::<u64>(
                bytes,
                what,
            )->Ok_0 == (None::<u64>, rest)
            &&& b == 1 && rest.len() >= 8 ==> opt_decoded::<u64>(bytes, what) is Ok
                && opt_decoded::<u64>(bytes, what)->Ok_0 == (
                Some(eight_bytes(rest, 0) as u64),
                rest.subrange(8, rest.len() as int),
            )
            &&& b > 1 ==> opt_decoded::<u64>(bytes, what) is Err
            &&& <ComparisonOp as Wire>::decoded(bytes) is Ok <==> b <= 5
            &&& <OrderDirection as Wire>::decoded(bytes) is Ok <==> b <= 1
            &&& <DeltaKind as Wire>::decoded(bytes) is Ok <==> 1 <= b <= 3
            &&& kind_decoded(bytes) is Ok <==> 1 <= b <= 3
            &&& b > 6 ==> <Value as Wire>::decoded(bytes) is Err
        }),
{
    let rest = bytes.subrange(1, bytes.len() as int);
    assert(bytes.skip(1) =~= rest);
    if rest.len() >= 8 {
        reading_eight(rest);
        assert(rest.skip(8) =~= rest.subrange(8, rest.len() as int));
    }
}

/// The number that eight bytes hold, the lowest first.
pub open spec fn eight_bytes(bytes: Seq<u8>, at: int) -> int {
    four_bytes(bytes, at) + 0x1_0000_0000 * four_bytes(bytes, at + 4)
}

proof fn reading_eight(bytes: Seq<u8>)
    requires
        bytes.len() >= 8,
    ensures
        le_number(bytes.take(8)) == eight_bytes(bytes, 0),
{
    let all = bytes.take(8);
    let high = all.subrange(4, 8);
    reading_four(bytes, 4);
    assert(high =~= bytes.subrange(4, 8));
    reveal_with_fuel(le_number, 5);
    let (a, b, c, d) = (
        all.drop_first(),
        all.drop_first().drop_first(),
        all.drop_first().drop_first().drop_first(),
        all.drop_first().drop_first().drop_first().drop_first(),
    );
    assert(d =~= high);
    assert(le_number(c) == bytes[3] as nat + 256 * le_number(high));
    assert(le_number(b) == bytes[2] as nat + 256 * le_number(c));
    assert(le_number(a) == bytes[1] as nat + 256 * le_number(b));
    assert(le_number(all) == bytes[0] as nat + 256 * le_number(a));
}

/// Behind its tag a number is eight bytes, the lowest first, read as a signed or
/// an unsigned number by its type; one that its type cannot hold is refused, and
/// so are too few bytes.
pub proof fn numbers_are_read_by_their_type(bytes: Seq<u8>)
    requires
        bytes.len() >= 9,
    ensures
        ({
            let n = eight_bytes(bytes, 1);
            let signed = if n < 0x8000_0000_0000_0000 {
                n
            } else {
                n - 0x1_0000_0000_0000_0000
            };
            let read = <Value as Wire>::decoded(bytes);
            &&& bytes[0] == 1 ==> (read is Ok <==> -0x8000_0000 <= signed < 0x8000_0000)
            &&& bytes[0] == 1 && read is Ok ==> read->Ok_0.0 == ValueView::I32(signed as i32)
            &&& bytes[0] == 2 ==> read is Ok && read->Ok_0.0 == ValueView::I64(signed as i64)
            &&& bytes[0] == 3 ==> (read is Ok <==> n < 0x1_0000_0000)
            &&& bytes[0] == 3 && read is Ok ==> read->Ok_0.0 == ValueView::U32(n as u32)
            &&& bytes[0] == 4 ==> read is Ok && read->Ok_0.0 == ValueView::U64(n as u64)
            &&& bytes[0] == 5 ==> read is Ok && read->Ok_0.0 == ValueView::F64(n as u64)
            &&& 1 <= bytes[0] <= 5 && read is Ok ==> read->Ok_0.1 == bytes.subrange(
                9,
                bytes.len() as int,
            )
        }),
{
    let rest = bytes.skip(1);
    reading_eight(rest);
    assert(eight_bytes(rest, 0) == eight_bytes(bytes, 1));
    assert(rest.skip(8) =~= bytes.subrange(9, bytes.len() as int));
}

} // verus!
