//! The wire protocol: round trips, framing and rejection.

use nexum::base::change::{Change, DeliveredRow};
use nexum::base::ids::{
    RowId, SubscriptionId, TableId, TickId, TransactionId, Version, WorldId,
};
use nexum::base::input::{InputCommand, InputFrame};
use nexum::base::query::{ComparisonOp, OrderBy, OrderDirection, Predicate, Query, QueryParts};
use nexum::base::value::{Row, Value};
use nexum::network::auth::Principal;
use nexum::network::checksum::Crc32;
use nexum::network::error::{NetworkError, ProtocolError};
use nexum::network::frame::{parse_frame, FRAME_OVERHEAD, HEADER_LEN, PROTOCOL_MAGIC, PROTOCOL_VERSION};
use nexum::network::protocol::{
    decode_client, decode_server, encode_client, encode_server, ClientMessage, DeltaKind,
    ServerMessage, SubscriptionDeltaEntry,
};
use nexum::network::wire::Wire;
use nexum::reducer::args::ReducerArgs;
use nexum::reducer::event::ReducerEvent;

fn crc32(bytes: &[u8]) -> u32 {
    Crc32::new().chain(bytes).finalize()
}

/// Crafts a complete, checksummed frame with the given kind and payload.
fn craft_frame(kind: u8, payload: &[u8]) -> Vec<u8> {
    let mut frame = Vec::new();
    frame.extend_from_slice(&PROTOCOL_MAGIC);
    frame.extend_from_slice(&PROTOCOL_VERSION.to_le_bytes());
    frame.push(kind);
    frame.extend_from_slice(&(payload.len() as u32).to_le_bytes());
    frame.extend_from_slice(payload);
    let mut crc_input = Vec::new();
    crc_input.extend_from_slice(&PROTOCOL_VERSION.to_le_bytes());
    crc_input.push(kind);
    crc_input.extend_from_slice(payload);
    frame.extend_from_slice(&crc32(&crc_input).to_le_bytes());
    frame
}

fn row(id: u64, zone: u64, health: i32) -> Row {
    Row::new(vec![Value::U64(id), Value::U64(zone), Value::I32(health)])
}

#[test]
fn client_messages_roundtrip() {
    let max = 4096;
    let mut frame = InputFrame::new(TickId::from_u64(3));
    frame.push(InputCommand::new(1, "move", Some(Value::U64(9))).unwrap());
    let query = Query::build(QueryParts {
        table: "players".to_owned(),
        predicates: vec![
            Predicate { column: "zone".to_owned(), op: ComparisonOp::Eq, value: Value::U64(10) },
            Predicate { column: "health".to_owned(), op: ComparisonOp::Gt, value: Value::I32(50) },
        ],
        order_by: Some(OrderBy { column: "id".to_owned(), direction: OrderDirection::Ascending }),
        limit: Some(100),
        projection: Some(vec!["id".to_owned(), "health".to_owned()]),
    })
    .unwrap();
    let messages = vec![
        ClientMessage::Handshake { version: PROTOCOL_VERSION, name: "tester".into() },
        ClientMessage::Authenticate { credentials: "token-1".into() },
        ClientMessage::AttachWorld { world: WorldId::from_u64(3) },
        ClientMessage::InputFrame { frame },
        ClientMessage::Subscribe { request_id: 0, query },
        ClientMessage::Unsubscribe { subscription: SubscriptionId::from_u64(5) },
        ClientMessage::Resync { subscription: SubscriptionId::from_u64(6) },
        ClientMessage::Ping { nonce: 42 },
        ClientMessage::DetachWorld,
        ClientMessage::CallReducer {
            request_id: 7,
            reducer: "move_player".into(),
            args: ReducerArgs::new().insert("x", Value::U64(1)).insert("y", Value::U64(2)),
        },
    ];
    for message in &messages {
        let encoded = encode_client(message, max).unwrap();
        let decoded = decode_client(&encoded, max).unwrap();
        assert_eq!(&decoded, message);
    }
}

#[test]
fn server_messages_roundtrip() {
    let max = 8192;
    let table = TableId::from_u64(1);
    let changes = vec![
        Change::insert(table, RowId::from_u64(1), row(1, 10, 100), Version::from_u64(1)),
        Change::update(
            table,
            RowId::from_u64(2),
            row(1, 10, 100),
            Version::from_u64(1),
            row(2, 20, 80),
            Version::from_u64(2),
        ),
        Change::delete(table, RowId::from_u64(3), row(1, 10, 100), Version::from_u64(1)),
    ];
    let messages = vec![
        ServerMessage::HandshakeResponse { version: PROTOCOL_VERSION, server_name: "nexum".into() },
        ServerMessage::AuthResult {
            ok: true,
            principal: Some(Principal::new(7, "alice")),
            error: None,
        },
        ServerMessage::AuthResult { ok: false, principal: None, error: Some("bad".into()) },
        ServerMessage::AttachResult { ok: true, world: Some(WorldId::from_u64(3)), error: None },
        ServerMessage::AttachResult { ok: false, world: None, error: Some("unknown".into()) },
        ServerMessage::DetachResult { ok: true, error: None },
        ServerMessage::DetachResult { ok: false, error: Some("not attached".into()) },
        ServerMessage::TickUpdate {
            world: WorldId::from_u64(0),
            tick: TickId::from_u64(4),
            tx_id: TransactionId::from_u64(9),
            changes,
            events: vec![
                ReducerEvent::new("player_joined", Value::U64(7)),
                ReducerEvent::new("msg", Value::String("hello".into())),
            ],
        },
        ServerMessage::SubscriptionSnapshot {
            request_id: 0,
            subscription: SubscriptionId::from_u64(1),
            seq: 2,
            rows: vec![DeliveredRow::new(RowId::from_u64(1), row(1, 10, 100))],
        },
        ServerMessage::SubscriptionDelta {
            subscription: SubscriptionId::from_u64(1),
            seq: 3,
            kind: DeltaKind::Insert,
            row_id: RowId::from_u64(1),
            row: Some(DeliveredRow::new(RowId::from_u64(1), row(2, 20, 80))),
        },
        ServerMessage::SubscriptionDelta {
            subscription: SubscriptionId::from_u64(1),
            seq: 4,
            kind: DeltaKind::Delete,
            row_id: RowId::from_u64(1),
            row: None,
        },
        ServerMessage::StaleNotification { subscription: SubscriptionId::from_u64(1), seq: 5 },
        ServerMessage::Error { code: 17, message: "too much".into(), request_id: 0 },
        ServerMessage::Pong { nonce: 42 },
        ServerMessage::Disconnect { reason: "bye".into() },
        ServerMessage::ReducerResult {
            request_id: 7,
            ok: true,
            value: Some(Value::U64(42)),
            error: None,
        },
        ServerMessage::ReducerResult {
            request_id: 8,
            ok: false,
            value: None,
            error: Some("rejected".into()),
        },
    ];
    for message in &messages {
        let encoded = encode_server(message, max).unwrap();
        let decoded = decode_server(&encoded, max).unwrap();
        assert_eq!(&decoded, message);
    }
}

#[test]
fn delta_batches_roundtrip() {
    let max = 8192;
    let message = ServerMessage::SubscriptionDeltaBatch {
        subscription: SubscriptionId::from_u64(4),
        request_id: 0,
        deltas: vec![
            SubscriptionDeltaEntry {
                seq: 1,
                kind: DeltaKind::Update,
                row_id: RowId::from_u64(2),
                row: Some(DeliveredRow::new(RowId::from_u64(2), row(2, 20, 80))),
            },
            SubscriptionDeltaEntry {
                seq: 2,
                kind: DeltaKind::Delete,
                row_id: RowId::from_u64(3),
                row: None,
            },
        ],
    };
    let encoded = encode_server(&message, max).unwrap();
    assert_eq!(decode_server(&encoded, max).unwrap(), message);
}

#[test]
fn text_that_is_no_utf8_is_malformed() {
    // A credentials string of one byte that begins no character.
    let mut payload = Vec::new();
    payload.extend_from_slice(&1u64.to_le_bytes());
    payload.push(0xFF);
    let frame = craft_frame(0x02, &payload);
    assert!(matches!(decode_client(&frame, 4096), Err(ProtocolError::Malformed(_))));
    // Text beyond ASCII comes back as it was.
    let message = ClientMessage::Authenticate { credentials: "z\u{fc}rich \u{1f30d}".into() };
    let frame = encode_client(&message, 4096).unwrap();
    assert_eq!(decode_client(&frame, 4096).unwrap(), message);
}

#[test]
fn streaming_parse_frame_handles_partial_and_concatenated_frames() {
    let max = 4096;
    let frame = encode_client(&ClientMessage::Ping { nonce: 7 }, max).unwrap();
    // Partial header.
    assert!(parse_frame(&frame[..4], max).unwrap().is_none());
    assert!(parse_frame(&frame[..HEADER_LEN - 1], max).unwrap().is_none());
    // Partial body.
    assert!(parse_frame(&frame[..frame.len() - 1], max).unwrap().is_none());
    // Complete.
    let (parsed, consumed) = parse_frame(&frame, max).unwrap().unwrap();
    assert_eq!(parsed, frame);
    assert_eq!(consumed, frame.len());
    // Two concatenated frames.
    let mut buf = Vec::new();
    buf.extend_from_slice(&frame);
    buf.extend_from_slice(&frame);
    let (first, c1) = parse_frame(&buf, max).unwrap().unwrap();
    assert_eq!(first, frame);
    let (second, c2) = parse_frame(&buf[c1..], max).unwrap().unwrap();
    assert_eq!(second, frame);
    assert_eq!(c2, frame.len());
    // Garbage never yields a frame.
    assert!(matches!(parse_frame(b"GARBAGE!!!!!", max), Err(ProtocolError::BadMagic)));
}

#[test]
fn truncated_frames_are_rejected() {
    let max = 4096;
    let frame = encode_client(&ClientMessage::Ping { nonce: 1 }, max).unwrap();
    let mut truncated = frame.clone();
    truncated.truncate(frame.len() - 1);
    assert!(matches!(decode_client(&truncated, max), Err(ProtocolError::Truncated)));
    // Header-only input.
    assert!(matches!(decode_client(&frame[..5], max), Err(ProtocolError::Truncated)));
    // Empty input.
    assert!(matches!(decode_client(&[], max), Err(ProtocolError::Truncated)));
}

#[test]
fn bad_magic_and_versions_are_rejected() {
    let max = 4096;
    let frame = encode_client(&ClientMessage::Ping { nonce: 1 }, max).unwrap();
    let mut bad_magic = frame.clone();
    bad_magic[0] = b'X';
    assert!(matches!(decode_client(&bad_magic, max), Err(ProtocolError::BadMagic)));
    let mut bad_version = frame.clone();
    bad_version[4] = 0xFF;
    bad_version[5] = 0xFF;
    assert!(matches!(
        decode_client(&bad_version, max),
        Err(ProtocolError::UnsupportedVersion(0xFFFF))
    ));
}

#[test]
fn oversized_payloads_are_rejected_before_allocation() {
    let max = 1024;
    let mut frame = Vec::new();
    frame.extend_from_slice(&PROTOCOL_MAGIC);
    frame.extend_from_slice(&PROTOCOL_VERSION.to_le_bytes());
    frame.push(0x01);
    frame.extend_from_slice(&u32::MAX.to_le_bytes());
    assert!(matches!(decode_client(&frame, max), Err(ProtocolError::Oversized { .. })));
}

#[test]
fn unknown_kinds_are_rejected() {
    let max = 4096;
    let frame = craft_frame(0x7F, &[]);
    assert!(matches!(decode_client(&frame, max), Err(ProtocolError::UnknownKind(0x7F))));
}

#[test]
fn bad_checksums_are_detected() {
    let max = 4096;
    let frame =
        encode_client(&ClientMessage::Authenticate { credentials: "tok".into() }, max).unwrap();
    let mut corrupted = frame.clone();
    corrupted[HEADER_LEN] ^= 0xFF; // flip a payload byte
    assert!(matches!(decode_client(&corrupted, max), Err(ProtocolError::BadChecksum)));
    let mut corrupted2 = frame;
    let last = corrupted2.len() - 1;
    corrupted2[last] ^= 0xFF; // flip a checksum byte
    assert!(matches!(decode_client(&corrupted2, max), Err(ProtocolError::BadChecksum)));
}

#[test]
fn malformed_payloads_are_rejected() {
    let max = 4096;
    // A handshake payload declaring a string longer than the payload.
    let mut payload = Vec::new();
    payload.extend_from_slice(&0u16.to_le_bytes()); // version
    payload.push(0xFF); // string length 255, no bytes follow
    let frame = craft_frame(0x01, &payload);
    assert!(matches!(decode_client(&frame, max), Err(ProtocolError::Malformed(_))));

    // An input frame with an empty command kind.
    let mut payload = Vec::new();
    payload.extend_from_slice(&0u64.to_le_bytes()); // tick
    payload.extend_from_slice(&1u64.to_le_bytes()); // count
    payload.extend_from_slice(&1u64.to_le_bytes()); // source
    payload.extend_from_slice(&0u64.to_le_bytes()); // empty kind string
    payload.push(0); // no command payload
    let frame = craft_frame(0x04, &payload);
    assert!(matches!(decode_client(&frame, max), Err(ProtocolError::Malformed(_))));

    // Trailing garbage after a valid handshake.
    let mut payload = Vec::new();
    payload.extend_from_slice(&1u16.to_le_bytes());
    payload.extend_from_slice(&3u64.to_le_bytes());
    payload.extend_from_slice(b"abc");
    payload.push(0xEE);
    let frame = craft_frame(0x01, &payload);
    assert!(matches!(decode_client(&frame, max), Err(ProtocolError::Malformed(_))));
}

#[test]
fn encode_rejects_oversized_messages() {
    let max = 32;
    let big = ServerMessage::Disconnect { reason: "x".repeat(1024) };
    assert!(matches!(encode_server(&big, max), Err(NetworkError::Capacity(_))));
}

#[test]
fn a_ping_has_a_fixed_layout() {
    let frame = encode_client(&ClientMessage::Ping { nonce: 0x0102 }, 4096).unwrap();
    assert_eq!(frame.len(), FRAME_OVERHEAD + 8);
    assert_eq!(frame, craft_frame(frame[6], &0x0102u64.to_le_bytes()));
    // The published check value of the checksum.
    assert_eq!(crc32(b"123456789"), 0xCBF4_3926);
}

#[test]
fn a_short_read_leaves_the_cursor() {
    let bytes = [1u8, 2, 3];
    let mut cursor = &bytes[..];
    assert_eq!(u32::get(&mut cursor), Err(ProtocolError::Truncated));
    assert_eq!(cursor, &bytes[..]);
    assert_eq!(u16::get(&mut cursor), Ok(0x0201));
    assert_eq!(cursor, &[3u8][..]);
    assert_eq!(u16::get(&mut cursor), Err(ProtocolError::Truncated));
    assert_eq!(cursor, &[3u8][..]);
}
