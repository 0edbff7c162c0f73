//! Rings, links, frame readers, queues, rate limits and configuration.

use nexum::base::error::Error;
use nexum::base::ids::{ConnectionId, SessionId, WorldId};
use nexum::network::auth::{Authenticator, Principal, TokenAuthenticator};
use nexum::network::config::NetworkConfig;
use nexum::network::error::{AuthError, TransportError};
use nexum::network::protocol::{encode_client, ClientMessage, ServerMessage};
use nexum::network::rate::{RateBucket, RateLimitConfig, RateLimiter, RateWindow};
use nexum::network::session::Session;
use nexum::network::spsc::SpscRing;
use nexum::network::transport::{Connection, FrameQueue, FrameReader, MemoryTransport};

// -------------------------------------------------------------------- ring

#[test]
fn basic_push_pop() {
    let mut ring = SpscRing::<u64>::new(8);
    assert!(ring.is_empty());
    ring.push(1).unwrap();
    ring.push(2).unwrap();
    assert_eq!(ring.len(), 2);
    assert_eq!(ring.pop(), Some(1));
    assert_eq!(ring.pop(), Some(2));
    assert!(ring.is_empty());
}

#[test]
fn full_returns_err() {
    let mut ring = SpscRing::<u32>::new(4);
    ring.push(10).unwrap();
    ring.push(20).unwrap();
    ring.push(30).unwrap();
    ring.push(40).unwrap();
    assert!(ring.push(50).is_err());
    assert_eq!(ring.pop(), Some(10));
    ring.push(50).unwrap();
}

#[test]
fn wrap_around() {
    let mut ring = SpscRing::<u32>::new(4);
    // Fill and drain multiple times to exercise wrapping.
    for round in 0..100u32 {
        ring.push(round * 10).unwrap();
        ring.push(round * 10 + 1).unwrap();
        assert_eq!(ring.pop(), Some(round * 10));
        assert_eq!(ring.pop(), Some(round * 10 + 1));
        assert!(ring.is_empty());
    }
}

// -------------------------------------------------------------------- link

#[test]
fn a_link_carries_frames_both_ways_and_bounds_them() {
    let (mut server, mut client) = MemoryTransport::connect(2, 1);
    client.try_send_frame(vec![1]).unwrap();
    assert_eq!(server.try_recv_frame().unwrap(), Some(vec![1]));
    assert_eq!(server.try_recv_frame().unwrap(), None);
    server.try_send_frame(vec![2]).unwrap();
    assert_eq!(server.try_send_frame(vec![3]), Err(TransportError::Full));
    assert_eq!(client.try_recv_frame().unwrap(), Some(vec![2]));
    server.close();
    assert_eq!(client.try_send_frame(vec![4]), Err(TransportError::Closed));
}

#[test]
fn pending_follows_what_an_end_can_take() {
    let (mut server, mut client) = MemoryTransport::connect(2, 2);
    assert!(!server.has_pending_data());
    assert!(!client.has_pending_data());
    client.try_send_frame(vec![1]).unwrap();
    assert!(server.has_pending_data());
    assert!(!client.has_pending_data());
    server.try_send_frame(vec![2]).unwrap();
    assert!(client.has_pending_data());
    assert_eq!(server.try_recv_frame().unwrap(), Some(vec![1]));
    assert_eq!(client.try_recv_frame().unwrap(), Some(vec![2]));
    assert!(!server.has_pending_data());
    assert!(!client.has_pending_data());
    // Without room nothing is ever pending.
    let (server, mut client) = MemoryTransport::connect(0, 2);
    assert_eq!(client.try_send_frame(vec![3]), Err(TransportError::Full));
    assert!(!server.has_pending_data());
}

#[test]
fn a_closed_end_sends_nothing_and_still_takes() {
    let (mut server, mut client) = MemoryTransport::connect(2, 2);
    client.try_send_frame(vec![1]).unwrap();
    server.try_send_frame(vec![2]).unwrap();
    server.close();
    let pong = ServerMessage::Pong { nonce: 1 };
    assert_eq!(server.try_send_frame(vec![3]), Err(TransportError::Closed));
    assert_eq!(server.try_send_direct(&pong, 64), Err(TransportError::Closed));
    assert_eq!(client.try_send_frame(vec![4]), Err(TransportError::Closed));
    assert_eq!(server.try_recv_frame().unwrap(), Some(vec![1]));
    assert_eq!(client.try_recv_frame().unwrap(), Some(vec![2]));
}

#[test]
fn a_reader_cuts_a_stream_into_frames() {
    let frame = encode_client(&ClientMessage::Ping { nonce: 5 }, 64).unwrap();
    let mut reader = FrameReader::new(64);
    reader.feed(&frame[..3]);
    assert_eq!(reader.next_frame().unwrap(), None);
    reader.feed(&frame[3..]);
    reader.feed(&frame);
    assert_eq!(reader.next_frame().unwrap(), Some(frame.clone()));
    assert_eq!(reader.next_frame().unwrap(), Some(frame));
    assert_eq!(reader.next_frame().unwrap(), None);
}

#[test]
fn a_queue_keeps_what_a_partial_write_left() {
    let mut queue = FrameQueue::new(2);
    queue.push(vec![1, 2, 3]).unwrap();
    queue.push(vec![4]).unwrap();
    assert_eq!(queue.push(vec![5]), Err(TransportError::Full));
    queue.advance(2);
    assert_eq!(queue.front(), Some(&[3u8][..]));
    queue.advance(1);
    assert_eq!(queue.front(), Some(&[4u8][..]));
    queue.advance(1);
    assert_eq!(queue.front(), None);
}

// ------------------------------------------------------------------- rates

#[test]
fn a_window_allows_its_limit_and_reopens() {
    let second: u64 = 1_000_000_000;
    let mut window = RateWindow::new(2, 1);
    assert!(window.try_take(0));
    assert!(window.try_take(1));
    assert!(!window.try_take(2));
    assert!(window.try_take(second + 1));
}

#[test]
fn a_window_without_a_limit_allows_nothing() {
    let mut window = RateWindow::new(0, 1);
    assert!(!window.try_take(0));
    assert!(!window.try_take(1));
    assert!(!window.try_take(5_000_000_000));
    assert_eq!(window, RateWindow::new(0, 1));
}

#[test]
fn buckets_are_limited_apart() {
    let limits = RateLimitConfig::new().with_input_per_sec(1).with_reducer_per_sec(1);
    let mut limiter = RateLimiter::new(&limits);
    assert!(limiter.try_take(RateBucket::Input, 0));
    assert!(!limiter.try_take(RateBucket::Input, 1));
    assert!(limiter.try_take(RateBucket::Reducer, 1));
}

// ------------------------------------------------------------------ config

#[test]
fn invalid_network_configurations_are_rejected() {
    assert!(NetworkConfig::new().validate().is_ok());
    let broken = vec![
        NetworkConfig::new().with_max_frame_payload(0),
        NetworkConfig::new().with_max_queued_inbound_frames(0),
        NetworkConfig::new().with_max_queued_outbound_frames(0),
        NetworkConfig::new().with_max_connections(0),
        NetworkConfig::new().with_max_subscriptions_per_session(0),
        NetworkConfig::new().with_max_commands_per_frame(0),
        NetworkConfig::new().with_max_pending_calls_per_connection(0),
    ];
    for config in broken {
        assert!(matches!(config.validate(), Err(Error::InvalidArgument(_))));
    }
}

// ---------------------------------------------------------------- sessions

#[test]
fn principals_compare_by_id_and_name() {
    assert!(Principal::new(1, "alice") == Principal::new(1, "alice"));
    assert!(Principal::new(1, "alice") != Principal::new(2, "alice"));
    assert!(Principal::new(1, "alice") != Principal::new(1, "bob"));
}

#[test]
fn tokens_map_to_principals() {
    let mut table = TokenAuthenticator::new();
    table.add("alice-token", Principal::new(1, "alice")).unwrap();
    assert!(matches!(
        table.add("alice-token", Principal::new(2, "bob")),
        Err(AuthError::Internal(_))
    ));
    assert!(matches!(table.add("", Principal::new(2, "bob")), Err(AuthError::Internal(_))));
    assert_eq!(table.authenticate("alice-token").unwrap().id(), 1);
    assert!(matches!(table.authenticate("nope"), Err(AuthError::InvalidCredentials)));
}

#[test]
fn sessions_attach_and_detach() {
    let mut session = Session::new(
        SessionId::from_u64(3),
        ConnectionId::from_u64(4),
        Principal::new(1, "alice"),
    );
    assert!(!session.is_attached());
    session.attach(WorldId::from_u64(9));
    assert_eq!(session.attached_world(), Some(WorldId::from_u64(9)));
    session.detach();
    assert_eq!(session.attached_world(), None);
    assert_eq!(session.principal().name(), "alice");
}
