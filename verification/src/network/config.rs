//! Network configuration and events.
//!
//! Every client-controlled size is bounded here, so hostile input can never
//! grow memory without limit.

use vstd::prelude::*;

use crate::base::error::{Error, ErrorView};
use crate::base::ids::{ConnectionId, WorldId};
use crate::network::rate::RateLimitConfig;

verus! {

/// What the gateway does when a connection's bounded outbound queue is full.
#[derive(Clone, Copy, Debug, PartialEq, Eq, Structural)]
pub enum OutboundOverflowPolicy {
    /// Mark the session stale: drop tick updates and subscription deltas,
    /// notify once; the client must resync (or reattach).
    Stale,
    /// Close the connection with an explicit reason.
    Disconnect,
}

/// An operational event of the gateway, buffered in a bounded log.
#[derive(Debug, PartialEq, Eq)]
pub enum NetworkEvent {
    /// A transport connection was registered.
    ConnectionOpened { connection: ConnectionId },
    /// A connection was closed.
    ConnectionClosed { connection: ConnectionId, reason: String },
    /// A session authenticated successfully.
    Authenticated { connection: ConnectionId, principal_id: u64 },
    /// Authentication was rejected.
    AuthFailed { connection: ConnectionId },
    /// A session attached to a world.
    Attached { connection: ConnectionId, world: WorldId },
    /// A session detached from a world.
    Detached { connection: ConnectionId },
    /// A session fell behind and was marked stale.
    SessionStale { connection: ConnectionId },
    /// A protocol violation was detected.
    ProtocolError { connection: ConnectionId },
    /// A connection was dropped for exceeding a bound.
    ClientDropped { connection: ConnectionId, reason: String },
}

/// The mathematical content of a [`NetworkEvent`].
pub enum NetworkEventView {
    ConnectionOpened { connection: ConnectionId },
    ConnectionClosed { connection: ConnectionId, reason: Seq<char> },
    Authenticated { connection: ConnectionId, principal_id: u64 },
    AuthFailed { connection: ConnectionId },
    Attached { connection: ConnectionId, world: WorldId },
    Detached { connection: ConnectionId },
    SessionStale { connection: ConnectionId },
    ProtocolError { connection: ConnectionId },
    ClientDropped { connection: ConnectionId, reason: Seq<char> },
}

impl View for NetworkEvent {
    type V = NetworkEventView;

    open spec fn view(&self) -> NetworkEventView {
        match self {
            NetworkEvent::ConnectionOpened { connection } => NetworkEventView::ConnectionOpened {
                connection: *connection,
            },
            NetworkEvent::ConnectionClosed { connection, reason } => NetworkEventView::ConnectionClosed {
                connection: *connection,
                reason: reason@,
            },
            NetworkEvent::Authenticated { connection, principal_id } => NetworkEventView::Authenticated {
                connection: *connection,
                principal_id: *principal_id,
            },
            NetworkEvent::AuthFailed { connection } => NetworkEventView::AuthFailed {
                connection: *connection,
            },
            NetworkEvent::Attached { connection, world } => NetworkEventView::Attached {
                connection: *connection,
                world: *world,
            },
            NetworkEvent::Detached { connection } => NetworkEventView::Detached {
                connection: *connection,
            },
            NetworkEvent::SessionStale { connection } => NetworkEventView::SessionStale {
                connection: *connection,
            },
            NetworkEvent::ProtocolError { connection } => NetworkEventView::ProtocolError {
                connection: *connection,
            },
            NetworkEvent::ClientDropped { connection, reason } => NetworkEventView::ClientDropped {
                connection: *connection,
                reason: reason@,
            },
        }
    }
}

/// The validated network configuration.
#[derive(Clone, Copy, Debug)]
pub struct NetworkConfig {
    max_frame_payload: u32,
    max_queued_inbound_frames: usize,
    max_queued_outbound_frames: usize,
    max_connections: usize,
    max_subscriptions_per_session: usize,
    max_commands_per_frame: usize,
    max_reducer_name_len: usize,
    max_reducer_args: usize,
    max_pending_calls_per_connection: usize,
    overflow_policy: OutboundOverflowPolicy,
    event_log_limit: usize,
    rate_limits: RateLimitConfig,
    tick_update_changes: bool,
    skip_empty_broadcast: bool,
}

/// The mathematical content of a [`NetworkConfig`].
pub struct NetworkConfigView {
    pub max_frame_payload: u32,
    pub max_queued_inbound_frames: usize,
    pub max_queued_outbound_frames: usize,
    pub max_connections: usize,
    pub max_subscriptions_per_session: usize,
    pub max_commands_per_frame: usize,
    pub max_reducer_name_len: usize,
    pub max_reducer_args: usize,
    pub max_pending_calls_per_connection: usize,
    pub overflow_policy: OutboundOverflowPolicy,
    pub event_log_limit: usize,
    pub rate_limits: RateLimitConfig,
    pub tick_update_changes: bool,
    pub skip_empty_broadcast: bool,
}

impl View for NetworkConfig {
    type V = NetworkConfigView;

    closed spec fn view(&self) -> NetworkConfigView {
        NetworkConfigView {
            max_frame_payload: self.max_frame_payload,
            max_queued_inbound_frames: self.max_queued_inbound_frames,
            max_queued_outbound_frames: self.max_queued_outbound_frames,
            max_connections: self.max_connections,
            max_subscriptions_per_session: self.max_subscriptions_per_session,
            max_commands_per_frame: self.max_commands_per_frame,
            max_reducer_name_len: self.max_reducer_name_len,
            max_reducer_args: self.max_reducer_args,
            max_pending_calls_per_connection: self.max_pending_calls_per_connection,
            overflow_policy: self.overflow_policy,
            event_log_limit: self.event_log_limit,
            rate_limits: self.rate_limits,
            tick_update_changes: self.tick_update_changes,
            skip_empty_broadcast: self.skip_empty_broadcast,
        }
    }
}

impl NetworkConfigView {
    /// The default configuration.
    pub open spec fn standard() -> NetworkConfigView {
        NetworkConfigView {
            max_frame_payload: 65536,
            max_queued_inbound_frames: 256,
            max_queued_outbound_frames: 1024,
            max_connections: 10000,
            max_subscriptions_per_session: 64,
            max_commands_per_frame: 128,
            max_reducer_name_len: 256,
            max_reducer_args: 128,
            max_pending_calls_per_connection: 64,
            overflow_policy: OutboundOverflowPolicy::Stale,
            event_log_limit: 1024,
            rate_limits: RateLimitConfig::standard(),
            tick_update_changes: false,
            skip_empty_broadcast: false,
        }
    }

    /// What is wrong with the configuration, if anything.
    pub open spec fn violation(self) -> Option<Seq<char>> {
        if self.max_frame_payload == 0 {
            Some("max_frame_payload must be at least 1"@)
        } else if self.max_queued_inbound_frames == 0 {
            Some("max_queued_inbound_frames must be at least 1"@)
        } else if self.max_queued_outbound_frames == 0 {
            Some("max_queued_outbound_frames must be at least 1"@)
        } else if self.max_connections == 0 {
            Some("max_connections must be at least 1"@)
        } else if self.max_subscriptions_per_session == 0 {
            Some("max_subscriptions_per_session must be at least 1"@)
        } else if self.max_commands_per_frame == 0 {
            Some("max_commands_per_frame must be at least 1"@)
        } else if self.max_reducer_name_len == 0 {
            Some("max_reducer_name_len must be at least 1"@)
        } else if self.max_reducer_args == 0 {
            Some("max_reducer_args must be at least 1"@)
        } else if self.max_pending_calls_per_connection == 0 {
            Some("max_pending_calls_per_connection must be at least 1"@)
        } else if self.event_log_limit == 0 {
            Some("event_log_limit must be at least 1"@)
        } else {
            self.rate_limits.violation()
        }
    }
}

impl NetworkConfig {
    /// Creates a default configuration.
    pub fn new() -> (config: NetworkConfig)
        ensures
            config@ == NetworkConfigView::standard(),
    {
        NetworkConfig {
            max_frame_payload: 65536,
            max_queued_inbound_frames: 256,
            max_queued_outbound_frames: 1024,
            max_connections: 10000,
            max_subscriptions_per_session: 64,
            max_commands_per_frame: 128,
            max_reducer_name_len: 256,
            max_reducer_args: 128,
            max_pending_calls_per_connection: 64,
            overflow_policy: OutboundOverflowPolicy::Stale,
            event_log_limit: 1024,
            rate_limits: RateLimitConfig::new(),
            tick_update_changes: false,
            skip_empty_broadcast: false,
        }
    }

    /// Sets the maximum frame payload in bytes (at least 1).
    pub fn with_max_frame_payload(self, bytes: u32) -> (config: Self)
        ensures
            config@ == (NetworkConfigView { max_frame_payload: bytes, ..self@ }),
    {
        let mut config = self;
        config.max_frame_payload = bytes;
        config
    }

    /// Sets the per-connection inbound queue bound (at least 1).
    pub fn with_max_queued_inbound_frames(self, n: usize) -> (config: Self)
        ensures
            config@ == (NetworkConfigView { max_queued_inbound_frames: n, ..self@ }),
    {
        let mut config = self;
        config.max_queued_inbound_frames = n;
        config
    }

    /// Sets the per-connection outbound queue bound (at least 1).
    pub fn with_max_queued_outbound_frames(self, n: usize) -> (config: Self)
        ensures
            config@ == (NetworkConfigView { max_queued_outbound_frames: n, ..self@ }),
    {
        let mut config = self;
        config.max_queued_outbound_frames = n;
        config
    }

    /// Sets the maximum simultaneous connections (at least 1).
    pub fn with_max_connections(self, n: usize) -> (config: Self)
        ensures
            config@ == (NetworkConfigView { max_connections: n, ..self@ }),
    {
        let mut config = self;
        config.max_connections = n;
        config
    }

    /// Sets the maximum subscriptions per session (at least 1).
    pub fn with_max_subscriptions_per_session(self, n: usize) -> (config: Self)
        ensures
            config@ == (NetworkConfigView { max_subscriptions_per_session: n, ..self@ }),
    {
        let mut config = self;
        config.max_subscriptions_per_session = n;
        config
    }

    /// Sets the maximum commands per input frame (at least 1).
    pub fn with_max_commands_per_frame(self, n: usize) -> (config: Self)
        ensures
            config@ == (NetworkConfigView { max_commands_per_frame: n, ..self@ }),
    {
        let mut config = self;
        config.max_commands_per_frame = n;
        config
    }

    /// Sets the maximum reducer name length in bytes (at least 1).
    pub fn with_max_reducer_name_len(self, n: usize) -> (config: Self)
        ensures
            config@ == (NetworkConfigView { max_reducer_name_len: n, ..self@ }),
    {
        let mut config = self;
        config.max_reducer_name_len = n;
        config
    }

    /// Sets the maximum reducer argument count (at least 1).
    pub fn with_max_reducer_args(self, n: usize) -> (config: Self)
        ensures
            config@ == (NetworkConfigView { max_reducer_args: n, ..self@ }),
    {
        let mut config = self;
        config.max_reducer_args = n;
        config
    }

    /// Sets the maximum simultaneously pending reducer calls per connection
    /// (at least 1).
    pub fn with_max_pending_calls_per_connection(self, n: usize) -> (config: Self)
        ensures
            config@ == (NetworkConfigView { max_pending_calls_per_connection: n, ..self@ }),
    {
        let mut config = self;
        config.max_pending_calls_per_connection = n;
        config
    }

    /// Sets the outbound overflow policy.
    pub fn with_overflow_policy(self, policy: OutboundOverflowPolicy) -> (config: Self)
        ensures
            config@ == (NetworkConfigView { overflow_policy: policy, ..self@ }),
    {
        let mut config = self;
        config.overflow_policy = policy;
        config
    }

    /// Sets the bound of the event log (at least 1).
    pub fn with_event_log_limit(self, limit: usize) -> (config: Self)
        ensures
            config@ == (NetworkConfigView { event_log_limit: limit, ..self@ }),
    {
        let mut config = self;
        config.event_log_limit = limit;
        config
    }

    /// Sets the per-connection rate limits.
    pub fn with_rate_limits(self, limits: RateLimitConfig) -> (config: Self)
        ensures
            config@ == (NetworkConfigView { rate_limits: limits, ..self@ }),
    {
        let mut config = self;
        config.rate_limits = limits;
        config
    }

    /// Sets whether tick updates carry the full change list.
    pub fn with_tick_update_changes(self, enabled: bool) -> (config: Self)
        ensures
            config@ == (NetworkConfigView { tick_update_changes: enabled, ..self@ }),
    {
        let mut config = self;
        config.tick_update_changes = enabled;
        config
    }

    /// Sets whether tick updates without changes and events are skipped.
    pub fn with_skip_empty_broadcast(self, enabled: bool) -> (config: Self)
        ensures
            config@ == (NetworkConfigView { skip_empty_broadcast: enabled, ..self@ }),
    {
        let mut config = self;
        config.skip_empty_broadcast = enabled;
        config
    }

    /// Validates every bound: the first violation found is reported.
    pub fn validate(&self) -> (verdict: Result<(), Error>)
        ensures
            match verdict {
                Ok(_) => self@.violation() is None,
                Err(e) => self@.violation() is Some && e@ == ErrorView::InvalidArgument(
                    self@.violation()->0,
                ),
            },
    {
        if self.max_frame_payload == 0 {
            return Err(Error::invalid_argument("max_frame_payload must be at least 1"));
        }
        if self.max_queued_inbound_frames == 0 {
            return Err(Error::invalid_argument("max_queued_inbound_frames must be at least 1"));
        }
        if self.max_queued_outbound_frames == 0 {
            return Err(Error::invalid_argument("max_queued_outbound_frames must be at least 1"));
        }
        if self.max_connections == 0 {
            return Err(Error::invalid_argument("max_connections must be at least 1"));
        }
        if self.max_subscriptions_per_session == 0 {
            return Err(Error::invalid_argument("max_subscriptions_per_session must be at least 1"));
        }
        if self.max_commands_per_frame == 0 {
            return Err(Error::invalid_argument("max_commands_per_frame must be at least 1"));
        }
        if self.max_reducer_name_len == 0 {
            return Err(Error::invalid_argument("max_reducer_name_len must be at least 1"));
        }
        if self.max_reducer_args == 0 {
            return Err(Error::invalid_argument("max_reducer_args must be at least 1"));
        }
        if self.max_pending_calls_per_connection == 0 {
            return Err(Error::invalid_argument("max_pending_calls_per_connection must be at least 1"));
        }
        if self.event_log_limit == 0 {
            return Err(Error::invalid_argument("event_log_limit must be at least 1"));
        }
        match self.rate_limits.validate() {
            Ok(_) => Ok(()),
            Err(message) => Err(Error::InvalidArgument(message)),
        }
    }

    /// The maximum frame payload in bytes.
    pub fn max_frame_payload(&self) -> (value: u32)
        ensures
            value == self@.max_frame_payload,
    {
        self.max_frame_payload
    }

    /// The per-connection inbound queue bound.
    pub fn max_queued_inbound_frames(&self) -> (value: usize)
        ensures
            value == self@.max_queued_inbound_frames,
    {
        self.max_queued_inbound_frames
    }

    /// The per-connection outbound queue bound.
    pub fn max_queued_outbound_frames(&self) -> (value: usize)
        ensures
            value == self@.max_queued_outbound_frames,
    {
        self.max_queued_outbound_frames
    }

    /// The maximum simultaneous connections.
    pub fn max_connections(&self) -> (value: usize)
        ensures
            value == self@.max_connections,
    {
        self.max_connections
    }

    /// The maximum subscriptions per session.
    pub fn max_subscriptions_per_session(&self) -> (value: usize)
        ensures
            value == self@.max_subscriptions_per_session,
    {
        self.max_subscriptions_per_session
    }

    /// The maximum commands per input frame.
    pub fn max_commands_per_frame(&self) -> (value: usize)
        ensures
            value == self@.max_commands_per_frame,
    {
        self.max_commands_per_frame
    }

    /// The maximum reducer name length in bytes.
    pub fn max_reducer_name_len(&self) -> (value: usize)
        ensures
            value == self@.max_reducer_name_len,
    {
        self.max_reducer_name_len
    }

    /// The maximum reducer argument count.
    pub fn max_reducer_args(&self) -> (value: usize)
        ensures
            value == self@.max_reducer_args,
    {
        self.max_reducer_args
    }

    /// The maximum simultaneously pending reducer calls per connection.
    pub fn max_pending_calls_per_connection(&self) -> (value: usize)
        ensures
            value == self@.max_pending_calls_per_connection,
    {
        self.max_pending_calls_per_connection
    }

    /// The outbound overflow policy.
    pub fn overflow_policy(&self) -> (value: OutboundOverflowPolicy)
        ensures
            value == self@.overflow_policy,
    {
        self.overflow_policy
    }

    /// The bound of the event log.
    pub fn event_log_limit(&self) -> (value: usize)
        ensures
            value == self@.event_log_limit,
    {
        self.event_log_limit
    }

    /// The per-connection rate limits.
    pub fn rate_limits(&self) -> (value: RateLimitConfig)
        ensures
            value == self@.rate_limits,
    {
        self.rate_limits
    }

    /// Whether tick updates carry the full change list.
    pub fn tick_update_changes(&self) -> (value: bool)
        ensures
            value == self@.tick_update_changes,
    {
        self.tick_update_changes
    }

    /// Whether tick updates without changes and events are skipped.
    pub fn skip_empty_broadcast(&self) -> (value: bool)
        ensures
            value == self@.skip_empty_broadcast,
    {
        self.skip_empty_broadcast
    }
}

impl Default for NetworkConfig {
    fn default() -> (config: Self)
        ensures
            config@ == NetworkConfigView::standard(),
    {
        NetworkConfig::new()
    }
}

/// A configuration is accepted if, and only if, every bound is at least 1 and
/// the rate limits are accepted; otherwise the first bound that is 0, in the
/// order of the fields, is named.
pub proof fn bounds_must_be_positive(config: NetworkConfigView)
    ensures
        config.violation() is None <==> config.max_frame_payload > 0
            && config.max_queued_inbound_frames > 0 && config.max_queued_outbound_frames > 0
            && config.max_connections > 0 && config.max_subscriptions_per_session > 0
            && config.max_commands_per_frame > 0 && config.max_reducer_name_len > 0
            && config.max_reducer_args > 0 && config.max_pending_calls_per_connection > 0
            && config.event_log_limit > 0 && config.rate_limits.violation() is None,
        config.max_frame_payload == 0 ==> config.violation() == Some(
            "max_frame_payload must be at least 1"@,
        ),
        NetworkConfigView::standard().violation() is None,
{
}

/// What a configuration allows unless it is told otherwise.
pub proof fn standard_bounds()
    ensures
        ({
            let config = NetworkConfigView::standard();
            &&& config.max_frame_payload == 0x1_0000
            &&& config.max_queued_inbound_frames == 256
            &&& config.max_queued_outbound_frames == 4 * config.max_queued_inbound_frames
            &&& config.max_connections == 10000
            &&& config.max_subscriptions_per_session == 64
            &&& config.max_commands_per_frame == 128
            &&& config.max_reducer_name_len == 256
            &&& config.max_reducer_args == 128
            &&& config.max_pending_calls_per_connection == 64
            &&& config.event_log_limit == 1024
            &&& config.overflow_policy == OutboundOverflowPolicy::Stale
            &&& !config.tick_update_changes && !config.skip_empty_broadcast
            &&& config.rate_limits == RateLimitConfig::standard()
        }),
{
}

} // verus!
