//! Network metrics: monotonic operational counters and gauges.
//!
//! Counters wrap around at their type's limit; they never influence what a
//! world computes.

use vstd::prelude::*;

use crate::base::ids::WorldId;

verus! {

/// Cumulative wall time per gateway stage in nanoseconds.
#[derive(Clone, Copy, Debug, PartialEq, Eq, Structural)]
pub struct GatewayStepProfile {
    /// Inbound collection.
    pub collect_ns: u64,
    /// Inbound decoding.
    pub decode_ns: u64,
    /// Inbound dispatch.
    pub dispatch_ns: u64,
    /// Tick update fan-out.
    pub tick_update_ns: u64,
    /// Subscription delivery.
    pub deltas_ns: u64,
    /// Reducer result routing.
    pub results_ns: u64,
}

impl GatewayStepProfile {
    /// No time in any stage.
    pub open spec fn zero() -> GatewayStepProfile {
        GatewayStepProfile {
            collect_ns: 0,
            decode_ns: 0,
            dispatch_ns: 0,
            tick_update_ns: 0,
            deltas_ns: 0,
            results_ns: 0,
        }
    }
}

impl Default for GatewayStepProfile {
    fn default() -> (profile: Self)
        ensures
            profile == GatewayStepProfile::zero(),
    {
        GatewayStepProfile {
            collect_ns: 0,
            decode_ns: 0,
            dispatch_ns: 0,
            tick_update_ns: 0,
            deltas_ns: 0,
            results_ns: 0,
        }
    }
}

/// The gateway's monotonic counters.
#[derive(Clone, Copy, Debug, PartialEq, Eq, Structural)]
pub struct NetworkCounters {
    /// Frames received from clients.
    pub frames_received: u64,
    /// Frames rejected (protocol violations).
    pub frames_rejected: u64,
    /// Messages queued outbound to clients.
    pub messages_outbound: u64,
    /// Messages dropped for a stale session or policy overflow.
    pub messages_dropped: u64,
    /// Clients dropped (overflow policy, transport failure, violation).
    pub clients_dropped: u64,
    /// Protocol violations observed.
    pub protocol_errors: u64,
    /// Authentication failures.
    pub auth_failures: u64,
    /// Input frames accepted into world queues.
    pub inputs_accepted: u64,
    /// Input frames rejected.
    pub inputs_rejected: u64,
    /// Reducer calls accepted into world queues.
    pub reducer_calls_accepted: u64,
    /// Reducer calls rejected (session, attachment, bounds, runtime).
    pub reducer_calls_rejected: u64,
    /// Client operations denied by the authorization policy.
    pub policy_rejections: u64,
    /// Client operations rejected by a rate limit.
    pub rate_limited: u64,
    /// Reducer results routed to clients.
    pub reducer_results_sent: u64,
    /// Tick update broadcasts sent.
    pub tick_updates_sent: u64,
    /// Subscription deltas and snapshots sent.
    pub subscription_messages_sent: u64,
}

impl NetworkCounters {
    /// Every counter at zero.
    pub open spec fn zero() -> NetworkCounters {
        NetworkCounters {
            frames_received: 0,
            frames_rejected: 0,
            messages_outbound: 0,
            messages_dropped: 0,
            clients_dropped: 0,
            protocol_errors: 0,
            auth_failures: 0,
            inputs_accepted: 0,
            inputs_rejected: 0,
            reducer_calls_accepted: 0,
            reducer_calls_rejected: 0,
            policy_rejections: 0,
            rate_limited: 0,
            reducer_results_sent: 0,
            tick_updates_sent: 0,
            subscription_messages_sent: 0,
        }
    }

    /// Every counter at zero.
    pub fn new() -> (counters: NetworkCounters)
        ensures
            counters == NetworkCounters::zero(),
    {
        NetworkCounters {
            frames_received: 0,
            frames_rejected: 0,
            messages_outbound: 0,
            messages_dropped: 0,
            clients_dropped: 0,
            protocol_errors: 0,
            auth_failures: 0,
            inputs_accepted: 0,
            inputs_rejected: 0,
            reducer_calls_accepted: 0,
            reducer_calls_rejected: 0,
            policy_rejections: 0,
            rate_limited: 0,
            reducer_results_sent: 0,
            tick_updates_sent: 0,
            subscription_messages_sent: 0,
        }
    }
}

/// A point-in-time snapshot of the gateway's gauges and counters.
#[derive(Debug, PartialEq, Eq)]
pub struct NetworkMetrics {
    /// Connections currently registered.
    pub connections: usize,
    /// Authenticated sessions.
    pub sessions: usize,
    /// Sessions attached to a world.
    pub attached: usize,
    /// Network subscriptions currently active (across sessions).
    pub subscriptions: usize,
    /// Sessions currently marked stale.
    pub sessions_stale: usize,
    /// Connections per attached world, worlds ascending.
    pub connections_per_world: Vec<(WorldId, u64)>,
    /// Frames received from clients.
    pub frames_received: u64,
    /// Frames rejected (protocol violations).
    pub frames_rejected: u64,
    /// Messages queued outbound to clients.
    pub messages_outbound: u64,
    /// Messages dropped for a stale session or policy overflow.
    pub messages_dropped: u64,
    /// Clients dropped (overflow policy, transport failure, violation).
    pub clients_dropped: u64,
    /// Protocol violations observed.
    pub protocol_errors: u64,
    /// Authentication failures.
    pub auth_failures: u64,
    /// Input frames accepted into world queues.
    pub inputs_accepted: u64,
    /// Input frames rejected.
    pub inputs_rejected: u64,
    /// Reducer calls accepted into world queues.
    pub reducer_calls_accepted: u64,
    /// Reducer calls rejected (session, attachment, bounds, runtime).
    pub reducer_calls_rejected: u64,
    /// Client operations denied by the authorization policy.
    pub policy_rejections: u64,
    /// Client operations rejected by a rate limit.
    pub rate_limited: u64,
    /// Reducer results routed to clients.
    pub reducer_results_sent: u64,
    /// Tick update broadcasts sent.
    pub tick_updates_sent: u64,
    /// Subscription deltas and snapshots sent.
    pub subscription_messages_sent: u64,
    /// Stage breakdown of the most recent step.
    pub last_step: GatewayStepProfile,
}

impl NetworkMetrics {
    /// The counters of the snapshot.
    pub open spec fn counters(self) -> NetworkCounters {
        NetworkCounters {
            frames_received: self.frames_received,
            frames_rejected: self.frames_rejected,
            messages_outbound: self.messages_outbound,
            messages_dropped: self.messages_dropped,
            clients_dropped: self.clients_dropped,
            protocol_errors: self.protocol_errors,
            auth_failures: self.auth_failures,
            inputs_accepted: self.inputs_accepted,
            inputs_rejected: self.inputs_rejected,
            reducer_calls_accepted: self.reducer_calls_accepted,
            reducer_calls_rejected: self.reducer_calls_rejected,
            policy_rejections: self.policy_rejections,
            rate_limited: self.rate_limited,
            reducer_results_sent: self.reducer_results_sent,
            tick_updates_sent: self.tick_updates_sent,
            subscription_messages_sent: self.subscription_messages_sent,
        }
    }

    /// A snapshot with the given counters and every gauge at zero.
    pub fn of(counters: NetworkCounters) -> (metrics: NetworkMetrics)
        ensures
            metrics.counters() == counters,
            metrics.connections == 0,
            metrics.sessions == 0,
            metrics.attached == 0,
            metrics.subscriptions == 0,
            metrics.sessions_stale == 0,
            metrics.connections_per_world@ == Seq::<(WorldId, u64)>::empty(),
            metrics.last_step == GatewayStepProfile::zero(),
    {
        NetworkMetrics {
            connections: 0,
            sessions: 0,
            attached: 0,
            subscriptions: 0,
            sessions_stale: 0,
            connections_per_world: Vec::new(),
            frames_received: counters.frames_received,
            frames_rejected: counters.frames_rejected,
            messages_outbound: counters.messages_outbound,
            messages_dropped: counters.messages_dropped,
            clients_dropped: counters.clients_dropped,
            protocol_errors: counters.protocol_errors,
            auth_failures: counters.auth_failures,
            inputs_accepted: counters.inputs_accepted,
            inputs_rejected: counters.inputs_rejected,
            reducer_calls_accepted: counters.reducer_calls_accepted,
            reducer_calls_rejected: counters.reducer_calls_rejected,
            policy_rejections: counters.policy_rejections,
            rate_limited: counters.rate_limited,
            reducer_results_sent: counters.reducer_results_sent,
            tick_updates_sent: counters.tick_updates_sent,
            subscription_messages_sent: counters.subscription_messages_sent,
            last_step: GatewayStepProfile::default(),
        }
    }

    /// A zeroed metrics snapshot (before any operation).
    pub fn empty() -> (metrics: NetworkMetrics)
        ensures
            metrics.counters() == NetworkCounters::zero(),
            metrics.connections == 0,
            metrics.sessions == 0,
            metrics.attached == 0,
            metrics.subscriptions == 0,
            metrics.sessions_stale == 0,
            metrics.connections_per_world@ == Seq::<(WorldId, u64)>::empty(),
            metrics.last_step == GatewayStepProfile::zero(),
    {
        NetworkMetrics::of(NetworkCounters::new())
    }
}

} // verus!
