//! The database server: the public-facing entry point.
//!
//! [`NexumServer`] composes a gateway, which owns the runtime, into a single
//! type. The server is the database; reducers are server functions; tables
//! are authoritative state.

use vstd::prelude::*;

use crate::base::error::ErrorView;
use crate::base::ids::ConnectionId;
use crate::base::table::ascending;
use crate::base::value::views;
use crate::network::auth::Authenticator;
use crate::network::config::NetworkConfig;
use crate::network::error::{NetworkError, NetworkErrorView};
use crate::network::gateway::NetworkGateway;
use crate::network::gateway_laws::extends_transitive;
use crate::network::gateway_model::{GatewayView, StepReport};
use crate::network::host::{extends, goes_on, host_part, in_touch, Exchange, SubscriptionHost};
use crate::network::policy::{AllowAllPolicy, GamePolicy};
use crate::network::transport::Connection;
use crate::runtime::coordinator::Runtime;
use crate::runtime::error::RuntimeErrorView;
use crate::runtime::report::FlushFailure;
use crate::runtime::tick::{TickInput, TickInputView, TickRun};

verus! {

/// The reason clients are given when the server shuts down.
pub const SHUTDOWN_REASON: &'static str = "server shutdown";

/// The database server.
pub struct NexumServer<C, A, P> {
    gateway: NetworkGateway<C, A, P>,
}

impl<C: Connection, A, P> View for NexumServer<C, A, P> {
    type V = GatewayView;

    closed spec fn view(&self) -> GatewayView {
        self.gateway@
    }
}

impl GatewayView {
    /// Taking in what clients sent and planning the next tick of every
    /// running world.
    pub open spec fn step_begun(self, now: u64, h: Seq<Exchange>) -> (
        GatewayView,
        Result<Seq<TickInputView>, NetworkErrorView>,
    ) {
        let (processed, _) = self.inbound_processed(now, h);
        if processed.runtime.running() {
            let (runtime, inputs) = processed.runtime.inputs_taken(processed.runtime.tick_order());
            (GatewayView { runtime, ..processed }, Ok(inputs))
        } else {
            (processed, Err(NetworkErrorView::Runtime(RuntimeErrorView::Shutdown)))
        }
    }

    /// Closing several connections for the same reason, in order.
    pub open spec fn all_disconnected(
        self,
        ids: Seq<u64>,
        reason: Seq<char>,
        h: Seq<Exchange>,
    ) -> GatewayView
        decreases ids.len(),
    {
        if ids.len() == 0 {
            self
        } else {
            self.all_disconnected(ids.drop_last(), reason, h).disconnected(
                ConnectionId(ids.last()),
                reason,
                h,
            )
        }
    }
}

impl<C: Connection, A: Authenticator> NexumServer<C, A, AllowAllPolicy> {
    /// Creates a server that authorizes every operation.
    pub fn new(runtime: Runtime, network_config: NetworkConfig, authenticator: A) -> (server: Result<
        Self,
        NetworkError,
    >)
        requires
            runtime.wf(),
        ensures
            match server {
                Ok(s) => network_config@.violation() is None && s@ == GatewayView::initial(
                    runtime@,
                    network_config@,
                ) && s.wf() && s.authenticator() == authenticator && s.policy_in_force()
                    == AllowAllPolicy,
                Err(e) => network_config@.violation() is Some && e@ == NetworkErrorView::Core(
                    ErrorView::InvalidArgument(network_config@.violation()->0),
                ),
            },
    {
        match NetworkGateway::new(runtime, network_config, authenticator) {
            Ok(gateway) => Ok(NexumServer { gateway }),
            Err(error) => Err(error),
        }
    }
}

impl<C: Connection, A: Authenticator, P: GamePolicy> NexumServer<C, A, P> {
    /// What every operation keeps.
    pub closed spec fn wf(&self) -> bool {
        self.gateway.wf()
    }

    /// The authenticator.
    pub closed spec fn authenticator(&self) -> A {
        self.gateway.authenticator()
    }

    /// The authorization policy that decides from here on.
    pub closed spec fn policy_in_force(&self) -> P {
        self.gateway.policy_in_force()
    }

    /// How long the record was when that policy was installed.
    pub closed spec fn policy_since(&self) -> nat {
        self.gateway.policy_since()
    }

    /// Whether authenticator and policy are those of an earlier moment.
    pub open spec fn judged_as(&self, before: Self) -> bool {
        &&& self.authenticator() == before.authenticator()
        &&& self.policy_in_force() == before.policy_in_force()
        &&& self.policy_since() == before.policy_since()
    }

    /// Creates a server with an authorization policy.
    pub fn with_policy(
        runtime: Runtime,
        network_config: NetworkConfig,
        authenticator: A,
        policy: P,
    ) -> (server: Result<Self, NetworkError>)
        requires
            runtime.wf(),
        ensures
            match server {
                Ok(s) => network_config@.violation() is None && s@ == GatewayView::initial(
                    runtime@,
                    network_config@,
                ) && s.wf() && s.authenticator() == authenticator && s.policy_in_force() == policy,
                Err(e) => network_config@.violation() is Some && e@ == NetworkErrorView::Core(
                    ErrorView::InvalidArgument(network_config@.violation()->0),
                ),
            },
    {
        match NetworkGateway::with_policy(runtime, network_config, authenticator, policy) {
            Ok(gateway) => Ok(NexumServer { gateway }),
            Err(error) => Err(error),
        }
    }

    /// The gateway.
    pub fn gateway(&self) -> (gateway: &NetworkGateway<C, A, P>)
        requires
            self.wf(),
        ensures
            gateway@ == self@,
            gateway.wf(),
            gateway.authenticator() == self.authenticator(),
            gateway.policy_in_force() == self.policy_in_force(),
    {
        &self.gateway
    }

    /// The gateway, for changes.
    pub fn gateway_mut(&mut self) -> (gateway: &mut NetworkGateway<C, A, P>)
        requires
            old(self).wf(),
        ensures
            gateway@ == old(self)@,
            gateway.wf(),
            gateway.authenticator() == old(self).authenticator(),
            gateway.policy_in_force() == old(self).policy_in_force(),
            final(self)@ == final(gateway)@,
            final(self).authenticator() == final(gateway).authenticator(),
            final(self).policy_in_force() == final(gateway).policy_in_force(),
            final(self).policy_since() == final(gateway).policy_since(),
            final(gateway).wf() ==> final(self).wf(),
    {
        &mut self.gateway
    }

    /// The runtime.
    pub fn runtime(&self) -> (runtime: &Runtime)
        requires
            self.wf(),
        ensures
            runtime@ == self@.runtime,
            runtime.wf(),
    {
        self.gateway.runtime()
    }

    /// The runtime, for changes.
    pub fn runtime_mut(&mut self) -> (runtime: &mut Runtime)
        requires
            old(self).wf(),
        ensures
            runtime@ == old(self)@.runtime,
            runtime.wf(),
            final(self)@ == (GatewayView { runtime: final(runtime)@, ..old(self)@ }),
            final(runtime).wf() ==> final(self).wf(),
            final(self).judged_as(*old(self)),
    {
        self.gateway.runtime_mut()
    }

    /// Begins a step: processes what clients sent, and plans the next tick of
    /// every running world. The host runs those ticks and hands the outcomes
    /// to [`NexumServer::step`].
    pub fn begin_step<R: SubscriptionHost>(&mut self, host: &mut R, now: u64) -> (inputs: Result<
        Vec<TickInput>,
        NetworkError,
    >)
        requires
            old(self).wf(),
        ensures
            final(self).wf(),
            final(self).judged_as(*old(self)),
            extends(old(self)@.history, final(self)@.history),
            in_touch(
                old(host).exchanges(),
                host_part(old(self)@.history),
                final(host).exchanges(),
                host_part(final(self)@.history),
            ),
            forall|h: Seq<Exchange>| #[trigger]
                extends(final(self)@.history, h) ==> (final(self)@, planned_view(inputs)) == old(
                    self,
                )@.step_begun(now, h),
    {
        let _ = self.gateway.process_inbound(host, now);
        match self.gateway.runtime_mut().plan_step() {
            Ok(inputs) => Ok(inputs),
            Err(error) => Err(NetworkError::Runtime(error)),
        }
    }

    /// Completes a step, given how the planned ticks ran: the outcomes are
    /// settled and fanned out to the connected clients.
    pub fn step<R: SubscriptionHost>(&mut self, host: &mut R, runs: Vec<TickRun>) -> (report:
        Result<StepReport, NetworkError>)
        requires
            old(self).wf(),
        ensures
            final(self).wf(),
            final(self).judged_as(*old(self)),
            extends(old(self)@.history, final(self)@.history),
            in_touch(
                old(host).exchanges(),
                host_part(old(self)@.history),
                final(host).exchanges(),
                host_part(final(self)@.history),
            ),
            match report {
                Ok(report) => old(self)@.runtime.running() && forall|h: Seq<Exchange>| #[trigger]
                    extends(final(self)@.history, h) ==> (final(self)@, report) == (GatewayView {
                        runtime: old(self)@.runtime.ticks_settled(views(runs@)).0,
                        ..old(self)@
                    }).stepped(old(self)@.runtime.committed_results(views(runs@)), h),
                Err(e) => !old(self)@.runtime.running() && final(self)@ == old(self)@ && e@
                    == NetworkErrorView::Runtime(RuntimeErrorView::Shutdown),
            },
    {
        self.gateway.step_worlds(host, runs)
    }

    /// Shuts the server down: the runtime stops, and every client is
    /// disconnected. `failures` names the worlds whose log could not be
    /// flushed.
    pub fn shutdown(&mut self, failures: Vec<FlushFailure>)
        requires
            old(self).wf(),
        ensures
            final(self).wf(),
            final(self).judged_as(*old(self)),
            goes_on(old(self)@.history, final(self)@.history),
            forall|h: Seq<Exchange>| #[trigger]
                extends(final(self)@.history, h) ==> final(self)@ == (GatewayView {
                    runtime: old(self)@.runtime.shut_down(views(failures@)).0,
                    ..old(self)@
                }).all_disconnected(ascending(old(self)@.connections.dom()), SHUTDOWN_REASON@, h),
    {
        let _ = self.gateway.runtime_mut().shutdown(failures);
        let ghost stopped = self@;
        let ids = self.gateway.connection_ids();
        let mut i: usize = 0;
        assert(ids@.take(0) =~= Seq::empty());
        while i < ids.len()
            invariant
                i <= ids@.len(),
                self.wf(),
                self.judged_as(*old(self)),
                goes_on(stopped.history, self@.history),
                forall|h: Seq<Exchange>| #[trigger]
                    extends(self@.history, h) ==> self@ == stopped.all_disconnected(
                        ids@.take(i as int),
                        SHUTDOWN_REASON@,
                        h,
                    ),
            decreases ids@.len() - i,
        {
            let ghost before = self@;
            assert(ids@.take(i + 1).drop_last() =~= ids@.take(i as int));
            self.gateway.part_with(ConnectionId::from_u64(ids[i]), SHUTDOWN_REASON);
            assert forall|h: Seq<Exchange>| #[trigger] extends(
                self@.history,
                h,
            ) implies self@ == stopped.all_disconnected(ids@.take(i + 1), SHUTDOWN_REASON@, h) by {
                extends_transitive(before.history, self@.history, h);
            }
            proof {
                extends_transitive(stopped.history, before.history, self@.history);
            }
            i = i + 1;
        }
        assert(ids@.take(ids@.len() as int) =~= ids@);
    }
}

/// The content of a step plan.
pub open spec fn planned_view(inputs: Result<Vec<TickInput>, NetworkError>) -> Result<
    Seq<TickInputView>,
    NetworkErrorView,
> {
    match inputs {
        Ok(inputs) => Ok(views(inputs@)),
        Err(error) => Err(error@),
    }
}

} // verus!
