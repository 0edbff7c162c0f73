//! Gateway authorization policy.
//!
//! The gateway consults a [`GamePolicy`] before the three client operations
//! that can change authoritative state: attaching to a world, submitting an
//! input frame, and calling a reducer. Denials happen before any runtime
//! call and never change state.

use vstd::prelude::*;

use crate::base::ids::WorldId;
use crate::base::input::InputFrame;
use crate::network::auth::Principal;

verus! {

/// Decides whether a client operation is authorized. Every method allows by
/// default, so implementors override what they care about.
pub trait GamePolicy {
    /// Whether `principal` may attach to `world`.
    fn authorize_attach(&self, principal: &Principal, world: WorldId) -> bool {
        true
    }

    /// Whether `principal` may submit `frame` (whose commands are already
    /// stamped with the principal id) to `world`.
    fn authorize_input(&self, principal: &Principal, world: WorldId, frame: &InputFrame) -> bool {
        true
    }

    /// Whether `principal` may invoke the reducer named `reducer` on `world`.
    fn authorize_reducer(&self, principal: &Principal, world: WorldId, reducer: &str) -> bool {
        true
    }
}

/// The default policy: every authenticated principal may attach, submit
/// input, and call reducers.
#[derive(Clone, Copy, Debug)]
pub struct AllowAllPolicy;

impl GamePolicy for AllowAllPolicy {
    fn authorize_attach(&self, principal: &Principal, world: WorldId) -> (allowed: bool)
        ensures
            allowed,
    {
        true
    }

    fn authorize_input(&self, principal: &Principal, world: WorldId, frame: &InputFrame) -> (allowed:
        bool)
        ensures
            allowed,
    {
        true
    }

    fn authorize_reducer(&self, principal: &Principal, world: WorldId, reducer: &str) -> (allowed:
        bool)
        ensures
            allowed,
    {
        true
    }
}

impl Default for AllowAllPolicy {
    fn default() -> (policy: Self)
        ensures
            policy == AllowAllPolicy,
    {
        AllowAllPolicy
    }
}

} // verus!
