//! Sessions and attachments.
//!
//! A connection is a transport handle; a [`Session`] is the authenticated
//! identity on it; an attachment binds a session to exactly one world. All of
//! this is operational state that dies with the process.

use vstd::prelude::*;

use crate::base::ids::{ConnectionId, SessionId, WorldId};
use crate::network::auth::{Principal, PrincipalView};

verus! {

/// An authenticated session on a connection. Its identity never changes.
#[derive(Debug, PartialEq, Eq)]
pub struct Session {
    id: SessionId,
    connection: ConnectionId,
    principal: Principal,
    attached_world: Option<WorldId>,
}

/// The mathematical content of a [`Session`].
pub struct SessionView {
    pub id: SessionId,
    pub connection: ConnectionId,
    pub principal: PrincipalView,
    pub attached_world: Option<WorldId>,
}

impl View for Session {
    type V = SessionView;

    closed spec fn view(&self) -> SessionView {
        SessionView {
            id: self.id,
            connection: self.connection,
            principal: self.principal@,
            attached_world: self.attached_world,
        }
    }
}

impl Session {
    /// Creates a session for `connection` authenticated as `principal`.
    pub fn new(id: SessionId, connection: ConnectionId, principal: Principal) -> (session: Session)
        ensures
            session@ == (SessionView {
                id,
                connection,
                principal: principal@,
                attached_world: None,
            }),
    {
        Session { id, connection, principal, attached_world: None }
    }

    /// The session id.
    pub fn id(&self) -> (id: SessionId)
        ensures
            id == self@.id,
    {
        self.id
    }

    /// The owning connection.
    pub fn connection(&self) -> (connection: ConnectionId)
        ensures
            connection == self@.connection,
    {
        self.connection
    }

    /// The authenticated principal.
    pub fn principal(&self) -> (principal: &Principal)
        ensures
            principal@ == self@.principal,
    {
        &self.principal
    }

    /// The world this session is attached to, if any.
    pub fn attached_world(&self) -> (world: Option<WorldId>)
        ensures
            world == self@.attached_world,
    {
        self.attached_world
    }

    /// Whether the session is attached to a world.
    pub fn is_attached(&self) -> (attached: bool)
        ensures
            attached == self@.attached_world is Some,
    {
        self.attached_world.is_some()
    }

    /// Attaches the session to a world.
    pub fn attach(&mut self, world: WorldId)
        ensures
            final(self)@ == (SessionView { attached_world: Some(world), ..old(self)@ }),
    {
        self.attached_world = Some(world);
    }

    /// Ends the attachment.
    pub fn detach(&mut self)
        ensures
            final(self)@ == (SessionView { attached_world: None, ..old(self)@ }),
    {
        self.attached_world = None;
    }
}

} // verus!
