//! Typed identifiers: one newtype over `u64` per kind of thing.

use vstd::prelude::*;

verus! {

/// Identifies one client connection.
#[derive(Clone, Copy, Debug, PartialEq, Eq, PartialOrd, Ord, Hash, Structural)]
pub struct ConnectionId(pub u64);

impl ConnectionId {
    /// Wraps a raw number.
    pub fn from_u64(raw: u64) -> (id: Self)
        ensures
            id.0 == raw,
    {
        ConnectionId(raw)
    }

    /// The raw number.
    pub fn as_u64(self) -> (raw: u64)
        ensures
            raw == self.0,
    {
        self.0
    }
}

impl View for ConnectionId {
    type V = ConnectionId;

    open spec fn view(&self) -> ConnectionId {
        *self
    }
}

/// Identifies one authenticated session.
#[derive(Clone, Copy, Debug, PartialEq, Eq, PartialOrd, Ord, Hash, Structural)]
pub struct SessionId(pub u64);

impl SessionId {
    /// Wraps a raw number.
    pub fn from_u64(raw: u64) -> (id: Self)
        ensures
            id.0 == raw,
    {
        SessionId(raw)
    }

    /// The raw number.
    pub fn as_u64(self) -> (raw: u64)
        ensures
            raw == self.0,
    {
        self.0
    }
}

impl View for SessionId {
    type V = SessionId;

    open spec fn view(&self) -> SessionId {
        *self
    }
}

/// Identifies a world.
#[derive(Clone, Copy, Debug, PartialEq, Eq, PartialOrd, Ord, Hash, Structural)]
pub struct WorldId(pub u64);

impl WorldId {
    /// Wraps a raw number.
    pub fn from_u64(raw: u64) -> (id: Self)
        ensures
            id.0 == raw,
    {
        WorldId(raw)
    }

    /// The raw number.
    pub fn as_u64(self) -> (raw: u64)
        ensures
            raw == self.0,
    {
        self.0
    }
}

impl View for WorldId {
    type V = WorldId;

    open spec fn view(&self) -> WorldId {
        *self
    }
}

/// Identifies a worker of the runtime.
#[derive(Clone, Copy, Debug, PartialEq, Eq, PartialOrd, Ord, Hash, Structural)]
pub struct WorkerId(pub u64);

impl WorkerId {
    /// Wraps a raw number.
    pub fn from_u64(raw: u64) -> (id: Self)
        ensures
            id.0 == raw,
    {
        WorkerId(raw)
    }

    /// The raw number.
    pub fn as_u64(self) -> (raw: u64)
        ensures
            raw == self.0,
    {
        self.0
    }
}

impl View for WorkerId {
    type V = WorkerId;

    open spec fn view(&self) -> WorkerId {
        *self
    }
}

/// Identifies a partition.
#[derive(Clone, Copy, Debug, PartialEq, Eq, PartialOrd, Ord, Hash, Structural)]
pub struct PartitionId(pub u64);

impl PartitionId {
    /// Wraps a raw number.
    pub fn from_u64(raw: u64) -> (id: Self)
        ensures
            id.0 == raw,
    {
        PartitionId(raw)
    }

    /// The raw number.
    pub fn as_u64(self) -> (raw: u64)
        ensures
            raw == self.0,
    {
        self.0
    }
}

impl View for PartitionId {
    type V = PartitionId;

    open spec fn view(&self) -> PartitionId {
        *self
    }
}

/// Identifies a subscription, unique within its world.
#[derive(Clone, Copy, Debug, PartialEq, Eq, PartialOrd, Ord, Hash, Structural)]
pub struct SubscriptionId(pub u64);

impl SubscriptionId {
    /// Wraps a raw number.
    pub fn from_u64(raw: u64) -> (id: Self)
        ensures
            id.0 == raw,
    {
        SubscriptionId(raw)
    }

    /// The raw number.
    pub fn as_u64(self) -> (raw: u64)
        ensures
            raw == self.0,
    {
        self.0
    }
}

impl View for SubscriptionId {
    type V = SubscriptionId;

    open spec fn view(&self) -> SubscriptionId {
        *self
    }
}

/// Identifies a row, unique within its table.
#[derive(Clone, Copy, Debug, PartialEq, Eq, PartialOrd, Ord, Hash, Structural)]
pub struct RowId(pub u64);

impl RowId {
    /// Wraps a raw number.
    pub fn from_u64(raw: u64) -> (id: Self)
        ensures
            id.0 == raw,
    {
        RowId(raw)
    }

    /// The raw number.
    pub fn as_u64(self) -> (raw: u64)
        ensures
            raw == self.0,
    {
        self.0
    }
}

impl View for RowId {
    type V = RowId;

    open spec fn view(&self) -> RowId {
        *self
    }
}

/// Identifies a table.
#[derive(Clone, Copy, Debug, PartialEq, Eq, PartialOrd, Ord, Hash, Structural)]
pub struct TableId(pub u64);

impl TableId {
    /// Wraps a raw number.
    pub fn from_u64(raw: u64) -> (id: Self)
        ensures
            id.0 == raw,
    {
        TableId(raw)
    }

    /// The raw number.
    pub fn as_u64(self) -> (raw: u64)
        ensures
            raw == self.0,
    {
        self.0
    }
}

impl View for TableId {
    type V = TableId;

    open spec fn view(&self) -> TableId {
        *self
    }
}

/// Identifies one tick of a world.
#[derive(Clone, Copy, Debug, PartialEq, Eq, PartialOrd, Ord, Hash, Structural)]
pub struct TickId(pub u64);

impl TickId {
    /// Wraps a raw number.
    pub fn from_u64(raw: u64) -> (id: Self)
        ensures
            id.0 == raw,
    {
        TickId(raw)
    }

    /// The raw number.
    pub fn as_u64(self) -> (raw: u64)
        ensures
            raw == self.0,
    {
        self.0
    }
}

impl View for TickId {
    type V = TickId;

    open spec fn view(&self) -> TickId {
        *self
    }
}

/// Identifies a transaction.
#[derive(Clone, Copy, Debug, PartialEq, Eq, PartialOrd, Ord, Hash, Structural)]
pub struct TransactionId(pub u64);

impl TransactionId {
    /// Wraps a raw number.
    pub fn from_u64(raw: u64) -> (id: Self)
        ensures
            id.0 == raw,
    {
        TransactionId(raw)
    }

    /// The raw number.
    pub fn as_u64(self) -> (raw: u64)
        ensures
            raw == self.0,
    {
        self.0
    }
}

impl View for TransactionId {
    type V = TransactionId;

    open spec fn view(&self) -> TransactionId {
        *self
    }
}

/// Identifies a registered reducer.
#[derive(Clone, Copy, Debug, PartialEq, Eq, PartialOrd, Ord, Hash, Structural)]
pub struct ReducerId(pub u64);

impl ReducerId {
    /// Wraps a raw number.
    pub fn from_u64(raw: u64) -> (id: Self)
        ensures
            id.0 == raw,
    {
        ReducerId(raw)
    }

    /// The raw number.
    pub fn as_u64(self) -> (raw: u64)
        ensures
            raw == self.0,
    {
        self.0
    }
}

impl View for ReducerId {
    type V = ReducerId;

    open spec fn view(&self) -> ReducerId {
        *self
    }
}

/// Identifies one version of a row.
#[derive(Clone, Copy, Debug, PartialEq, Eq, PartialOrd, Ord, Hash, Structural)]
pub struct Version(pub u64);

impl Version {
    /// Wraps a raw number.
    pub fn from_u64(raw: u64) -> (id: Self)
        ensures
            id.0 == raw,
    {
        Version(raw)
    }

    /// The raw number.
    pub fn as_u64(self) -> (raw: u64)
        ensures
            raw == self.0,
    {
        self.0
    }
}

impl View for Version {
    type V = Version;

    open spec fn view(&self) -> Version {
        *self
    }
}

} // verus!
