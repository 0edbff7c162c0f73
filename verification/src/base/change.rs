//! Row changes a transaction commits, and rows a subscription delivers.

use vstd::prelude::*;

use crate::base::ids::{RowId, TableId, Version};
use crate::base::value::{Duplicate, Row, ValueView};

verus! {

/// What a change does to its row.
#[derive(Clone, Copy, Debug, PartialEq, Eq, Structural)]
pub enum ChangeKind {
    /// The row appears.
    Insert,
    /// The row gets new contents.
    Update,
    /// The row disappears.
    Delete,
}

/// The rows and versions a change carries.
#[derive(Debug, PartialEq, Eq)]
pub enum ChangeBody {
    /// The row that appeared.
    Insert { row: Row, version: Version },
    /// The contents before and after.
    Update { old_row: Row, old_version: Version, new_row: Row, new_version: Version },
    /// The row that disappeared.
    Delete { row: Row, version: Version },
}

/// One committed row change.
#[derive(Debug, PartialEq, Eq)]
pub struct Change {
    /// The table of the row.
    pub table_id: TableId,
    /// The row.
    pub row_id: RowId,
    /// What happened to it.
    pub body: ChangeBody,
}

/// The mathematical content of a [`ChangeBody`].
pub enum ChangeBodyView {
    Insert { row: Seq<ValueView>, version: Version },
    Update {
        old_row: Seq<ValueView>,
        old_version: Version,
        new_row: Seq<ValueView>,
        new_version: Version,
    },
    Delete { row: Seq<ValueView>, version: Version },
}

/// The mathematical content of a [`Change`].
pub struct ChangeView {
    pub table_id: TableId,
    pub row_id: RowId,
    pub body: ChangeBodyView,
}

impl View for ChangeBody {
    type V = ChangeBodyView;

    open spec fn view(&self) -> ChangeBodyView {
        match self {
            ChangeBody::Insert { row, version } => ChangeBodyView::Insert {
                row: row@,
                version: *version,
            },
            ChangeBody::Update { old_row, old_version, new_row, new_version } =>
                ChangeBodyView::Update {
                old_row: old_row@,
                old_version: *old_version,
                new_row: new_row@,
                new_version: *new_version,
            },
            ChangeBody::Delete { row, version } => ChangeBodyView::Delete {
                row: row@,
                version: *version,
            },
        }
    }
}

impl View for Change {
    type V = ChangeView;

    open spec fn view(&self) -> ChangeView {
        ChangeView { table_id: self.table_id, row_id: self.row_id, body: self.body@ }
    }
}

impl Change {
    /// The row appeared.
    pub fn insert(table_id: TableId, row_id: RowId, row: Row, version: Version) -> (change: Change)
        ensures
            change@ == (ChangeView {
                table_id,
                row_id,
                body: ChangeBodyView::Insert { row: row@, version },
            }),
    {
        Change { table_id, row_id, body: ChangeBody::Insert { row, version } }
    }

    /// The row got new contents.
    pub fn update(
        table_id: TableId,
        row_id: RowId,
        old_row: Row,
        old_version: Version,
        new_row: Row,
        new_version: Version,
    ) -> (change: Change)
        ensures
            change@ == (ChangeView {
                table_id,
                row_id,
                body: ChangeBodyView::Update {
                    old_row: old_row@,
                    old_version,
                    new_row: new_row@,
                    new_version,
                },
            }),
    {
        Change {
            table_id,
            row_id,
            body: ChangeBody::Update { old_row, old_version, new_row, new_version },
        }
    }

    /// The row disappeared.
    pub fn delete(table_id: TableId, row_id: RowId, row: Row, version: Version) -> (change: Change)
        ensures
            change@ == (ChangeView {
                table_id,
                row_id,
                body: ChangeBodyView::Delete { row: row@, version },
            }),
    {
        Change { table_id, row_id, body: ChangeBody::Delete { row, version } }
    }
}

impl Clone for Change {
    fn clone(&self) -> (copy: Self)
        ensures
            copy@ == self@,
    {
        let body = match &self.body {
            ChangeBody::Insert { row, version } => ChangeBody::Insert {
                row: row.clone(),
                version: *version,
            },
            ChangeBody::Update { old_row, old_version, new_row, new_version } =>
                ChangeBody::Update {
                old_row: old_row.clone(),
                old_version: *old_version,
                new_row: new_row.clone(),
                new_version: *new_version,
            },
            ChangeBody::Delete { row, version } => ChangeBody::Delete {
                row: row.clone(),
                version: *version,
            },
        };
        Change { table_id: self.table_id, row_id: self.row_id, body }
    }
}

/// A row as a subscription delivers it: identity and contents.
#[derive(Debug, PartialEq, Eq)]
pub struct DeliveredRow {
    /// The identity of the row.
    pub row_id: RowId,
    /// The contents of the row.
    pub row: Row,
}

/// The mathematical content of a [`DeliveredRow`].
pub struct DeliveredRowView {
    pub row_id: RowId,
    pub row: Seq<ValueView>,
}

impl View for DeliveredRow {
    type V = DeliveredRowView;

    open spec fn view(&self) -> DeliveredRowView {
        DeliveredRowView { row_id: self.row_id, row: self.row@ }
    }
}

impl DeliveredRow {
    /// A delivered row.
    pub fn new(row_id: RowId, row: Row) -> (delivered: DeliveredRow)
        ensures
            delivered@ == (DeliveredRowView { row_id, row: row@ }),
    {
        DeliveredRow { row_id, row }
    }
}

impl Clone for DeliveredRow {
    fn clone(&self) -> (copy: Self)
        ensures
            copy@ == self@,
    {
        DeliveredRow { row_id: self.row_id, row: self.row.clone() }
    }
}

impl Duplicate for Change {
    fn duplicate(&self) -> (copy: Change) {
        self.clone()
    }
}

impl Duplicate for DeliveredRow {
    fn duplicate(&self) -> (copy: DeliveredRow) {
        self.clone()
    }
}

} // verus!
