//! What a subscription tells its owner.

use vstd::prelude::*;

use crate::base::change::{DeliveredRow, DeliveredRowView};
use crate::base::ids::RowId;
use crate::base::value::views;

verus! {

/// One update of a subscription's view.
#[allow(inconsistent_fields)]
#[derive(Debug, PartialEq, Eq)]
pub enum SubscriptionUpdate {
    /// The whole view when the subscription was established.
    Initial { seq: u64, rows: Vec<DeliveredRow> },
    /// The whole view after a resync.
    Resync { seq: u64, rows: Vec<DeliveredRow> },
    /// A row entered the view.
    Insert { seq: u64, row: DeliveredRow },
    /// A row in the view changed.
    Update { seq: u64, row: DeliveredRow },
    /// A row left the view.
    Delete { seq: u64, row_id: RowId },
    /// The view is invalid until a resync.
    Stale { seq: u64 },
}

/// The mathematical content of a [`SubscriptionUpdate`].
#[allow(inconsistent_fields)]
pub enum SubscriptionUpdateView {
    Initial { seq: u64, rows: Seq<DeliveredRowView> },
    Resync { seq: u64, rows: Seq<DeliveredRowView> },
    Insert { seq: u64, row: DeliveredRowView },
    Update { seq: u64, row: DeliveredRowView },
    Delete { seq: u64, row_id: RowId },
    Stale { seq: u64 },
}

impl View for SubscriptionUpdate {
    type V = SubscriptionUpdateView;

    open spec fn view(&self) -> SubscriptionUpdateView {
        match *self {
            SubscriptionUpdate::Initial { seq, rows } => SubscriptionUpdateView::Initial {
                seq,
                rows: views(rows@),
            },
            SubscriptionUpdate::Resync { seq, rows } => SubscriptionUpdateView::Resync {
                seq,
                rows: views(rows@),
            },
            SubscriptionUpdate::Insert { seq, row } => SubscriptionUpdateView::Insert {
                seq,
                row: row@,
            },
            SubscriptionUpdate::Update { seq, row } => SubscriptionUpdateView::Update {
                seq,
                row: row@,
            },
            SubscriptionUpdate::Delete { seq, row_id } => SubscriptionUpdateView::Delete {
                seq,
                row_id,
            },
            SubscriptionUpdate::Stale { seq } => SubscriptionUpdateView::Stale { seq },
        }
    }
}

} // verus!
