//! The only surface a reducer sees.
//!
//! A [`ReducerContext`] wraps the invocation's single transaction and exposes
//! the operations a reducer may perform: reads, writes and events. A reducer
//! cannot commit, cannot abort, and cannot reach storage outside its
//! transaction. Events are buffered here and leave only after execution.

use vstd::prelude::*;
use vstd::string::*;

use crate::base::change::{Change, ChangeView};
use crate::base::error::{Error, ErrorView};
use crate::base::ids::{RowId, TransactionId};
use crate::base::value::{views, Row, Value, ValueView};
use crate::reducer::event::{ReducerEvent, ReducerEventView};

verus! {

/// One access to a transaction: what was asked, and what it answered.
#[allow(inconsistent_fields)]
pub enum Access {
    /// A row was read.
    Get {
        table: Seq<char>,
        row_id: RowId,
        answer: Result<Option<Seq<ValueView>>, ErrorView>,
    },
    /// A row was looked for.
    Contains { table: Seq<char>, row_id: RowId, answer: Result<bool, ErrorView> },
    /// A table was read.
    Scan { table: Seq<char>, answer: Result<Seq<(RowId, Seq<ValueView>)>, ErrorView> },
    /// The owners of a key were looked up.
    LookupUnique {
        table: Seq<char>,
        index_name: Seq<char>,
        key: Seq<ValueView>,
        answer: Result<Seq<RowId>, ErrorView>,
    },
    /// A row was inserted.
    Insert { table: Seq<char>, row: Seq<ValueView>, answer: Result<RowId, ErrorView> },
    /// A row was updated.
    Update {
        table: Seq<char>,
        row_id: RowId,
        row: Seq<ValueView>,
        answer: Result<(), ErrorView>,
    },
    /// A row was deleted.
    Delete { table: Seq<char>, row_id: RowId, answer: Result<(), ErrorView> },
    /// The transaction was to commit.
    Commit { answer: Result<Seq<ChangeView>, ErrorView> },
    /// The transaction was aborted.
    Abort,
}

/// The content of an answer whose value is its own content.
pub open spec fn plain_view<T>(answer: Result<T, Error>) -> Result<T, ErrorView> {
    match answer {
        Ok(x) => Ok(x),
        Err(error) => Err(error@),
    }
}

/// The content of what a read answered.
pub open spec fn row_view(answer: Result<Option<Row>, Error>) -> Result<
    Option<Seq<ValueView>>,
    ErrorView,
> {
    match answer {
        Ok(Some(row)) => Ok(Some(row@)),
        Ok(None) => Ok(None),
        Err(error) => Err(error@),
    }
}

/// The content of what a scan answered.
pub open spec fn rows_view(answer: Result<Vec<(RowId, Row)>, Error>) -> Result<
    Seq<(RowId, Seq<ValueView>)>,
    ErrorView,
> {
    match answer {
        Ok(rows) => Ok(Seq::new(rows@.len(), |i: int| (rows@[i].0, rows@[i].1@))),
        Err(error) => Err(error@),
    }
}

/// The content of what a lookup answered.
pub open spec fn owners_view(answer: Result<Vec<RowId>, Error>) -> Result<Seq<RowId>, ErrorView> {
    match answer {
        Ok(owners) => Ok(owners@),
        Err(error) => Err(error@),
    }
}

/// The content of what a commit answered.
pub open spec fn committed_view(answer: Result<Vec<Change>, Error>) -> Result<
    Seq<ChangeView>,
    ErrorView,
> {
    match answer {
        Ok(changes) => Ok(views(changes@)),
        Err(error) => Err(error@),
    }
}

/// A transaction over a store of tables. What it answers is its implementor's;
/// every access goes into its log, with what was asked and what it answered.
pub trait Transaction {
    /// Every access so far, oldest first.
    open spec fn accesses(&self) -> Seq<Access> {
        Seq::empty()
    }

    /// The transaction's id.
    fn id(&self) -> TransactionId;

    /// Whether the named table exists.
    fn has_table(&self, table: &str) -> bool;

    /// Reads a row through the transaction's logical view.
    fn get(&mut self, table: &str, row_id: RowId) -> (row: Result<Option<Row>, Error>)
        ensures
            final(self).accesses() == old(self).accesses().push(
                (Access::Get { table: table@, row_id, answer: row_view(row) }),
            ),
    ;

    /// Whether a row exists in the transaction's logical view.
    fn contains(&mut self, table: &str, row_id: RowId) -> (found: Result<bool, Error>)
        ensures
            final(self).accesses() == old(self).accesses().push(
                (Access::Contains { table: table@, row_id, answer: plain_view(found) }),
            ),
    ;

    /// The transaction's logical view of a table.
    fn scan(&mut self, table: &str) -> (rows: Result<Vec<(RowId, Row)>, Error>)
        ensures
            final(self).accesses() == old(self).accesses().push(
                (Access::Scan { table: table@, answer: rows_view(rows) }),
            ),
    ;

    /// The owners of a key in a unique index.
    fn lookup_unique(&mut self, table: &str, index_name: &str, key: &Vec<Value>) -> (owners: Result<
        Vec<RowId>,
        Error,
    >)
        ensures
            final(self).accesses() == old(self).accesses().push(
                (Access::LookupUnique {
                    table: table@,
                    index_name: index_name@,
                    key: views(key@),
                    answer: owners_view(owners),
                }),
            ),
    ;

    /// Buffers an insert under a provisional row id.
    fn insert(&mut self, table: &str, row: Row) -> (row_id: Result<RowId, Error>)
        ensures
            final(self).accesses() == old(self).accesses().push(
                (Access::Insert { table: table@, row: row@, answer: plain_view(row_id) }),
            ),
    ;

    /// Buffers an update.
    fn update(&mut self, table: &str, row_id: RowId, row: Row) -> (outcome: Result<(), Error>)
        ensures
            final(self).accesses() == old(self).accesses().push(
                (Access::Update { table: table@, row_id, row: row@, answer: plain_view(outcome) }),
            ),
    ;

    /// Buffers a delete.
    fn delete(&mut self, table: &str, row_id: RowId) -> (outcome: Result<(), Error>)
        ensures
            final(self).accesses() == old(self).accesses().push(
                (Access::Delete { table: table@, row_id, answer: plain_view(outcome) }),
            ),
    ;

    /// Commits, and tells the changes made.
    fn commit(&mut self) -> (changes: Result<Vec<Change>, Error>)
        ensures
            final(self).accesses() == old(self).accesses().push(
                (Access::Commit { answer: committed_view(changes) }),
            ),
    ;

    /// Aborts.
    fn abort(&mut self)
        ensures
            final(self).accesses() == old(self).accesses().push(Access::Abort),
    ;
}

/// What went on between two points of a transaction's log is work alone:
/// reads and writes, no commit and no abort.
pub open spec fn only_work(before: Seq<Access>, after: Seq<Access>) -> bool {
    &&& before.is_prefix_of(after)
    &&& forall|i: int|
        before.len() <= i < after.len() ==> !(#[trigger] after[i] is Commit) && !(after[i] is Abort)
}

/// The controlled execution surface handed to a reducer. It holds the
/// invocation's transaction and gives it back when the reducer is done.
pub struct ReducerContext<T> {
    tx: T,
    events: Vec<ReducerEvent>,
}

/// The verdict on emitting an event: its name must not be empty.
pub open spec fn emitted(
    events: Seq<ReducerEventView>,
    name: Seq<char>,
    payload: ValueView,
) -> Result<Seq<ReducerEventView>, ErrorView> {
    if name.len() == 0 {
        Err(ErrorView::InvalidArgument("reducer event name must not be empty"@))
    } else {
        Ok(events.push(ReducerEventView { name, payload }))
    }
}

impl<T: Transaction> ReducerContext<T> {
    /// The events buffered so far.
    pub closed spec fn buffered(&self) -> Seq<ReducerEventView> {
        views(self.events@)
    }

    /// The transaction as it stands.
    pub closed spec fn transaction(&self) -> T {
        self.tx
    }

    /// What this context did to its transaction is one more access, and no
    /// more events.
    pub open spec fn accessed(&self, before: Self, access: Access) -> bool {
        &&& self.transaction().accesses() == before.transaction().accesses().push(access)
        &&& self.buffered() == before.buffered()
    }

    /// Wraps the invocation's transaction.
    pub fn new(tx: T) -> (context: Self)
        ensures
            context.buffered() == Seq::<ReducerEventView>::empty(),
            context.transaction() == tx,
    {
        let events: Vec<ReducerEvent> = Vec::new();
        assert(views(events@) =~= Seq::<ReducerEventView>::empty());
        ReducerContext { tx, events }
    }

    /// Gives the transaction back; events still buffered are dropped.
    pub fn into_transaction(self) -> (tx: T)
        ensures
            tx == self.transaction(),
    {
        self.tx
    }

    /// Whether the named table exists.
    pub fn has_table(&self, table: &str) -> (found: bool)
        ensures
            call_ensures(T::has_table, (&self.transaction(), table), found),
    {
        self.tx.has_table(table)
    }

    /// Reads a row through the transaction's logical view.
    pub fn get(&mut self, table: &str, row_id: RowId) -> (row: Result<Option<Row>, Error>)
        ensures
            final(self).accessed(
                *old(self),
                (Access::Get { table: table@, row_id, answer: row_view(row) }),
            ),
    {
        self.tx.get(table, row_id)
    }

    /// Whether a row exists in the transaction's logical view.
    pub fn contains(&mut self, table: &str, row_id: RowId) -> (found: Result<bool, Error>)
        ensures
            final(self).accessed(
                *old(self),
                (Access::Contains { table: table@, row_id, answer: plain_view(found) }),
            ),
    {
        self.tx.contains(table, row_id)
    }

    /// The transaction's logical view of a table.
    pub fn scan(&mut self, table: &str) -> (rows: Result<Vec<(RowId, Row)>, Error>)
        ensures
            final(self).accessed(
                *old(self),
                (Access::Scan { table: table@, answer: rows_view(rows) }),
            ),
    {
        self.tx.scan(table)
    }

    /// The owners of a key in a unique index.
    pub fn lookup_unique(&mut self, table: &str, index_name: &str, key: &Vec<Value>) -> (owners:
        Result<Vec<RowId>, Error>)
        ensures
            final(self).accessed(
                *old(self),
                (Access::LookupUnique {
                    table: table@,
                    index_name: index_name@,
                    key: views(key@),
                    answer: owners_view(owners),
                }),
            ),
    {
        self.tx.lookup_unique(table, index_name, key)
    }

    /// Buffers an insert; yields a provisional row id.
    pub fn insert(&mut self, table: &str, row: Row) -> (row_id: Result<RowId, Error>)
        ensures
            final(self).accessed(
                *old(self),
                (Access::Insert { table: table@, row: row@, answer: plain_view(row_id) }),
            ),
    {
        self.tx.insert(table, row)
    }

    /// Buffers an update.
    pub fn update(&mut self, table: &str, row_id: RowId, row: Row) -> (outcome: Result<(), Error>)
        ensures
            final(self).accessed(
                *old(self),
                (Access::Update { table: table@, row_id, row: row@, answer: plain_view(outcome) }),
            ),
    {
        self.tx.update(table, row_id, row)
    }

    /// Buffers a delete.
    pub fn delete(&mut self, table: &str, row_id: RowId) -> (outcome: Result<(), Error>)
        ensures
            final(self).accessed(
                *old(self),
                (Access::Delete { table: table@, row_id, answer: plain_view(outcome) }),
            ),
    {
        self.tx.delete(table, row_id)
    }

    /// Buffers an application event, or `InvalidArgument` for an empty name.
    pub fn emit(&mut self, name: &str, payload: Value) -> (outcome: Result<(), Error>)
        ensures
            match outcome {
                Ok(_) => emitted(old(self).buffered(), name@, payload@) == Ok::<
                    Seq<ReducerEventView>,
                    ErrorView,
                >(final(self).buffered()),
                Err(e) => emitted(old(self).buffered(), name@, payload@) == Err::<
                    Seq<ReducerEventView>,
                    ErrorView,
                >(e@) && final(self).buffered() == old(self).buffered(),
            },
            final(self).transaction() == old(self).transaction(),
    {
        if name.unicode_len() == 0 {
            return Err(Error::invalid_argument("reducer event name must not be empty"));
        }
        let event = ReducerEvent::new(name, payload);
        self.events.push(event);
        assert(views(self.events@) =~= views(old(self).events@).push(event@));
        Ok(())
    }

    /// Takes the buffered events in the order they were emitted.
    pub fn take_events(&mut self) -> (events: Vec<ReducerEvent>)
        ensures
            views(events@) == old(self).buffered(),
            final(self).buffered() == Seq::<ReducerEventView>::empty(),
            final(self).transaction() == old(self).transaction(),
    {
        let mut events: Vec<ReducerEvent> = Vec::new();
        core::mem::swap(&mut self.events, &mut events);
        assert(views(self.events@) =~= Seq::<ReducerEventView>::empty());
        events
    }
}

/// Events are buffered in the order in which they were emitted, each with its
/// name and payload; one without a name is refused and nothing is buffered.
pub proof fn events_are_buffered_in_order(
    events: Seq<ReducerEventView>,
    name: Seq<char>,
    payload: ValueView,
)
    ensures
        ({
            let after = emitted(events, name, payload);
            &&& after is Ok <==> name.len() > 0
            &&& after is Ok ==> after->Ok_0.len() == events.len() + 1 && events.is_prefix_of(
                after->Ok_0,
            ) && after->Ok_0.last().name == name && after->Ok_0.last().payload == payload
            &&& after is Err ==> after->Err_0 is InvalidArgument
        }),
{
}

} // verus!
