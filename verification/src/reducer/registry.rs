//! The reducer registry and the invocation of reducers.
//!
//! One invocation is one transaction: the reducer runs through a fresh
//! context; if it returns a value the transaction commits and the result
//! carries the changes, the events and the value; if it returns an error or
//! panics the transaction aborts and the events are dropped.

use vstd::prelude::*;
use vstd::string::*;

use crate::base::change::{Change, ChangeView};
use crate::base::error::{Error, ErrorView};
use crate::base::ids::{ReducerId, TransactionId};
use crate::base::table::{ascending, Table};
use crate::base::text::{decimal, join, with_number};
use crate::base::value::{views, Value, ValueView};
use crate::reducer::args::ReducerArgs;
use crate::reducer::context::{committed_view, only_work, Access, ReducerContext, Transaction};
use crate::reducer::definition::{
    DefinitionView, Execution, ExecutionView, Reducer, ReducerDefinition, RunView,
};
use crate::reducer::event::{ReducerEvent, ReducerEventView};

verus! {

/// The outcome of a successful reducer invocation.
#[derive(Debug)]
pub struct ReducerResult {
    tx_id: TransactionId,
    changes: Vec<Change>,
    events: Vec<ReducerEvent>,
    return_value: Value,
}

/// The mathematical content of a [`ReducerResult`].
pub struct ReducerResultView {
    pub tx_id: TransactionId,
    pub changes: Seq<ChangeView>,
    pub events: Seq<ReducerEventView>,
    pub return_value: ValueView,
}

impl View for ReducerResult {
    type V = ReducerResultView;

    closed spec fn view(&self) -> ReducerResultView {
        ReducerResultView {
            tx_id: self.tx_id,
            changes: views(self.changes@),
            events: views(self.events@),
            return_value: self.return_value@,
        }
    }
}

impl ReducerResult {
    /// Builds a result from a committed invocation's parts.
    pub fn new(
        tx_id: TransactionId,
        changes: Vec<Change>,
        events: Vec<ReducerEvent>,
        return_value: Value,
    ) -> (result: ReducerResult)
        ensures
            result@ == (ReducerResultView {
                tx_id,
                changes: views(changes@),
                events: views(events@),
                return_value: return_value@,
            }),
    {
        ReducerResult { tx_id, changes, events, return_value }
    }

    /// The id of the transaction that committed this result.
    pub fn tx_id(&self) -> (id: TransactionId)
        ensures
            id == self@.tx_id,
    {
        self.tx_id
    }

    /// The committed changes, in commit order.
    pub fn changes(&self) -> (changes: &Vec<Change>)
        ensures
            views(changes@) == self@.changes,
    {
        &self.changes
    }

    /// The emitted events, in the order they were emitted.
    pub fn events(&self) -> (events: &Vec<ReducerEvent>)
        ensures
            views(events@) == self@.events,
    {
        &self.events
    }

    /// The reducer's return value.
    pub fn return_value(&self) -> (value: &Value)
        ensures
            value@ == self@.return_value,
    {
        &self.return_value
    }
}

/// The error of a call to a reducer that is not registered.
pub open spec fn not_registered_text(name: Seq<char>) -> Seq<char> {
    "reducer '"@ + name + "' is not registered"@
}

/// The error of a reducer that panicked.
pub open spec fn panicked_text(name: Seq<char>, detail: Seq<char>) -> Seq<char> {
    "reducer '"@ + name + "' panicked during execution: "@ + detail
}

/// What an execution amounts to: a value with the events emitted, or an error
/// and no events.
pub open spec fn execution_outcome(
    name: Seq<char>,
    execution: ExecutionView,
    events: Seq<ReducerEventView>,
) -> Result<(ValueView, Seq<ReducerEventView>), ErrorView> {
    match execution {
        ExecutionView::Returned(Ok(value)) => Ok((value, events)),
        ExecutionView::Returned(Err(error)) => Err(error),
        ExecutionView::Panicked(detail) => Err(ErrorView::Internal(panicked_text(name, detail))),
    }
}

/// The result of an invocation whose execution gave a value and whose commit
/// answered.
pub open spec fn commit_outcome(
    tx_id: TransactionId,
    committed: Result<Seq<ChangeView>, ErrorView>,
    events: Seq<ReducerEventView>,
    return_value: ValueView,
) -> Result<ReducerResultView, ErrorView> {
    match committed {
        Ok(changes) => Ok(ReducerResultView { tx_id, changes, events, return_value }),
        Err(error) => Err(error),
    }
}

/// What a whole invocation amounts to: an execution that fails leaves no
/// changes and no events; one that succeeds gives what its commit answers.
pub open spec fn invocation_outcome(
    name: Seq<char>,
    execution: ExecutionView,
    events: Seq<ReducerEventView>,
    tx_id: TransactionId,
    committed: Result<Seq<ChangeView>, ErrorView>,
) -> Result<ReducerResultView, ErrorView> {
    match execution_outcome(name, execution, events) {
        Ok((value, events)) => commit_outcome(tx_id, committed, events, value),
        Err(error) => Err(error),
    }
}

/// The content of an execution's outcome.
pub open spec fn executed_view(outcome: Result<(Value, Vec<ReducerEvent>), Error>) -> Result<
    (ValueView, Seq<ReducerEventView>),
    ErrorView,
> {
    match outcome {
        Ok((value, events)) => Ok((value@, views(events@))),
        Err(error) => Err(error@),
    }
}

/// The content of an invocation's result.
pub open spec fn invoked_view(result: Result<ReducerResult, Error>) -> Result<
    ReducerResultView,
    ErrorView,
> {
    match result {
        Ok(result) => Ok(result@),
        Err(error) => Err(error@),
    }
}

/// How a transaction must end for an invocation: it commits after an
/// execution that gave a value, and aborts after any other.
pub open spec fn ending(
    execution: ExecutionView,
    committed: Result<Seq<ChangeView>, ErrorView>,
) -> Access {
    match execution {
        ExecutionView::Returned(Ok(_)) => Access::Commit { answer: committed },
        _ => Access::Abort,
    }
}

/// A reducer of some name is registered and ran like this.
pub open spec fn ran<T: Transaction, F: Reducer<T>>(
    reducers: Map<u64, DefinitionView<F>>,
    name: Seq<char>,
    run: RunView,
) -> bool {
    exists|id: u64|
        reducers.contains_key(id) && (#[trigger] reducers[id]).name == name
            && reducers[id].execute.may_run(run)
}

/// A transaction was ended from some log on by one last access; one that was
/// to commit told its id.
pub open spec fn ended_by<T: Transaction>(
    tx: T,
    before: Seq<Access>,
    tx_id: TransactionId,
    last: Access,
) -> bool {
    &&& tx.accesses() == before.push(last)
    &&& last is Commit ==> call_ensures(T::id, (&tx,), tx_id)
}

/// Reducers by id: each under its own id, none without a name, no two with
/// the same one.
pub open spec fn registry_valid<F>(reducers: Map<u64, DefinitionView<F>>) -> bool {
    &&& forall|id: u64| #[trigger]
        reducers.contains_key(id) ==> reducers[id].id.0 == id
    &&& forall|a: u64, b: u64|
        #![trigger reducers[a], reducers[b]]
        reducers.contains_key(a) && reducers.contains_key(b) && reducers[a].name
            == reducers[b].name ==> a == b
}

/// Whether a reducer of some name is registered.
pub open spec fn has_name<F>(reducers: Map<u64, DefinitionView<F>>, name: Seq<char>) -> bool {
    exists|id: u64| reducers.contains_key(id) && (#[trigger] reducers[id]).name == name
}

/// The verdict on registering a definition: neither its id nor its name may
/// be taken.
pub open spec fn registered<F>(
    reducers: Map<u64, DefinitionView<F>>,
    definition: DefinitionView<F>,
) -> Result<Map<u64, DefinitionView<F>>, ErrorView> {
    if reducers.contains_key(definition.id.0) {
        Err(
            ErrorView::AlreadyExists(
                "reducer id "@ + decimal(definition.id.0 as nat) + " is already registered"@,
            ),
        )
    } else if has_name(reducers, definition.name) {
        Err(
            ErrorView::AlreadyExists(
                "reducer '"@ + definition.name + "' is already registered"@,
            ),
        )
    } else {
        Ok(reducers.insert(definition.id.0, definition))
    }
}

/// A registry of reducer definitions.
pub struct ReducerRegistry<F> {
    by_id: Table<ReducerDefinition<F>>,
}

impl<F> View for ReducerRegistry<F> {
    type V = Map<u64, DefinitionView<F>>;

    closed spec fn view(&self) -> Map<u64, DefinitionView<F>> {
        self.by_id@
    }
}

impl<F> ReducerRegistry<F> {
    /// What every operation keeps.
    pub open spec fn wf(&self) -> bool {
        registry_valid(self@)
    }

    /// Creates an empty registry.
    pub fn new() -> (registry: Self)
        ensures
            registry.wf(),
            registry@ == Map::<u64, DefinitionView<F>>::empty(),
    {
        ReducerRegistry { by_id: Table::new() }
    }

    /// Registers a definition, or `AlreadyExists` if its id or its name is
    /// taken.
    pub fn register(&mut self, definition: ReducerDefinition<F>) -> (outcome: Result<(), Error>)
        requires
            old(self).wf(),
        ensures
            final(self).wf(),
            match outcome {
                Ok(_) => registered(old(self)@, definition@) == Ok::<
                    Map<u64, DefinitionView<F>>,
                    ErrorView,
                >(final(self)@),
                Err(e) => registered(old(self)@, definition@) == Err::<
                    Map<u64, DefinitionView<F>>,
                    ErrorView,
                >(e@) && final(self)@ == old(self)@,
            },
    {
        let id: u64 = definition.id().as_u64();
        if self.by_id.contains(id) {
            return Err(
                Error::AlreadyExists(with_number("reducer id ", id, " is already registered")),
            );
        }
        if self.contains(definition.name()) {
            let quoted = join("reducer '", definition.name());
            return Err(Error::AlreadyExists(join(quoted.as_str(), "' is already registered")));
        }
        self.by_id.insert(id, definition);
        Ok(())
    }

    /// The definition with an id.
    pub fn lookup(&self, id: ReducerId) -> (found: Option<&ReducerDefinition<F>>)
        ensures
            match found {
                Some(d) => self@.contains_key(id.0) && d@ == self@[id.0],
                None => !self@.contains_key(id.0),
            },
    {
        self.by_id.get(id.as_u64())
    }

    /// The definition with a name.
    pub fn lookup_by_name(&self, name: &str) -> (found: Option<&ReducerDefinition<F>>)
        ensures
            match found {
                Some(d) => d@.name == name@ && exists|id: u64|
                    self@.contains_key(id) && #[trigger] self@[id] == d@,
                None => !has_name(self@, name@),
            },
    {
        let ids = self.by_id.keys();
        let key = name.to_owned();
        let mut i: usize = 0;
        while i < ids.len()
            invariant
                key@ == name@,
                i <= ids@.len(),
                ids@.to_set() == self@.dom(),
                forall|j: int| 0 <= j < i ==> self@[#[trigger] ids@[j]].name != name@,
            decreases ids@.len() - i,
        {
            assert(ids@.to_set().contains(ids@[i as int]));
            if let Some(definition) = self.by_id.get(ids[i]) {
                if definition.is_named(&key) {
                    assert(self@.contains_key(ids@[i as int]));
                    return Some(definition);
                }
            }
            i = i + 1;
        }
        assert forall|id: u64| self@.contains_key(id) implies (#[trigger] self@[id]).name
            != name@ by {
            assert(ids@.to_set().contains(id));
            let j = ids@.index_of(id);
            assert(self@[ids@[j]].name != name@);
        }
        None
    }

    /// Whether a definition with the name is registered.
    pub fn contains(&self, name: &str) -> (found: bool)
        ensures
            found == has_name(self@, name@),
    {
        self.lookup_by_name(name).is_some()
    }

    /// Whether a definition with the id is registered.
    pub fn contains_id(&self, id: ReducerId) -> (found: bool)
        ensures
            found == self@.contains_key(id.0),
    {
        self.by_id.contains(id.as_u64())
    }

    /// The number of registered reducers.
    pub fn len(&self) -> (n: usize)
        ensures
            n == self@.len(),
    {
        self.by_id.len()
    }

    /// Whether no reducers are registered.
    pub fn is_empty(&self) -> (empty: bool)
        ensures
            empty == (self@.len() == 0),
    {
        self.by_id.len() == 0
    }

    /// Every definition in ascending order of ids.
    pub fn list(&self) -> (list: Vec<&ReducerDefinition<F>>)
        ensures
            list@.len() == ascending(self@.dom()).len(),
            forall|i: int|
                0 <= i < list@.len() ==> (#[trigger] list@[i])@ == self@[ascending(
                    self@.dom(),
                )[i]],
    {
        let ids = self.by_id.keys();
        let mut list: Vec<&ReducerDefinition<F>> = Vec::new();
        let mut i: usize = 0;
        while i < ids.len()
            invariant
                i <= ids@.len(),
                ids@.to_set() == self@.dom(),
                list@.len() == i,
                forall|j: int| 0 <= j < i ==> (#[trigger] list@[j])@ == self@[ids@[j]],
            decreases ids@.len() - i,
        {
            assert(ids@.to_set().contains(ids@[i as int]));
            if let Some(definition) = self.by_id.get(ids[i]) {
                list.push(definition);
            }
            i = i + 1;
        }
        list
    }

    /// Runs the named reducer against an open transaction without committing.
    /// Yields the transaction, still open, with what came of the run: the
    /// caller decides what becomes of it. On failure the events are dropped.
    pub fn invoke_in_tx<T: Transaction>(&self, tx: T, name: &str, args: &ReducerArgs) -> (told: (
        T,
        Result<(Value, Vec<ReducerEvent>), Error>,
    )) where F: Reducer<T>
        ensures
            !has_name(self@, name@) ==> told.0 == tx && executed_view(told.1) == Err::<
                (ValueView, Seq<ReducerEventView>),
                ErrorView,
            >(ErrorView::NotFound(not_registered_text(name@))),
            has_name(self@, name@) ==> exists|run: RunView| #[trigger]
                ran::<T, F>(self@, name@, run) && run.args == args@ && run.before == tx.accesses()
                    && only_work(run.before, run.after) && told.0.accesses() == run.after
                    && executed_view(told.1) == execution_outcome(
                    name@,
                    run.execution,
                    run.events,
                ),
    {
        match self.lookup_by_name(name) {
            None => {
                let quoted = join("reducer '", name);
                (tx, Err(Error::NotFound(join(quoted.as_str(), "' is not registered"))))
            },
            Some(definition) => {
                let (tx, outcome, Ghost(run)) = execute_against_tx(
                    definition.execute(),
                    name,
                    args,
                    tx,
                );
                assert(ran::<T, F>(self@, name@, run));
                (tx, outcome)
            },
        }
    }

    /// Runs the named reducer in exactly one transaction: it commits if the
    /// reducer returns a value, and aborts otherwise. Yields the transaction
    /// as it ended with the result; one whose reducer is not registered was
    /// not touched.
    pub fn invoke<T: Transaction>(&self, tx: T, name: &str, args: &ReducerArgs) -> (told: (
        T,
        Result<ReducerResult, Error>,
    )) where F: Reducer<T>
        ensures
            !has_name(self@, name@) ==> told.0 == tx && invoked_view(told.1) == Err::<
                ReducerResultView,
                ErrorView,
            >(ErrorView::NotFound(not_registered_text(name@))),
            has_name(self@, name@) ==> exists|
                run: RunView,
                tx_id: TransactionId,
                committed: Result<Seq<ChangeView>, ErrorView>,
            | #[trigger]
                ran::<T, F>(self@, name@, run) && run.args == args@ && run.before == tx.accesses()
                    && only_work(run.before, run.after) && #[trigger] ended_by(
                    told.0,
                    run.after,
                    tx_id,
                    ending(run.execution, committed),
                ) && invoked_view(told.1) == invocation_outcome(
                    name@,
                    run.execution,
                    run.events,
                    tx_id,
                    committed,
                ),
    {
        match self.lookup_by_name(name) {
            None => {
                let quoted = join("reducer '", name);
                (tx, Err(Error::NotFound(join(quoted.as_str(), "' is not registered"))))
            },
            Some(definition) => {
                let (mut tx, outcome, Ghost(run)) = execute_against_tx(
                    definition.execute(),
                    name,
                    args,
                    tx,
                );
                assert(ran::<T, F>(self@, name@, run));
                let (value, events) = match outcome {
                    Ok((value, events)) => (Ok(value), events),
                    Err(error) => (Err(error), Vec::new()),
                };
                let (result, Ghost(tx_id), Ghost(committed)) = settle(&mut tx, events, value);
                let told = (tx, result);
                assert(ended_by(told.0, run.after, tx_id, ending(run.execution, committed)));
                told
            },
        }
    }
}

/// What an execution amounts to: its value with the events emitted, or an
/// error, and then the events are dropped.
pub fn conclude_execution(name: &str, execution: Execution, events: Vec<ReducerEvent>) -> (outcome:
    Result<(Value, Vec<ReducerEvent>), Error>)
    ensures
        executed_view(outcome) == execution_outcome(name@, execution@, views(events@)),
{
    match execution {
        Execution::Returned(Ok(value)) => Ok((value, events)),
        Execution::Returned(Err(error)) => Err(error),
        Execution::Panicked(detail) => {
            let quoted = join("reducer '", name);
            let told = join(quoted.as_str(), "' panicked during execution: ");
            Err(Error::Internal(join(told.as_str(), detail.as_str())))
        },
    }
}

/// Runs one reducer function against an open transaction through a fresh
/// context. Yields the transaction, what the execution amounts to, and how it
/// ran.
fn execute_against_tx<T: Transaction, F: Reducer<T>>(
    execute: &F,
    name: &str,
    args: &ReducerArgs,
    tx: T,
) -> (told: (T, Result<(Value, Vec<ReducerEvent>), Error>, Ghost<RunView>))
    ensures
        execute.may_run(told.2@),
        told.2@.args == args@,
        told.2@.before == tx.accesses(),
        told.2@.after == told.0.accesses(),
        only_work(told.2@.before, told.2@.after),
        executed_view(told.1) == execution_outcome(name@, told.2@.execution, told.2@.events),
{
    let ghost before = tx.accesses();
    let mut context = ReducerContext::new(tx);
    let execution = execute.execute(&mut context, args);
    let ghost run = RunView {
        args: args@,
        before,
        after: context.transaction().accesses(),
        events: context.buffered(),
        execution: execution@,
    };
    let events = context.take_events();
    let outcome = conclude_execution(name, execution, events);
    (context.into_transaction(), outcome, Ghost(run))
}

/// The result of an invocation whose execution gave a value, from what the
/// commit answered. A failed commit's error is passed on as it is.
pub fn conclude_commit(
    tx_id: TransactionId,
    committed: Result<Vec<Change>, Error>,
    events: Vec<ReducerEvent>,
    return_value: Value,
) -> (result: Result<ReducerResult, Error>)
    ensures
        invoked_view(result) == commit_outcome(
            tx_id,
            committed_view(committed),
            views(events@),
            return_value@,
        ),
{
    match committed {
        Ok(changes) => Ok(ReducerResult::new(tx_id, changes, events, return_value)),
        Err(error) => Err(error),
    }
}

/// Ends the transaction of an invocation: commits on a value, aborts on an
/// error. Yields the result, with the transaction's id and what the commit
/// answered, if it was asked.
fn settle<T: Transaction>(
    tx: &mut T,
    events: Vec<ReducerEvent>,
    outcome: Result<Value, Error>,
) -> (settled: (
    Result<ReducerResult, Error>,
    Ghost<TransactionId>,
    Ghost<Result<Seq<ChangeView>, ErrorView>>,
))
    ensures
        outcome is Ok ==> call_ensures(T::id, (&*final(tx),), settled.1@),
        match outcome {
            Ok(value) => final(tx).accesses() == old(tx).accesses().push(
                (Access::Commit { answer: settled.2@ }),
            ) && invoked_view(settled.0) == commit_outcome(
                settled.1@,
                settled.2@,
                views(events@),
                value@,
            ),
            Err(error) => final(tx).accesses() == old(tx).accesses().push(Access::Abort)
                && invoked_view(settled.0) == Err::<ReducerResultView, ErrorView>(error@),
        },
{
    match outcome {
        Ok(return_value) => {
            let committed = tx.commit();
            let ghost said = committed_view(committed);
            let tx_id = tx.id();
            let result = conclude_commit(tx_id, committed, events, return_value);
            (result, Ghost(tx_id), Ghost(said))
        },
        Err(error) => {
            tx.abort();
            (Err(error), Ghost(TransactionId(0)), Ghost(Ok(Seq::empty())))
        },
    }
}

/// Completes a reducer invocation: commits on a value, aborts on an error.
/// The single place where that is decided. Yields the transaction as it ended
/// with the result.
pub fn finish_invocation<T: Transaction>(
    tx: T,
    events: Vec<ReducerEvent>,
    outcome: Result<Value, Error>,
) -> (told: (T, Result<ReducerResult, Error>))
    ensures
        match outcome {
            Ok(value) => exists|
                tx_id: TransactionId,
                committed: Result<Seq<ChangeView>, ErrorView>,
            | #[trigger]
                ended_by(
                    told.0,
                    tx.accesses(),
                    tx_id,
                    (Access::Commit { answer: committed }),
                ) && invoked_view(told.1) == commit_outcome(
                    tx_id,
                    committed,
                    views(events@),
                    value@,
                ),
            Err(error) => told.0.accesses() == tx.accesses().push(Access::Abort) && invoked_view(
                told.1,
            ) == Err::<ReducerResultView, ErrorView>(error@),
        },
{
    let mut tx = tx;
    let ghost before = tx.accesses();
    let (result, Ghost(tx_id), Ghost(committed)) = settle(&mut tx, events, outcome);
    let told = (tx, result);
    proof {
        if outcome is Ok {
            assert(ended_by(told.0, before, tx_id, (Access::Commit { answer: committed })));
        }
    }
    told
}

/// A registered reducer is found under its id and under its name, and every
/// other stays as it was.
pub proof fn registered_reducers_are_found<F>(
    reducers: Map<u64, DefinitionView<F>>,
    definition: DefinitionView<F>,
)
    requires
        registry_valid(reducers),
        registered(reducers, definition) is Ok,
    ensures
        ({
            let after = registered(reducers, definition)->Ok_0;
            &&& registry_valid(after)
            &&& after.contains_key(definition.id.0) && after[definition.id.0] == definition
            &&& has_name(after, definition.name)
            &&& after.remove(definition.id.0) == reducers
        }),
{
    let after = registered(reducers, definition)->Ok_0;
    assert(after[definition.id.0].name == definition.name);
    assert(after.remove(definition.id.0) =~= reducers);
}

/// A reducer that fails, by an error or by a panic, leaves nothing: whatever
/// it emitted and whatever a commit would have answered, the invocation is
/// that failure.
pub proof fn failed_executions_leave_nothing(
    name: Seq<char>,
    execution: ExecutionView,
    events: Seq<ReducerEventView>,
    tx_id: TransactionId,
    committed: Result<Seq<ChangeView>, ErrorView>,
)
    requires
        !(execution matches ExecutionView::Returned(Ok(_))),
    ensures
        invocation_outcome(name, execution, events, tx_id, committed) == match execution {
            ExecutionView::Returned(Ok(value)) => commit_outcome(tx_id, committed, events, value),
            ExecutionView::Returned(Err(error)) => Err(error),
            ExecutionView::Panicked(detail) => Err(
                ErrorView::Internal(panicked_text(name, detail)),
            ),
        },
        invocation_outcome(name, execution, events, tx_id, committed) is Err,
{
}

/// An error of the commit, a conflict above all, is passed on as it is, and
/// no events leave.
pub proof fn commit_errors_are_passed_on(
    name: Seq<char>,
    value: ValueView,
    events: Seq<ReducerEventView>,
    tx_id: TransactionId,
    error: ErrorView,
)
    ensures
        invocation_outcome(
            name,
            ExecutionView::Returned(Ok(value)),
            events,
            tx_id,
            Err(error),
        ) == Err::<ReducerResultView, ErrorView>(error),
{
}

/// A reducer that fails, by an error or by a panic, leaves its transaction
/// aborted and never committed: from where the run began to where the
/// transaction ended there is no commit, and one abort, the last access.
pub proof fn failed_reducers_only_abort<T: Transaction>(
    tx: T,
    run: RunView,
    tx_id: TransactionId,
    committed: Result<Seq<ChangeView>, ErrorView>,
)
    requires
        only_work(run.before, run.after),
        ended_by(tx, run.after, tx_id, ending(run.execution, committed)),
        !(run.execution matches ExecutionView::Returned(Ok(_))),
    ensures
        run.before.is_prefix_of(tx.accesses()),
        tx.accesses().len() > run.before.len(),
        tx.accesses().last() == Access::Abort,
        forall|i: int|
            run.before.len() <= i < tx.accesses().len() ==> !(#[trigger] tx.accesses()[i]
                is Commit),
        forall|i: int|
            run.before.len() <= i < tx.accesses().len() - 1 ==> !(#[trigger] tx.accesses()[i]
                is Abort),
{
    ends_once(run, tx.accesses(), Access::Abort);
}

/// A reducer that returns a value has its transaction committed once and
/// never aborted: the commit is the last access, and what it answered decides
/// the result.
pub proof fn returning_reducers_commit_once<T: Transaction>(
    tx: T,
    run: RunView,
    tx_id: TransactionId,
    committed: Result<Seq<ChangeView>, ErrorView>,
)
    requires
        only_work(run.before, run.after),
        ended_by(tx, run.after, tx_id, ending(run.execution, committed)),
        run.execution matches ExecutionView::Returned(Ok(_)),
    ensures
        run.before.is_prefix_of(tx.accesses()),
        tx.accesses().len() > run.before.len(),
        tx.accesses().last() == (Access::Commit { answer: committed }),
        forall|i: int|
            run.before.len() <= i < tx.accesses().len() ==> !(#[trigger] tx.accesses()[i]
                is Abort),
        forall|i: int|
            run.before.len() <= i < tx.accesses().len() - 1 ==> !(#[trigger] tx.accesses()[i]
                is Commit),
{
    ends_once(run, tx.accesses(), (Access::Commit { answer: committed }));
}

proof fn ends_once(run: RunView, log: Seq<Access>, last: Access)
    requires
        only_work(run.before, run.after),
        log == run.after.push(last),
    ensures
        run.before.is_prefix_of(log),
        log.len() > run.before.len(),
        log.last() == last,
        forall|i: int|
            run.before.len() <= i < log.len() - 1 ==> !(#[trigger] log[i] is Commit) && !(log[i]
                is Abort),
{
    assert forall|i: int| run.before.len() <= i < log.len() - 1 implies !(#[trigger] log[i]
        is Commit) && !(log[i] is Abort) by {
        assert(log[i] == run.after[i]);
    }
    assert(log.subrange(0, run.before.len() as int) =~= run.after.subrange(
        0,
        run.before.len() as int,
    ));
}

/// An invocation whose reducer returned a value and whose commit went through
/// tells all of it: the transaction's id, the changes that the commit answered,
/// the events in the order in which they were emitted, and the value.
pub proof fn committed_invocations_tell_all(
    name: Seq<char>,
    value: ValueView,
    events: Seq<ReducerEventView>,
    tx_id: TransactionId,
    changes: Seq<ChangeView>,
)
    ensures
        ({
            let result = invocation_outcome(
                name,
                ExecutionView::Returned(Ok(value)),
                events,
                tx_id,
                Ok(changes),
            );
            &&& result is Ok
            &&& result->Ok_0.tx_id == tx_id
            &&& result->Ok_0.changes == changes
            &&& result->Ok_0.events == events
            &&& result->Ok_0.return_value == value
        }),
        execution_outcome(name, ExecutionView::Returned(Ok(value)), events) == Ok::<
            (ValueView, Seq<ReducerEventView>),
            ErrorView,
        >((value, events)),
{
}

/// A reducer's own error is told as it is; a panic becomes an internal error
/// that names the reducer and what it panicked with. Neither tells any events.
pub proof fn failed_executions_tell_why(
    name: Seq<char>,
    error: ErrorView,
    detail: Seq<char>,
    events: Seq<ReducerEventView>,
)
    ensures
        execution_outcome(name, ExecutionView::Returned(Err(error)), events) == Err::<
            (ValueView, Seq<ReducerEventView>),
            ErrorView,
        >(error),
        execution_outcome(name, ExecutionView::Panicked(detail), events) == Err::<
            (ValueView, Seq<ReducerEventView>),
            ErrorView,
        >(
            ErrorView::Internal(
                "reducer '"@ + name + "' panicked during execution: "@ + detail,
            ),
        ),
{
}

/// A definition is refused if, and only if, its id or its name is taken; the
/// error says which, the id before the name.
pub proof fn registrations_need_a_free_id_and_name<F>(
    reducers: Map<u64, DefinitionView<F>>,
    definition: DefinitionView<F>,
)
    ensures
        ({
            let id_taken = reducers.contains_key(definition.id.0);
            let name_taken = exists|id: u64|
                reducers.contains_key(id) && (#[trigger] reducers[id]).name == definition.name;
            let verdict = registered(reducers, definition);
            &&& verdict is Ok <==> !id_taken && !name_taken
            &&& id_taken ==> verdict->Err_0 == ErrorView::AlreadyExists(
                "reducer id "@ + decimal(definition.id.0 as nat) + " is already registered"@,
            )
            &&& !id_taken && name_taken ==> verdict->Err_0 == ErrorView::AlreadyExists(
                "reducer '"@ + definition.name + "' is already registered"@,
            )
        }),
{
}

} // verus!
