//! Reducer definitions: a stable id, a registry-unique name and the function
//! to run.

use vstd::prelude::*;
use vstd::string::*;

use crate::base::error::{Error, ErrorView};
use crate::base::ids::ReducerId;
use crate::base::value::{Value, ValueView};
use crate::reducer::args::{Entries, ReducerArgs};
use crate::reducer::context::{only_work, Access, ReducerContext, Transaction};
use crate::reducer::event::ReducerEventView;

verus! {

/// How the execution of a reducer ended.
#[derive(Debug)]
pub enum Execution {
    /// It returned a value, or an error.
    Returned(Result<Value, Error>),
    /// It panicked. A panic is caught where the reducer is run and told here
    /// with its message.
    Panicked(String),
}

/// The content of how an execution ended.
#[allow(inconsistent_fields)]
pub enum ExecutionView {
    Returned(Result<ValueView, ErrorView>),
    Panicked(Seq<char>),
}

impl View for Execution {
    type V = ExecutionView;

    open spec fn view(&self) -> ExecutionView {
        match *self {
            Execution::Returned(Ok(value)) => ExecutionView::Returned(Ok(value@)),
            Execution::Returned(Err(error)) => ExecutionView::Returned(Err(error@)),
            Execution::Panicked(detail) => ExecutionView::Panicked(detail@),
        }
    }
}

/// One run of a reducer: the arguments, what had been asked of the
/// transaction before and after, the events emitted, and how it ended.
pub struct RunView {
    pub args: Entries,
    pub before: Seq<Access>,
    pub after: Seq<Access>,
    pub events: Seq<ReducerEventView>,
    pub execution: ExecutionView,
}

/// The execute function of a reducer, run against a transaction through the
/// context alone. What it does is its implementor's; the context lets it read
/// and write, and neither commit nor abort.
pub trait Reducer<T: Transaction> {
    /// Whether a run of the reducer may go like this.
    open spec fn may_run(&self, run: RunView) -> bool {
        true
    }

    /// Runs the reducer.
    fn execute(&self, context: &mut ReducerContext<T>, args: &ReducerArgs) -> (execution:
        Execution)
        ensures
            only_work(
                old(context).transaction().accesses(),
                final(context).transaction().accesses(),
            ),
            old(context).buffered() == Seq::<ReducerEventView>::empty() ==> self.may_run(
                (RunView {
                    args: args@,
                    before: old(context).transaction().accesses(),
                    after: final(context).transaction().accesses(),
                    events: final(context).buffered(),
                    execution: execution@,
                }),
            ),
    ;
}

/// A registered reducer: identity and the execute function.
#[derive(Debug)]
pub struct ReducerDefinition<F> {
    id: ReducerId,
    name: String,
    execute: F,
}

/// The mathematical content of a [`ReducerDefinition`].
pub struct DefinitionView<F> {
    pub id: ReducerId,
    pub name: Seq<char>,
    pub execute: F,
}

impl<F> View for ReducerDefinition<F> {
    type V = DefinitionView<F>;

    closed spec fn view(&self) -> DefinitionView<F> {
        DefinitionView { id: self.id, name: self.name@, execute: self.execute }
    }
}

impl<F> ReducerDefinition<F> {
    /// Creates a definition with a stable numeric id and a registry-unique
    /// name. The name must not be empty.
    pub fn new(id: ReducerId, name: &str, execute: F) -> (definition: Result<Self, Error>)
        ensures
            match definition {
                Ok(d) => name@.len() > 0 && d@ == (DefinitionView { id, name: name@, execute }),
                Err(e) => name@.len() == 0 && e@ == ErrorView::InvalidArgument(
                    "reducer name must not be empty"@,
                ),
            },
    {
        if name.unicode_len() == 0 {
            return Err(Error::invalid_argument("reducer name must not be empty"));
        }
        Ok(ReducerDefinition { id, name: name.to_owned(), execute })
    }

    /// The stable numeric id.
    pub fn id(&self) -> (id: ReducerId)
        ensures
            id == self@.id,
    {
        self.id
    }

    /// The registry-unique name.
    pub fn name(&self) -> (name: &str)
        ensures
            name@ == self@.name,
    {
        self.name.as_str()
    }

    /// Whether the reducer has a name.
    pub fn is_named(&self, name: &String) -> (named: bool)
        ensures
            named == (self@.name == name@),
    {
        self.name == *name
    }

    /// The execute function.
    pub fn execute(&self) -> (execute: &F)
        ensures
            *execute == self@.execute,
    {
        &self.execute
    }
}

} // verus!
