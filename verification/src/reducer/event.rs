//! Application events emitted by reducers.
//!
//! An event is a name and a payload, buffered by the invocation that emits
//! it. Events leave the invocation only with a successful commit.

use vstd::prelude::*;

use crate::base::value::{Duplicate, Value, ValueView};

verus! {

/// One application-level event emitted by a reducer.
#[derive(Debug, PartialEq, Eq)]
pub struct ReducerEvent {
    name: String,
    payload: Value,
}

/// The mathematical content of a [`ReducerEvent`].
pub struct ReducerEventView {
    pub name: Seq<char>,
    pub payload: ValueView,
}

impl View for ReducerEvent {
    type V = ReducerEventView;

    closed spec fn view(&self) -> ReducerEventView {
        ReducerEventView { name: self.name@, payload: self.payload@ }
    }
}

impl ReducerEvent {
    /// Creates an event with `name` and `payload`.
    pub fn new(name: &str, payload: Value) -> (event: ReducerEvent)
        ensures
            event@ == (ReducerEventView { name: name@, payload: payload@ }),
    {
        ReducerEvent { name: name.to_owned(), payload }
    }

    /// The event name.
    pub fn name(&self) -> (name: &str)
        ensures
            name@ == self@.name,
    {
        self.name.as_str()
    }

    /// The event payload.
    pub fn payload(&self) -> (payload: &Value)
        ensures
            payload@ == self@.payload,
    {
        &self.payload
    }
}

impl Clone for ReducerEvent {
    fn clone(&self) -> (copy: Self)
        ensures
            copy@ == self@,
    {
        ReducerEvent { name: self.name.clone(), payload: self.payload.clone() }
    }
}

impl Duplicate for ReducerEvent {
    fn duplicate(&self) -> (copy: ReducerEvent) {
        self.clone()
    }
}

} // verus!
