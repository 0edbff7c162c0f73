//! What flows in and out of a world's tick: reducer calls, cross-partition
//! messages, and the committed result.

use vstd::prelude::*;

use crate::base::change::{Change, ChangeView};
use crate::base::error::{Error, ErrorView};
use crate::base::ids::{PartitionId, TickId, TransactionId};
use crate::base::value::{views, Value, ValueView};
use crate::reducer::args::{Entries, ReducerArgs};
use crate::reducer::event::{ReducerEvent, ReducerEventView};

verus! {

/// A queued reducer call. Its reducer name is never empty.
#[derive(Debug, PartialEq, Eq)]
pub struct ReducerCall {
    request_id: u64,
    reducer: String,
    args: ReducerArgs,
}

/// The mathematical content of a [`ReducerCall`].
pub struct ReducerCallView {
    pub request_id: u64,
    pub reducer: Seq<char>,
    pub args: Entries,
}

impl View for ReducerCall {
    type V = ReducerCallView;

    closed spec fn view(&self) -> ReducerCallView {
        ReducerCallView { request_id: self.request_id, reducer: self.reducer@, args: self.args@ }
    }
}

impl ReducerCall {
    /// A call; an empty reducer name is refused.
    pub fn new(request_id: u64, reducer: &str, args: ReducerArgs) -> (call: Result<
        ReducerCall,
        Error,
    >)
        ensures
            match call {
                Ok(c) => reducer@.len() > 0 && c@ == (ReducerCallView {
                    request_id,
                    reducer: reducer@,
                    args: args@,
                }),
                Err(e) => reducer@.len() == 0 && e@ == ErrorView::InvalidArgument(
                    "reducer call name must not be empty"@,
                ),
            },
    {
        if reducer.is_empty() {
            return Err(Error::invalid_argument("reducer call name must not be empty"));
        }
        Ok(ReducerCall { request_id, reducer: reducer.to_owned(), args })
    }

    /// The id the result is correlated by.
    pub fn request_id(&self) -> (id: u64)
        ensures
            id == self@.request_id,
    {
        self.request_id
    }

    /// The reducer called.
    pub fn reducer(&self) -> (name: &str)
        ensures
            name@ == self@.reducer,
    {
        self.reducer.as_str()
    }

    /// The arguments.
    pub fn args(&self) -> (args: &ReducerArgs)
        ensures
            args@ == self@.args,
    {
        &self.args
    }
}

/// A message from one partition to another. Its kind is never empty.
#[derive(Debug, PartialEq, Eq)]
pub struct PartitionMessage {
    from: PartitionId,
    to: PartitionId,
    sent_tick: TickId,
    seq: u64,
    kind: String,
    payload: ReducerArgs,
}

/// The mathematical content of a [`PartitionMessage`].
pub struct PartitionMessageView {
    pub from: PartitionId,
    pub to: PartitionId,
    pub sent_tick: TickId,
    pub seq: u64,
    pub kind: Seq<char>,
    pub payload: Entries,
}

impl View for PartitionMessage {
    type V = PartitionMessageView;

    closed spec fn view(&self) -> PartitionMessageView {
        PartitionMessageView {
            from: self.from,
            to: self.to,
            sent_tick: self.sent_tick,
            seq: self.seq,
            kind: self.kind@,
            payload: self.payload@,
        }
    }
}

impl PartitionMessage {
    /// A message; an empty kind is refused.
    pub fn new(
        from: PartitionId,
        to: PartitionId,
        sent_tick: TickId,
        seq: u64,
        kind: &str,
        payload: ReducerArgs,
    ) -> (message: Result<PartitionMessage, Error>)
        ensures
            match message {
                Ok(m) => kind@.len() > 0 && m@ == (PartitionMessageView {
                    from,
                    to,
                    sent_tick,
                    seq,
                    kind: kind@,
                    payload: payload@,
                }),
                Err(e) => kind@.len() == 0 && e@ == ErrorView::InvalidArgument(
                    "partition message kind must not be empty"@,
                ),
            },
    {
        if kind.is_empty() {
            return Err(Error::invalid_argument("partition message kind must not be empty"));
        }
        Ok(PartitionMessage { from, to, sent_tick, seq, kind: kind.to_owned(), payload })
    }

    /// The sender.
    pub fn from(&self) -> (from: PartitionId)
        ensures
            from == self@.from,
    {
        self.from
    }

    /// The destination.
    pub fn to(&self) -> (to: PartitionId)
        ensures
            to == self@.to,
    {
        self.to
    }

    /// The sender's tick when it sent the message.
    pub fn sent_tick(&self) -> (tick: TickId)
        ensures
            tick == self@.sent_tick,
    {
        self.sent_tick
    }

    /// The place of the message among those of its sender.
    pub fn seq(&self) -> (seq: u64)
        ensures
            seq == self@.seq,
    {
        self.seq
    }

    /// What the message is about.
    pub fn kind(&self) -> (kind: &str)
        ensures
            kind@ == self@.kind,
    {
        self.kind.as_str()
    }

    /// What the message carries.
    pub fn payload(&self) -> (payload: &ReducerArgs)
        ensures
            payload@ == self@.payload,
    {
        &self.payload
    }
}

impl Clone for PartitionMessage {
    fn clone(&self) -> (copy: Self)
        ensures
            copy@ == self@,
    {
        PartitionMessage {
            from: self.from,
            to: self.to,
            sent_tick: self.sent_tick,
            seq: self.seq,
            kind: self.kind.clone(),
            payload: self.payload.clone(),
        }
    }
}

/// How one reducer call ended.
#[derive(Debug, PartialEq, Eq)]
pub struct CallResult {
    /// The id of the call.
    pub request_id: u64,
    /// The value the reducer returned, or why it failed.
    pub outcome: Result<Value, Error>,
}

/// The mathematical content of a [`CallResult`].
pub struct CallResultView {
    pub request_id: u64,
    pub outcome: Result<ValueView, ErrorView>,
}

impl View for CallResult {
    type V = CallResultView;

    open spec fn view(&self) -> CallResultView {
        CallResultView {
            request_id: self.request_id,
            outcome: match self.outcome {
                Ok(value) => Ok(value@),
                Err(error) => Err(error@),
            },
        }
    }
}

/// The committed result of one world tick.
#[derive(Debug, PartialEq, Eq)]
pub struct TickResult {
    /// The tick that ran.
    pub tick: TickId,
    /// The transaction it committed.
    pub tx_id: TransactionId,
    /// The row changes it committed.
    pub changes: Vec<Change>,
    /// The events emitted, in order.
    pub events: Vec<ReducerEvent>,
    /// The messages sent to other partitions.
    pub outbound: Vec<PartitionMessage>,
    /// The results of the reducer calls it ran, in call order.
    pub reducer_results: Vec<CallResult>,
}

/// The mathematical content of a [`TickResult`].
pub struct TickResultView {
    pub tick: TickId,
    pub tx_id: TransactionId,
    pub changes: Seq<ChangeView>,
    pub events: Seq<ReducerEventView>,
    pub outbound: Seq<PartitionMessageView>,
    pub reducer_results: Seq<CallResultView>,
}

impl View for TickResult {
    type V = TickResultView;

    open spec fn view(&self) -> TickResultView {
        TickResultView {
            tick: self.tick,
            tx_id: self.tx_id,
            changes: views(self.changes@),
            events: views(self.events@),
            outbound: views(self.outbound@),
            reducer_results: views(self.reducer_results@),
        }
    }
}

} // verus!
