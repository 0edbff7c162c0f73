//! What one tick of a world takes in, and what came of running it.

use vstd::prelude::*;

use crate::base::error::{Error, ErrorView};
use crate::base::ids::{TickId, WorldId};
use crate::base::input::{InputFrame, InputFrameView};
use crate::base::message::{
    PartitionMessage, PartitionMessageView, ReducerCall, ReducerCallView, TickResult,
    TickResultView,
};
use crate::base::value::views;

verus! {

/// What one tick of a world takes in.
#[derive(Debug)]
pub struct TickInput {
    /// The world to tick.
    pub world: WorldId,
    /// The input frame of the tick.
    pub frame: InputFrame,
    /// The messages delivered to the tick, in delivery order.
    pub delivered: Vec<PartitionMessage>,
    /// The reducer calls of the tick, in submission order.
    pub calls: Vec<ReducerCall>,
}

/// The mathematical content of a [`TickInput`].
pub struct TickInputView {
    pub world: WorldId,
    pub frame: InputFrameView,
    pub delivered: Seq<PartitionMessageView>,
    pub calls: Seq<ReducerCallView>,
}

impl View for TickInput {
    type V = TickInputView;

    open spec fn view(&self) -> TickInputView {
        TickInputView {
            world: self.world,
            frame: self.frame@,
            delivered: views(self.delivered@),
            calls: views(self.calls@),
        }
    }
}

/// Why a tick failed. A failed tick commits nothing.
#[derive(Debug)]
pub struct TickError {
    /// The tick that failed.
    pub tick: TickId,
    /// The reason.
    pub error: Error,
}

/// The mathematical content of a [`TickError`].
pub struct TickErrorView {
    pub tick: TickId,
    pub error: ErrorView,
}

impl View for TickError {
    type V = TickErrorView;

    open spec fn view(&self) -> TickErrorView {
        TickErrorView { tick: self.tick, error: self.error@ }
    }
}

/// What came of running a tick and of making its result durable.
#[derive(Debug)]
pub struct TickAnswers {
    /// The committed result, or why there is none.
    pub outcome: Result<TickResult, TickError>,
    /// The world's next tick after the attempt.
    pub next_tick: TickId,
    /// How long the attempt took.
    pub duration_ns: u64,
    /// Whether the result was appended to the world's log. Read only of a
    /// committed tick of a world that has a log.
    pub appended: Result<(), Error>,
    /// Whether a periodic snapshot was written. Read only when one was due.
    pub snapshot_written: bool,
}

/// The mathematical content of [`TickAnswers`].
pub struct TickAnswersView {
    pub outcome: Result<TickResultView, TickErrorView>,
    pub next_tick: TickId,
    pub duration_ns: u64,
    pub appended: Result<(), ErrorView>,
    pub snapshot_written: bool,
}

impl View for TickAnswers {
    type V = TickAnswersView;

    open spec fn view(&self) -> TickAnswersView {
        TickAnswersView {
            outcome: match self.outcome {
                Ok(result) => Ok(result@),
                Err(failure) => Err(failure@),
            },
            next_tick: self.next_tick,
            duration_ns: self.duration_ns,
            appended: match self.appended {
                Ok(done) => Ok(done),
                Err(error) => Err(error@),
            },
            snapshot_written: self.snapshot_written,
        }
    }
}

/// A tick that was run: what it took in and what came of it.
#[derive(Debug)]
pub struct TickRun {
    /// What the tick took in.
    pub input: TickInput,
    /// What came of it.
    pub answers: TickAnswers,
}

/// The mathematical content of a [`TickRun`].
pub struct TickRunView {
    pub input: TickInputView,
    pub answers: TickAnswersView,
}

impl View for TickRun {
    type V = TickRunView;

    open spec fn view(&self) -> TickRunView {
        TickRunView { input: self.input@, answers: self.answers@ }
    }
}

/// What is to be done next with a committed tick.
#[derive(Clone, Copy, Debug, PartialEq, Eq, Structural)]
pub enum AfterTick {
    /// Append it to the world's log.
    Append,
    /// Write a snapshot of the world.
    Snapshot,
    /// Tell the world's registry of its changes.
    Observe,
    /// Nothing more.
    Done,
}

/// What is to be done next with a committed tick of a world that has a log or
/// not, given whether it was appended, if that was tried, and whether there
/// are still a snapshot to write and changes to tell.
pub open spec fn after_tick(
    persistent: bool,
    appended: Option<bool>,
    changes_empty: bool,
    snapshot_due: bool,
) -> AfterTick {
    if persistent && appended is None {
        AfterTick::Append
    } else if persistent && appended != Some(true) {
        AfterTick::Done
    } else if persistent && snapshot_due {
        AfterTick::Snapshot
    } else if !changes_empty {
        AfterTick::Observe
    } else {
        AfterTick::Done
    }
}

/// Decides what is to be done next with a committed tick: durability first,
/// with the snapshot if one is due, observation second. The host does it and
/// asks again, with the snapshot written and the changes told.
pub fn next_after_tick(
    persistent: bool,
    appended: Option<bool>,
    changes_empty: bool,
    snapshot_due: bool,
) -> (next: AfterTick)
    ensures
        next == after_tick(persistent, appended, changes_empty, snapshot_due),
        next is Observe ==> !changes_empty && (persistent ==> appended == Some(true)
            && !snapshot_due),
{
    if persistent {
        match appended {
            None => {
                return AfterTick::Append;
            },
            Some(false) => {
                return AfterTick::Done;
            },
            Some(true) => {},
        }
    }
    if persistent && snapshot_due {
        AfterTick::Snapshot
    } else if !changes_empty {
        AfterTick::Observe
    } else {
        AfterTick::Done
    }
}

/// Durability first, observation second: a tick of a world that has a log is
/// observed, and a snapshot of it written, only after it was appended, and
/// observed only once the snapshot that is due was written or tried.
pub proof fn durability_comes_first(
    persistent: bool,
    appended: Option<bool>,
    changes_empty: bool,
    snapshot_due: bool,
)
    ensures
        ({
            let next = after_tick(persistent, appended, changes_empty, snapshot_due);
            &&& next is Observe <==> !changes_empty && (persistent ==> appended == Some(true)
                && !snapshot_due)
            &&& next is Snapshot <==> persistent && appended == Some(true) && snapshot_due
            &&& next is Append <==> persistent && appended is None
            &&& persistent && appended == Some(false) ==> next is Done
        }),
{
}

} // verus!
