//! Player input: commands and per-tick frames.

use vstd::prelude::*;

use crate::base::error::{Error, ErrorView};
use crate::base::ids::TickId;
use crate::base::value::{duplicate_all, duplicate_opt, opt_view, views, Duplicate, Value, ValueView};

verus! {

/// One input command. Its kind is never empty.
#[derive(Debug, PartialEq, Eq)]
pub struct InputCommand {
    source: u64,
    kind: String,
    payload: Option<Value>,
}

/// The mathematical content of an [`InputCommand`].
pub struct InputCommandView {
    pub source: u64,
    pub kind: Seq<char>,
    pub payload: Option<ValueView>,
}

impl View for InputCommand {
    type V = InputCommandView;

    closed spec fn view(&self) -> InputCommandView {
        InputCommandView {
            source: self.source,
            kind: self.kind@,
            payload: opt_view(self.payload),
        }
    }
}

impl InputCommand {
    #[verifier::type_invariant]
    spec fn named(&self) -> bool {
        self.kind@.len() > 0
    }

    /// A command; an empty kind is refused.
    pub fn new(source: u64, kind: &str, payload: Option<Value>) -> (command: Result<
        InputCommand,
        Error,
    >)
        ensures
            match command {
                Ok(c) => kind@.len() > 0 && c@ == (InputCommandView {
                    source,
                    kind: kind@,
                    payload: opt_view(payload),
                }),
                Err(e) => kind@.len() == 0 && e@ == ErrorView::InvalidArgument(
                    "input command kind must not be empty"@,
                ),
            },
    {
        if kind.is_empty() {
            return Err(Error::invalid_argument("input command kind must not be empty"));
        }
        Ok(InputCommand { source, kind: kind.to_owned(), payload })
    }

    /// Who issued the command.
    pub fn source(&self) -> (source: u64)
        ensures
            source == self@.source,
    {
        self.source
    }

    /// What the command asks for.
    pub fn kind(&self) -> (kind: &str)
        ensures
            kind@ == self@.kind,
            kind@.len() > 0,
    {
        proof {
            use_type_invariant(self);
        }
        self.kind.as_str()
    }

    /// What the command carries.
    pub fn payload(&self) -> (payload: &Option<Value>)
        ensures
            opt_view(*payload) == self@.payload,
    {
        &self.payload
    }

    /// The same command issued by `source`.
    pub fn stamped(&self, source: u64) -> (command: InputCommand)
        ensures
            command@ == (InputCommandView { source, ..self@ }),
    {
        proof {
            use_type_invariant(self);
        }
        InputCommand { source, kind: self.kind.clone(), payload: duplicate_opt(&self.payload) }
    }
}

impl Clone for InputCommand {
    fn clone(&self) -> (copy: Self)
        ensures
            copy@ == self@,
    {
        self.stamped(self.source)
    }
}

impl Duplicate for InputCommand {
    fn duplicate(&self) -> (copy: InputCommand) {
        self.clone()
    }
}

/// The commands of one tick, in submission order.
#[derive(Debug, PartialEq, Eq)]
pub struct InputFrame {
    /// The tick the frame is meant for.
    pub tick: TickId,
    /// The commands.
    pub commands: Vec<InputCommand>,
}

/// The mathematical content of an [`InputFrame`].
pub struct InputFrameView {
    pub tick: TickId,
    pub commands: Seq<InputCommandView>,
}

impl View for InputFrame {
    type V = InputFrameView;

    open spec fn view(&self) -> InputFrameView {
        InputFrameView { tick: self.tick, commands: views(self.commands@) }
    }
}

impl InputFrame {
    /// An empty frame for `tick`.
    pub fn new(tick: TickId) -> (frame: InputFrame)
        ensures
            frame@ == (InputFrameView { tick, commands: Seq::empty() }),
    {
        let frame = InputFrame { tick, commands: Vec::new() };
        assert(frame@.commands =~= Seq::empty());
        frame
    }

    /// Appends a command.
    pub fn push(&mut self, command: InputCommand)
        ensures
            final(self)@ == (InputFrameView {
                tick: old(self)@.tick,
                commands: old(self)@.commands.push(command@),
            }),
    {
        self.commands.push(command);
        assert(views(self.commands@) =~= views(old(self).commands@).push(command@));
    }
}

impl Clone for InputFrame {
    fn clone(&self) -> (copy: Self)
        ensures
            copy@ == self@,
    {
        let commands = duplicate_all(&self.commands);
        InputFrame { tick: self.tick, commands }
    }
}

} // verus!
