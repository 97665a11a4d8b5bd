//! The commands and events of the example programs that run in simulated
//! machines.

use crate::text::same_text;
use vstd::prelude::*;

verus! {

/// A command to a machine, sent to it as a line of text.
#[derive(PartialEq, Eq, Structural, Clone, Copy, Debug)]
pub enum Command {
    Start,
    Finish,
}

/// An event of a machine, received from it as a line of text.
#[derive(PartialEq, Eq, Structural, Clone, Copy, Debug)]
pub enum Event {
    Started,
    Finished,
}

/// A line that is neither of the two commands, or neither of the two
/// events.
#[derive(PartialEq, Eq, Structural, Clone, Copy, Debug)]
pub struct InvalidLine;

impl Command {
    /// The line that stands for the command.
    pub open spec fn line(&self) -> Seq<char> {
        match self {
            Command::Start => ">start"@,
            Command::Finish => ">finish"@,
        }
    }

    /// The line that stands for the command.
    pub fn as_str(&self) -> (r: &'static str)
        ensures
            r@ == self.line(),
    {
        match self {
            Command::Start => ">start",
            Command::Finish => ">finish",
        }
    }

    /// The command that a line stands for.
    pub open spec fn of_line(s: Seq<char>) -> Result<Command, InvalidLine> {
        if s == Command::Start.line() {
            Ok(Command::Start)
        } else if s == Command::Finish.line() {
            Ok(Command::Finish)
        } else {
            Err(InvalidLine)
        }
    }

    /// The line of a command stands for that command.
    pub proof fn lemma_round_trip(c: Command)
        ensures
            Command::of_line(c.line()) == Ok::<Command, InvalidLine>(c),
    {
        reveal_strlit(">start");
        reveal_strlit(">finish");
        assert(">start"@.len() == 6);
        assert(">finish"@.len() == 7);
    }

    /// The command that a line stands for.
    pub fn parse(s: &str) -> (r: Result<Command, InvalidLine>)
        ensures
            r == Command::of_line(s@),
    {
        if same_text(s, ">start") {
            Ok(Command::Start)
        } else if same_text(s, ">finish") {
            Ok(Command::Finish)
        } else {
            Err(InvalidLine)
        }
    }
}

impl Event {
    /// The line that stands for the event.
    pub open spec fn line(&self) -> Seq<char> {
        match self {
            Event::Started => "<started"@,
            Event::Finished => "<finished"@,
        }
    }

    /// The line that stands for the event.
    pub fn as_str(&self) -> (r: &'static str)
        ensures
            r@ == self.line(),
    {
        match self {
            Event::Started => "<started",
            Event::Finished => "<finished",
        }
    }

    /// The event that a line stands for.
    pub open spec fn of_line(s: Seq<char>) -> Result<Event, InvalidLine> {
        if s == Event::Started.line() {
            Ok(Event::Started)
        } else if s == Event::Finished.line() {
            Ok(Event::Finished)
        } else {
            Err(InvalidLine)
        }
    }

    /// The event that a line stands for.
    pub fn parse(s: &str) -> (r: Result<Event, InvalidLine>)
        ensures
            r == Event::of_line(s@),
    {
        if same_text(s, "<started") {
            Ok(Event::Started)
        } else if same_text(s, "<finished") {
            Ok(Event::Finished)
        } else {
            Err(InvalidLine)
        }
    }

    /// The line of an event stands for that event.
    pub proof fn lemma_round_trip(e: Event)
        ensures
            Event::of_line(e.line()) == Ok::<Event, InvalidLine>(e),
    {
        reveal_strlit("<started");
        reveal_strlit("<finished");
        assert("<started"@.len() == 8);
        assert("<finished"@.len() == 9);
    }
}

} // verus!
