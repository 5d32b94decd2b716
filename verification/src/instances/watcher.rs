//! The task that hands commands to the debugger.
use crate::instances::reading::{End, EndView, Reading, PROMPT};
use crate::text::{occurs, same};
use vstd::prelude::*;
use vstd::string::*;

verus! {

/// What the task needs done before it can go on.
pub enum WatcherAsk {
    /// Read the next piece of what the debugger writes.
    Read,
    /// Wait for the next command.
    NextCommand,
    /// Kill the debugger.
    Kill,
    /// Write this to the debugger.
    Write(String),
}

/// What the task needs done before it can go on.
pub enum WatcherAskView {
    Read,
    NextCommand,
    Kill,
    Write(Seq<char>),
}

impl View for WatcherAsk {
    type V = WatcherAskView;

    open spec fn view(&self) -> WatcherAskView {
        match self {
            WatcherAsk::Read => WatcherAskView::Read,
            WatcherAsk::NextCommand => WatcherAskView::NextCommand,
            WatcherAsk::Kill => WatcherAskView::Kill,
            WatcherAsk::Write(line) => WatcherAskView::Write(line@),
        }
    }
}

/// What came of it.
pub enum WatcherReply {
    /// It was done.
    Done,
    /// The debugger wrote this.
    Piece(String),
    /// This command came.
    Command(String),
    /// There will be no more commands.
    Closed,
}

/// What came of it.
pub enum WatcherReplyView {
    Done,
    Piece(Seq<char>),
    Command(Seq<char>),
    Closed,
}

impl View for WatcherReply {
    type V = WatcherReplyView;

    open spec fn view(&self) -> WatcherReplyView {
        match self {
            WatcherReply::Done => WatcherReplyView::Done,
            WatcherReply::Piece(piece) => WatcherReplyView::Piece(piece@),
            WatcherReply::Command(command) => WatcherReplyView::Command(command@),
            WatcherReply::Closed => WatcherReplyView::Closed,
        }
    }
}

/// The task.
pub enum WatcherView {
    /// It reads what the debugger writes before its first prompt, of which this
    /// much is there.
    Starting(Seq<char>),
    /// It waits for a command.
    Waiting,
    /// It kills the debugger.
    Killing,
    /// It writes this to the debugger.
    Writing(Seq<char>),
}

/// What the task needs done.
pub open spec fn watcher_ask(w: WatcherView) -> WatcherAskView {
    match w {
        WatcherView::Starting(_) => WatcherAskView::Read,
        WatcherView::Waiting => WatcherAskView::NextCommand,
        WatcherView::Killing => WatcherAskView::Kill,
        WatcherView::Writing(line) => WatcherAskView::Write(line),
    }
}

/// `reply` is one to what was asked.
pub open spec fn watcher_answers(ask: WatcherAskView, reply: WatcherReplyView) -> bool {
    match (ask, reply) {
        (WatcherAskView::Read, WatcherReplyView::Piece(_)) => true,
        (WatcherAskView::NextCommand, WatcherReplyView::Command(_)) => true,
        (WatcherAskView::NextCommand, WatcherReplyView::Closed) => true,
        (WatcherAskView::Kill, WatcherReplyView::Done) => true,
        (WatcherAskView::Write(_), WatcherReplyView::Done) => true,
        _ => false,
    }
}

/// The task after a reply, or nothing once there will be no more commands. The
/// command `stop` kills the debugger; any other is a line that is written to it.
pub open spec fn watcher_next(w: WatcherView, reply: WatcherReplyView) -> Option<WatcherView> {
    match (w, reply) {
        (WatcherView::Starting(text), WatcherReplyView::Piece(piece)) => {
            let now = text + piece;
            if occurs(now, PROMPT@) {
                Some(WatcherView::Waiting)
            } else {
                Some(WatcherView::Starting(now))
            }
        },
        (WatcherView::Waiting, WatcherReplyView::Command(command)) => if command == "stop"@ {
            Some(WatcherView::Killing)
        } else {
            Some(WatcherView::Writing(command.push('\n')))
        },
        (WatcherView::Killing, _) => Some(WatcherView::Waiting),
        (WatcherView::Writing(_), _) => Some(WatcherView::Waiting),
        _ => None,
    }
}

enum WatcherState {
    Starting(Reading),
    Waiting,
    Killing,
    Writing(String),
}

/// The task that hands commands to the debugger.
pub struct Watcher {
    state: WatcherState,
}

impl View for Watcher {
    type V = WatcherView;

    closed spec fn view(&self) -> WatcherView {
        match self.state {
            WatcherState::Starting(reading) => WatcherView::Starting(reading@.text),
            WatcherState::Waiting => WatcherView::Waiting,
            WatcherState::Killing => WatcherView::Killing,
            WatcherState::Writing(line) => WatcherView::Writing(line@),
        }
    }
}

/// The view of a task that may be done.
pub open spec fn watcher_view(w: Option<Watcher>) -> Option<WatcherView> {
    match w {
        Some(w) => Some(w@),
        None => None,
    }
}

impl Watcher {
    #[verifier::type_invariant]
    closed spec fn reads_to_prompt(self) -> bool {
        self.state matches WatcherState::Starting(reading) ==> reading@.end == EndView::Pattern(
            PROMPT@,
        )
    }

    /// The task of a debugger that was just started.
    pub fn new() -> (r: Self)
        ensures
            r@ == WatcherView::Starting(Seq::empty()),
    {
        Watcher {
            state: WatcherState::Starting(Reading::new(End::Pattern(PROMPT.to_string()))),
        }
    }

    /// What is to be done next.
    pub fn ask(&self) -> (r: WatcherAsk)
        ensures
            r@ == watcher_ask(self@),
    {
        match &self.state {
            WatcherState::Starting(_) => WatcherAsk::Read,
            WatcherState::Waiting => WatcherAsk::NextCommand,
            WatcherState::Killing => WatcherAsk::Kill,
            WatcherState::Writing(line) => WatcherAsk::Write(line.clone()),
        }
    }

    /// Goes on with what came of it.
    pub fn take(self, reply: WatcherReply) -> (r: Option<Watcher>)
        requires
            watcher_answers(watcher_ask(self@), reply@),
        ensures
            watcher_view(r) == watcher_next(self@, reply@),
    {
        proof {
            use_type_invariant(&self);
        }
        let state = match (self.state, reply) {
            (WatcherState::Starting(reading), WatcherReply::Piece(piece)) => {
                let mut reading = reading;
                if reading.take(piece.as_str()) {
                    WatcherState::Waiting
                } else {
                    WatcherState::Starting(reading)
                }
            },
            (WatcherState::Waiting, WatcherReply::Command(command)) => {
                if same(command.as_str(), "stop") {
                    WatcherState::Killing
                } else {
                    let mut line = command;
                    line.push('\n');
                    WatcherState::Writing(line)
                }
            },
            (WatcherState::Killing, _) => WatcherState::Waiting,
            (WatcherState::Writing(_), _) => WatcherState::Waiting,
            _ => {
                return None;
            },
        };
        Some(Watcher { state })
    }
}

/// Each command that comes is handed to the debugger as one line, but for the
/// one that kills it; then the task waits for the next command.
pub proof fn command_is_written(command: Seq<char>)
    ensures
        ({
            let then = watcher_next(WatcherView::Waiting, WatcherReplyView::Command(command));
            &&& then is Some
            &&& watcher_ask(then->0) == if command == "stop"@ {
                WatcherAskView::Kill
            } else {
                WatcherAskView::Write(command.push('\n'))
            }
            &&& watcher_next(then->0, WatcherReplyView::Done) == Some(WatcherView::Waiting)
        }),
{
}

} // verus!
