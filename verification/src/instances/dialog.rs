//! Talking with the debugger: a command is sent, and what the debugger writes
//! is read up to its next prompt.
use crate::instances::decoding::joined_texts;
use crate::instances::reading::{
    all_but_last_piece, complete, finished, unfinished, End, EndView, Reading,
    PROMPT,
};
use crate::text::{contains, occurs, views};
use vstd::prelude::*;
use vstd::string::*;

verus! {

/// What a dialog needs done before it can go on.
pub enum Ask {
    /// Send this command to the debugger.
    Send(String),
    /// Read the next piece of what the debugger writes.
    Read,
}

/// What a dialog needs done before it can go on.
pub enum AskView {
    Send(Seq<char>),
    Read,
}

impl View for Ask {
    type V = AskView;

    open spec fn view(&self) -> AskView {
        match self {
            Ask::Send(command) => AskView::Send(command@),
            Ask::Read => AskView::Read,
        }
    }
}

/// What came of it.
pub enum Reply {
    /// The command was sent.
    Sent,
    /// Nobody took the command.
    NotSent,
    /// The debugger wrote this.
    Piece(String),
}

/// What came of it.
pub enum ReplyView {
    Sent,
    NotSent,
    Piece(Seq<char>),
}

impl View for Reply {
    type V = ReplyView;

    open spec fn view(&self) -> ReplyView {
        match self {
            Reply::Sent => ReplyView::Sent,
            Reply::NotSent => ReplyView::NotSent,
            Reply::Piece(piece) => ReplyView::Piece(piece@),
        }
    }
}

/// Where a procedure stands after a reply: it goes on, or it is done.
pub enum Progress<S, T> {
    More(S),
    Done(Result<T, String>),
}

/// Where a procedure stands after a reply: it goes on, or it is done.
pub enum Next<S, T> {
    More(S),
    Done(Result<T, Seq<char>>),
}

impl<S: View, T: View> View for Progress<S, T> {
    type V = Next<S::V, T::V>;

    open spec fn view(&self) -> Next<S::V, T::V> {
        match self {
            Progress::More(s) => Next::More(s@),
            Progress::Done(Ok(t)) => Next::Done(Ok(t@)),
            Progress::Done(Err(e)) => Next::Done(Err(e@)),
        }
    }
}

/// One command and its answer.
pub enum ExchangeView {
    /// The command is to be sent.
    Sending(Seq<char>),
    /// This much of the answer was read.
    Receiving(Seq<char>),
}

/// The step that an exchange needs done.
pub open spec fn exchange_ask(x: ExchangeView) -> AskView {
    match x {
        ExchangeView::Sending(command) => AskView::Send(command),
        ExchangeView::Receiving(_) => AskView::Read,
    }
}

/// `reply` is one to what was asked.
pub open spec fn answers(ask: AskView, reply: ReplyView) -> bool {
    match (ask, reply) {
        (AskView::Send(_), ReplyView::Sent) => true,
        (AskView::Send(_), ReplyView::NotSent) => true,
        (AskView::Read, ReplyView::Piece(_)) => true,
        _ => false,
    }
}

/// The answer of the debugger is the text up to its prompt; an answer that
/// reports an error is one.
pub open spec fn answer(text: Seq<char>) -> Result<Seq<char>, Seq<char>> {
    if occurs(text, "^error"@) {
        Err(text)
    } else {
        Ok(text)
    }
}

/// An exchange after a reply.
pub open spec fn exchange_next(x: ExchangeView, reply: ReplyView) -> Next<ExchangeView, Seq<char>> {
    match (x, reply) {
        (ExchangeView::Sending(_), ReplyView::Sent) => Next::More(
            ExchangeView::Receiving(Seq::empty()),
        ),
        (ExchangeView::Receiving(text), ReplyView::Piece(piece)) => {
            let now = text + piece;
            if occurs(now, PROMPT@) {
                Next::Done(answer(now))
            } else {
                Next::More(ExchangeView::Receiving(now))
            }
        },
        _ => Next::Done(Err("No response from watcher"@)),
    }
}

enum ExchangeState {
    Sending(String),
    Receiving(Reading),
}

/// One command and its answer.
pub struct Exchange {
    state: ExchangeState,
}

impl View for Exchange {
    type V = ExchangeView;

    closed spec fn view(&self) -> ExchangeView {
        match self.state {
            ExchangeState::Sending(command) => ExchangeView::Sending(command@),
            ExchangeState::Receiving(reading) => ExchangeView::Receiving(reading@.text),
        }
    }
}

impl Exchange {
    #[verifier::type_invariant]
    closed spec fn reads_to_prompt(self) -> bool {
        self.state matches ExchangeState::Receiving(reading) ==> reading@.end == EndView::Pattern(
            PROMPT@,
        )
    }

    /// A command that is to be sent.
    pub fn new(command: String) -> (r: Self)
        ensures
            r@ == ExchangeView::Sending(command@),
    {
        Exchange { state: ExchangeState::Sending(command) }
    }

    /// What is to be done next.
    pub fn ask(&self) -> (r: Ask)
        ensures
            r@ == exchange_ask(self@),
    {
        match &self.state {
            ExchangeState::Sending(command) => Ask::Send(command.clone()),
            ExchangeState::Receiving(_) => Ask::Read,
        }
    }

    /// Goes on with what came of it.
    pub fn take(self, reply: Reply) -> (r: Progress<Exchange, String>)
        requires
            answers(exchange_ask(self@), reply@),
        ensures
            r@ == exchange_next(self@, reply@),
    {
        proof {
            use_type_invariant(&self);
        }
        match (self.state, reply) {
            (ExchangeState::Receiving(reading), Reply::Piece(piece)) => {
                let mut reading = reading;
                if !reading.take(piece.as_str()) {
                    return Progress::More(Exchange { state: ExchangeState::Receiving(reading) });
                }
                let text = reading.text();
                if contains(text.as_str(), "^error") {
                    Progress::Done(Err(text))
                } else {
                    Progress::Done(Ok(text))
                }
            },
            (ExchangeState::Sending(_), Reply::Sent) => {
                let reading = Reading::new(End::Pattern(PROMPT.to_string()));
                Progress::More(Exchange { state: ExchangeState::Receiving(reading) })
            },
            _ => Progress::Done(Err("No response from watcher".to_string())),
        }
    }
}

/// Commands that are exchanged one after the other.
pub struct ScriptView {
    /// Whether the lines are breakpoints to set; else they are commands.
    pub breakpoints: bool,
    pub lines: Seq<Seq<char>>,
    /// The line that is exchanged.
    pub at: int,
    pub exchange: ExchangeView,
}

/// The command of a line.
pub open spec fn line_command(breakpoints: bool, line: Seq<char>) -> Seq<char> {
    if breakpoints {
        "b "@ + line
    } else {
        line
    }
}

/// The commands of all lines.
pub open spec fn line_commands(breakpoints: bool, lines: Seq<Seq<char>>) -> Seq<Seq<char>> {
    lines.map_values(|line: Seq<char>| line_command(breakpoints, line))
}

/// A script at the beginning of its line `at`, or at its end.
pub open spec fn script_at(breakpoints: bool, lines: Seq<Seq<char>>, at: int) -> Next<
    ScriptView,
    (),
> {
    if at == lines.len() {
        Next::Done(Ok(()))
    } else {
        Next::More(
            ScriptView {
                breakpoints,
                lines,
                at,
                exchange: ExchangeView::Sending(line_command(breakpoints, lines[at])),
            },
        )
    }
}

/// A script after a reply: the first answer that reports an error ends it.
pub open spec fn script_next(s: ScriptView, reply: ReplyView) -> Next<ScriptView, ()> {
    match exchange_next(s.exchange, reply) {
        Next::More(exchange) => Next::More(ScriptView { exchange, ..s }),
        Next::Done(Err(e)) => Next::Done(Err(e)),
        Next::Done(Ok(text)) => if s.breakpoints && occurs(text, "error"@) {
            Next::Done(Err("Could not set breakpoint "@ + s.lines[s.at]))
        } else {
            script_at(s.breakpoints, s.lines, s.at + 1)
        },
    }
}

/// Commands that are exchanged one after the other.
pub struct Script {
    breakpoints: bool,
    lines: Vec<String>,
    at: usize,
    exchange: Exchange,
}

impl View for Script {
    type V = ScriptView;

    closed spec fn view(&self) -> ScriptView {
        ScriptView {
            breakpoints: self.breakpoints,
            lines: views(self.lines@),
            at: self.at as int,
            exchange: self.exchange@,
        }
    }
}

impl Script {
    #[verifier::type_invariant]
    closed spec fn at_a_line(self) -> bool {
        self.at < self.lines@.len()
    }

    /// A script at the beginning of its line `at`.
    fn begin(breakpoints: bool, lines: Vec<String>, at: usize) -> (r: Progress<Script, ()>)
        requires
            at <= lines@.len(),
        ensures
            r@ == script_at(breakpoints, views(lines@), at as int),
    {
        if at == lines.len() {
            return Progress::Done(Ok(()));
        }
        assert(views(lines@)[at as int] == lines@[at as int]@);
        let command = if breakpoints {
            let mut command = "b ".to_string();
            command.append(lines[at].as_str());
            command
        } else {
            lines[at].clone()
        };
        Progress::More(Script { breakpoints, lines, at, exchange: Exchange::new(command) })
    }

    /// A script of which nothing was exchanged yet.
    pub fn new(breakpoints: bool, lines: Vec<String>) -> (r: Progress<Script, ()>)
        ensures
            r@ == script_at(breakpoints, views(lines@), 0),
    {
        Script::begin(breakpoints, lines, 0)
    }

    /// What is to be done next.
    pub fn ask(&self) -> (r: Ask)
        ensures
            r@ == exchange_ask(self@.exchange),
    {
        self.exchange.ask()
    }

    /// Goes on with what came of it.
    pub fn take(self, reply: Reply) -> (r: Progress<Script, ()>)
        requires
            answers(exchange_ask(self@.exchange), reply@),
        ensures
            r@ == script_next(self@, reply@),
    {
        proof {
            use_type_invariant(&self);
        }
        let Script { breakpoints, lines, at, exchange } = self;
        let count: usize = lines.len();
        assert(at < count);
        match exchange.take(reply) {
            Progress::More(exchange) => Progress::More(Script { breakpoints, lines, at, exchange }),
            Progress::Done(Err(e)) => Progress::Done(Err(e)),
            Progress::Done(Ok(text)) => {
                if breakpoints && contains(text.as_str(), "error") {
                    assert(views(lines@)[at as int] == lines@[at as int]@);
                    let mut e = "Could not set breakpoint ".to_string();
                    e.append(lines[at].as_str());
                    Progress::Done(Err(e))
                } else {
                    Script::begin(breakpoints, lines, at + 1)
                }
            },
        }
    }
}

/// Letting the program go on until it is stopped.
pub enum ContinuationView {
    /// The command to go on is exchanged.
    Continuing(ExchangeView),
    /// The program runs; this much of what the debugger writes when it stops
    /// was read.
    Running(Seq<char>),
}

/// The step that a continuation needs done.
pub open spec fn continuation_ask(c: ContinuationView) -> AskView {
    match c {
        ContinuationView::Continuing(exchange) => exchange_ask(exchange),
        ContinuationView::Running(_) => AskView::Read,
    }
}

/// A continuation after a reply. It ends with the message of the debugger that
/// the program was stopped.
pub open spec fn continuation_next(c: ContinuationView, reply: ReplyView) -> Next<
    ContinuationView,
    Seq<char>,
> {
    match c {
        ContinuationView::Continuing(exchange) => match exchange_next(exchange, reply) {
            Next::More(x) => Next::More(ContinuationView::Continuing(x)),
            Next::Done(Err(e)) => Next::Done(Err(e)),
            Next::Done(Ok(_)) => Next::More(ContinuationView::Running(Seq::empty())),
        },
        ContinuationView::Running(text) => {
            let now = text + reply->Piece_0;
            if occurs(now, PROMPT@) {
                Next::Done(Ok(now))
            } else {
                Next::More(ContinuationView::Running(now))
            }
        },
    }
}

enum ContinuationState {
    Continuing(Exchange),
    Running(Reading),
}

/// Letting the program go on until it is stopped.
pub struct Continuation {
    state: ContinuationState,
}

impl View for Continuation {
    type V = ContinuationView;

    closed spec fn view(&self) -> ContinuationView {
        match self.state {
            ContinuationState::Continuing(exchange) => ContinuationView::Continuing(exchange@),
            ContinuationState::Running(reading) => ContinuationView::Running(reading@.text),
        }
    }
}

impl Continuation {
    #[verifier::type_invariant]
    closed spec fn reads_to_prompt(self) -> bool {
        self.state matches ContinuationState::Running(reading) ==> reading@.end == EndView::Pattern(
            PROMPT@,
        )
    }

    /// The program is to go on.
    pub fn new() -> (r: Self)
        ensures
            r@ == ContinuationView::Continuing(ExchangeView::Sending("c"@)),
    {
        Continuation { state: ContinuationState::Continuing(Exchange::new("c".to_string())) }
    }

    /// What is to be done next.
    pub fn ask(&self) -> (r: Ask)
        ensures
            r@ == continuation_ask(self@),
    {
        match &self.state {
            ContinuationState::Continuing(exchange) => exchange.ask(),
            ContinuationState::Running(_) => Ask::Read,
        }
    }

    /// Goes on with what came of it.
    pub fn take(self, reply: Reply) -> (r: Progress<Continuation, String>)
        requires
            answers(continuation_ask(self@), reply@),
        ensures
            r@ == continuation_next(self@, reply@),
    {
        proof {
            use_type_invariant(&self);
        }
        match self.state {
            ContinuationState::Continuing(exchange) => match exchange.take(reply) {
                Progress::More(x) => Progress::More(
                    Continuation { state: ContinuationState::Continuing(x) },
                ),
                Progress::Done(Err(e)) => Progress::Done(Err(e)),
                Progress::Done(Ok(_)) => {
                    let reading = Reading::new(End::Pattern(PROMPT.to_string()));
                    Progress::More(Continuation { state: ContinuationState::Running(reading) })
                },
            },
            ContinuationState::Running(reading) => {
                let mut reading = reading;
                let done = match reply {
                    Reply::Piece(piece) => reading.take(piece.as_str()),
                    _ => false,
                };
                if done {
                    Progress::Done(Ok(reading.text()))
                } else {
                    Progress::More(Continuation { state: ContinuationState::Running(reading) })
                }
            },
        }
    }
}

/// Replies that are pieces of what the debugger writes.
pub open spec fn as_replies(pieces: Seq<Seq<char>>) -> Seq<ReplyView> {
    pieces.map_values(|piece: Seq<char>| ReplyView::Piece(piece))
}

/// An exchange after some replies.
pub open spec fn exchange_run(x: ExchangeView, replies: Seq<ReplyView>) -> Next<
    ExchangeView,
    Seq<char>,
>
    decreases replies.len(),
{
    if replies.len() == 0 {
        Next::More(x)
    } else {
        match exchange_run(x, replies.drop_last()) {
            Next::More(y) => exchange_next(y, replies.last()),
            Next::Done(r) => Next::Done(r),
        }
    }
}

/// While its text is not complete, an answer is read on.
proof fn exchange_reads_on(command: Seq<char>, pieces: Seq<Seq<char>>)
    requires
        unfinished(EndView::Pattern(PROMPT@), pieces),
        pieces.len() > 0 ==> !complete(EndView::Pattern(PROMPT@), joined_texts(pieces)),
    ensures
        exchange_run(
            ExchangeView::Sending(command),
            seq![ReplyView::Sent] + as_replies(pieces),
        ) == Next::<ExchangeView, Seq<char>>::More(
            ExchangeView::Receiving(joined_texts(pieces)),
        ),
    decreases pieces.len(),
{
    let replies = seq![ReplyView::Sent] + as_replies(pieces);
    let x = ExchangeView::Sending(command);
    if pieces.len() == 0 {
        assert(replies.drop_last() == Seq::<ReplyView>::empty());
        assert(replies.last() == ReplyView::Sent);
        assert(exchange_run(x, replies.drop_last()) == Next::<ExchangeView, Seq<char>>::More(x));
    } else {
        all_but_last_piece(EndView::Pattern(PROMPT@), pieces);
        exchange_reads_on(command, pieces.drop_last());
        assert(replies.drop_last() == seq![ReplyView::Sent] + as_replies(pieces.drop_last()));
        assert(replies.last() == ReplyView::Piece(pieces.last()));
    }
}

/// The answer to a command that was sent is all that the debugger writes up to
/// its prompt, in however many pieces it comes; it is an error where it reports
/// one.
pub proof fn answer_is_read_to_prompt(command: Seq<char>, pieces: Seq<Seq<char>>)
    requires
        finished(EndView::Pattern(PROMPT@), pieces),
    ensures
        exchange_run(
            ExchangeView::Sending(command),
            seq![ReplyView::Sent] + as_replies(pieces),
        ) == Next::<ExchangeView, Seq<char>>::Done(answer(joined_texts(pieces))),
{
    all_but_last_piece(EndView::Pattern(PROMPT@), pieces);
    exchange_reads_on(command, pieces.drop_last());
    let replies = seq![ReplyView::Sent] + as_replies(pieces);
    assert(replies.drop_last() == seq![ReplyView::Sent] + as_replies(pieces.drop_last()));
    assert(replies.last() == ReplyView::Piece(pieces.last()));
}

/// A continuation after some replies.
pub open spec fn continuation_run(c: ContinuationView, replies: Seq<ReplyView>) -> Next<
    ContinuationView,
    Seq<char>,
>
    decreases replies.len(),
{
    if replies.len() == 0 {
        Next::More(c)
    } else {
        match continuation_run(c, replies.drop_last()) {
            Next::More(d) => continuation_next(d, replies.last()),
            Next::Done(r) => Next::Done(r),
        }
    }
}

/// While the command to go on is exchanged, a continuation stands where the
/// exchange does.
proof fn continuation_exchanges(x: ExchangeView, replies: Seq<ReplyView>)
    requires
        exchange_run(x, replies) is More || (replies.len() > 0 && exchange_run(
            x,
            replies.drop_last(),
        ) is More),
    ensures
        continuation_run(ContinuationView::Continuing(x), replies) == match exchange_run(
            x,
            replies,
        ) {
            Next::More(y) => Next::<ContinuationView, Seq<char>>::More(
                ContinuationView::Continuing(y),
            ),
            Next::Done(Err(e)) => Next::Done(Err(e)),
            Next::Done(Ok(_)) => Next::More(ContinuationView::Running(Seq::empty())),
        },
    decreases replies.len(),
{
    if replies.len() > 0 {
        continuation_exchanges(x, replies.drop_last());
    }
}

/// While its text is not complete, the message of the debugger is read on.
proof fn continuation_reads_on(c: ContinuationView, first: Seq<ReplyView>, pieces: Seq<Seq<char>>)
    requires
        continuation_run(c, first) == Next::<ContinuationView, Seq<char>>::More(
            ContinuationView::Running(Seq::empty()),
        ),
        unfinished(EndView::Pattern(PROMPT@), pieces),
        pieces.len() > 0 ==> !complete(EndView::Pattern(PROMPT@), joined_texts(pieces)),
    ensures
        continuation_run(c, first + as_replies(pieces)) == Next::<
            ContinuationView,
            Seq<char>,
        >::More(ContinuationView::Running(joined_texts(pieces))),
    decreases pieces.len(),
{
    let replies = first + as_replies(pieces);
    if pieces.len() == 0 {
        assert(replies == first);
    } else {
        all_but_last_piece(EndView::Pattern(PROMPT@), pieces);
        continuation_reads_on(c, first, pieces.drop_last());
        assert(replies.drop_last() == first + as_replies(pieces.drop_last()));
        assert(replies.last() == ReplyView::Piece(pieces.last()));
    }
}

/// When the program is let go on, the debugger answers at once and writes
/// another message, up to its prompt, when the program is stopped: that message
/// is what comes of it, unless the answer reports an error.
pub proof fn message_follows_answer(answered: Seq<Seq<char>>, message: Seq<Seq<char>>)
    requires
        finished(EndView::Pattern(PROMPT@), answered),
        finished(EndView::Pattern(PROMPT@), message),
    ensures
        answer(joined_texts(answered)) is Ok ==> continuation_run(
            ContinuationView::Continuing(ExchangeView::Sending("c"@)),
            seq![ReplyView::Sent] + as_replies(answered) + as_replies(message),
        ) == Next::<ContinuationView, Seq<char>>::Done(Ok(joined_texts(message))),
        answer(joined_texts(answered)) is Err ==> continuation_run(
            ContinuationView::Continuing(ExchangeView::Sending("c"@)),
            seq![ReplyView::Sent] + as_replies(answered),
        ) == Next::<ContinuationView, Seq<char>>::Done(Err(joined_texts(answered))),
{
    let c = ContinuationView::Continuing(ExchangeView::Sending("c"@));
    let first = seq![ReplyView::Sent] + as_replies(answered);
    answer_is_read_to_prompt("c"@, answered);
    all_but_last_piece(EndView::Pattern(PROMPT@), answered);
    exchange_reads_on("c"@, answered.drop_last());
    assert(first.drop_last() == seq![ReplyView::Sent] + as_replies(answered.drop_last()));
    continuation_exchanges(ExchangeView::Sending("c"@), first);
    if answer(joined_texts(answered)) is Ok {
        all_but_last_piece(EndView::Pattern(PROMPT@), message);
        continuation_reads_on(c, first, message.drop_last());
        let replies = first + as_replies(message);
        assert(replies.drop_last() == first + as_replies(message.drop_last()));
        assert(replies.last() == ReplyView::Piece(message.last()));
    }
}

/// A script after some replies.
pub open spec fn script_run(s: ScriptView, replies: Seq<ReplyView>) -> Next<ScriptView, ()>
    decreases replies.len(),
{
    if replies.len() == 0 {
        Next::More(s)
    } else {
        match script_run(s, replies.drop_last()) {
            Next::More(t) => script_next(t, replies.last()),
            Next::Done(r) => Next::Done(r),
        }
    }
}

/// The command that is sent when a script gets a reply.
pub open spec fn sent_now(s: ScriptView, reply: ReplyView) -> Seq<Seq<char>> {
    match (s.exchange, reply) {
        (ExchangeView::Sending(command), ReplyView::Sent) => seq![command],
        _ => Seq::empty(),
    }
}

/// The commands that a script sent, in order.
pub open spec fn script_sent(s: ScriptView, replies: Seq<ReplyView>) -> Seq<Seq<char>>
    decreases replies.len(),
{
    if replies.len() == 0 {
        Seq::empty()
    } else {
        match script_run(s, replies.drop_last()) {
            Next::More(t) => script_sent(s, replies.drop_last()) + sent_now(t, replies.last()),
            Next::Done(_) => script_sent(s, replies.drop_last()),
        }
    }
}

/// `s` is a script of these lines, and exchanges the line that it is at.
pub open spec fn script_of(s: ScriptView, breakpoints: bool, lines: Seq<Seq<char>>) -> bool {
    &&& s.breakpoints == breakpoints
    &&& s.lines == lines
    &&& 0 <= s.at < lines.len()
    &&& s.exchange matches ExchangeView::Sending(command) ==> command == line_command(
        breakpoints,
        lines[s.at],
    )
}

/// How many commands a script sent so far.
pub open spec fn sent_count(s: ScriptView) -> int {
    if s.exchange is Sending {
        s.at
    } else {
        s.at + 1
    }
}

/// One step of a script: it sends no command but the next one, and is done only
/// after the last one.
pub(crate) proof fn script_step(
    s: ScriptView,
    reply: ReplyView,
    breakpoints: bool,
    lines: Seq<Seq<char>>,
)
    requires
        script_of(s, breakpoints, lines),
    ensures
        ({
            let commands = line_commands(breakpoints, lines);
            let sent = commands.take(sent_count(s)) + sent_now(s, reply);
            match script_next(s, reply) {
                Next::More(t) => script_of(t, breakpoints, lines) && sent == commands.take(
                    sent_count(t),
                ),
                Next::Done(Ok(_)) => sent == commands,
                Next::Done(Err(_)) => sent.is_prefix_of(commands),
            }
        }),
{
    let commands = line_commands(breakpoints, lines);
    let sent = commands.take(sent_count(s)) + sent_now(s, reply);
    assert(commands[s.at] == line_command(breakpoints, lines[s.at]));
    match script_next(s, reply) {
        Next::More(t) => {
            assert(sent == commands.take(sent_count(t)));
        },
        Next::Done(Ok(_)) => {
            assert(sent == commands);
        },
        Next::Done(Err(_)) => {},
    }
}

/// A script sends its commands in order, each once: all of them where it ends
/// well.
pub proof fn script_sends_in_order(
    breakpoints: bool,
    lines: Seq<Seq<char>>,
    replies: Seq<ReplyView>,
)
    requires
        lines.len() > 0,
    ensures
        ({
            let s = script_at(breakpoints, lines, 0)->More_0;
            let commands = line_commands(breakpoints, lines);
            match script_run(s, replies) {
                Next::More(t) => script_of(t, breakpoints, lines) && script_sent(s, replies)
                    == commands.take(sent_count(t)),
                Next::Done(Ok(_)) => script_sent(s, replies) == commands,
                Next::Done(Err(_)) => script_sent(s, replies).is_prefix_of(commands),
            }
        }),
    decreases replies.len(),
{
    let s = script_at(breakpoints, lines, 0)->More_0;
    if replies.len() == 0 {
        assert(script_sent(s, replies) == line_commands(breakpoints, lines).take(0));
    } else {
        script_sends_in_order(breakpoints, lines, replies.drop_last());
        if let Next::More(t) = script_run(s, replies.drop_last()) {
            script_step(t, replies.last(), breakpoints, lines);
        }
    }
}

/// A script goes on from where it stands after its first replies.
proof fn script_runs_on(s: ScriptView, t: ScriptView, first: Seq<ReplyView>, then: Seq<ReplyView>)
    requires
        script_run(s, first) == Next::<ScriptView, ()>::More(t),
    ensures
        script_run(s, first + then) == script_run(t, then),
    decreases then.len(),
{
    if then.len() == 0 {
        assert(first + then == first);
    } else {
        assert((first + then).drop_last() == first + then.drop_last());
        script_runs_on(s, t, first, then.drop_last());
    }
}

/// While one of its commands is exchanged, a script stands where the exchange
/// does.
proof fn script_exchanges(s: ScriptView, replies: Seq<ReplyView>)
    requires
        exchange_run(s.exchange, replies) is More,
    ensures
        script_run(s, replies) == Next::<ScriptView, ()>::More(
            ScriptView { exchange: exchange_run(s.exchange, replies)->More_0, ..s },
        ),
    decreases replies.len(),
{
    if replies.len() > 0 {
        script_exchanges(s, replies.drop_last());
    }
}

/// The replies to commands that are all sent, and to each of which an answer is
/// read in some pieces.
pub open spec fn answered(answers: Seq<Seq<Seq<char>>>) -> Seq<ReplyView>
    decreases answers.len(),
{
    if answers.len() == 0 {
        Seq::empty()
    } else {
        answered(answers.drop_last()) + (seq![ReplyView::Sent] + as_replies(answers.last()))
    }
}

/// The error that an answer to the command of a line ends a script with: the
/// answer where it reports one, else that the breakpoint of the line could not
/// be set where the answer speaks of an error.
pub open spec fn line_error(breakpoints: bool, line: Seq<char>, text: Seq<char>) -> Option<
    Seq<char>,
> {
    if occurs(text, "^error"@) {
        Some(text)
    } else if breakpoints && occurs(text, "error"@) {
        Some("Could not set breakpoint "@ + line)
    } else {
        None
    }
}

/// The answers to the commands of the first lines, each read up to the prompt,
/// of which none before the last ends a script.
pub open spec fn answered_so_far(
    breakpoints: bool,
    lines: Seq<Seq<char>>,
    answers: Seq<Seq<Seq<char>>>,
) -> bool {
    &&& answers.len() <= lines.len()
    &&& forall|i: int|
        0 <= i < answers.len() ==> finished(EndView::Pattern(PROMPT@), #[trigger] answers[i])
    &&& forall|i: int|
        0 <= i < answers.len() - 1 ==> line_error(
            breakpoints,
            lines[i],
            joined_texts(#[trigger] answers[i]),
        ) is None
}

/// A script after the answers to its first commands: it ends with the error of
/// the last answer, if that is one, else it ends well where that was the answer
/// to its last command, else it goes on with the next one.
pub open spec fn script_after(
    breakpoints: bool,
    lines: Seq<Seq<char>>,
    answers: Seq<Seq<Seq<char>>>,
) -> Next<ScriptView, ()> {
    let n = answers.len() as int;
    if n == 0 {
        script_at(breakpoints, lines, 0)
    } else {
        match line_error(breakpoints, lines[n - 1], joined_texts(answers.last())) {
            Some(e) => Next::Done(Err(e)),
            None => script_at(breakpoints, lines, n),
        }
    }
}

/// How a script ends, over the answers to its commands up to the first that ends
/// it: well exactly where each command was answered and none of the answers is
/// an error, and all commands were sent; else with the error of the first answer
/// that is one, and the commands up to the one that it answers were sent.
pub proof fn script_ends_by_answers(
    breakpoints: bool,
    lines: Seq<Seq<char>>,
    answers: Seq<Seq<Seq<char>>>,
)
    requires
        lines.len() > 0,
        answered_so_far(breakpoints, lines, answers),
    ensures
        ({
            let s = script_at(breakpoints, lines, 0)->More_0;
            &&& script_run(s, answered(answers)) == script_after(breakpoints, lines, answers)
            &&& script_sent(s, answered(answers)) == line_commands(breakpoints, lines).take(
                answers.len() as int,
            )
        }),
        ({
            let s = script_at(breakpoints, lines, 0)->More_0;
            script_run(s, answered(answers)) == Next::<ScriptView, ()>::Done(Ok(())) <==> {
                &&& answers.len() == lines.len()
                &&& line_error(breakpoints, lines.last(), joined_texts(answers.last())) is None
            }
        }),
    decreases answers.len(),
{
    let s = script_at(breakpoints, lines, 0)->More_0;
    let commands = line_commands(breakpoints, lines);
    let replies = answered(answers);
    if answers.len() == 0 {
        assert(script_sent(s, replies) == commands.take(0));
    } else {
        let front = answers.drop_last();
        let n = answers.len() as int;
        assert forall|i: int| 0 <= i < front.len() implies finished(
            EndView::Pattern(PROMPT@),
            #[trigger] front[i],
        ) && line_error(breakpoints, lines[i], joined_texts(front[i])) is None by {
            assert(front[i] == answers[i]);
        }
        script_ends_by_answers(breakpoints, lines, front);
        if front.len() > 0 {
            assert(front.last() == front[n - 2]);
        }
        let t = script_at(breakpoints, lines, n - 1)->More_0;
        assert(script_run(s, answered(front)) == Next::<ScriptView, ()>::More(t));
        let command = line_command(breakpoints, lines[n - 1]);
        let pieces = answers.last();
        assert(answers[n - 1] == pieces);
        let own = seq![ReplyView::Sent] + as_replies(pieces);
        all_but_last_piece(EndView::Pattern(PROMPT@), pieces);
        exchange_reads_on(command, pieces.drop_last());
        answer_is_read_to_prompt(command, pieces);
        assert(own.drop_last() == seq![ReplyView::Sent] + as_replies(pieces.drop_last()));
        assert(own.last() == ReplyView::Piece(pieces.last()));
        script_exchanges(t, own.drop_last());
        script_runs_on(s, t, answered(front), own.drop_last());
        assert(replies.drop_last() == answered(front) + own.drop_last());
        assert(replies.last() == own.last());
        script_sends_in_order(breakpoints, lines, replies.drop_last());
        assert(script_sent(s, replies) == commands.take(n));
    }
}

} // verus!
