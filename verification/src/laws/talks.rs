//! Laws of what is asked of those who talk with a debugger or a socket, and of
//! what comes of it.
use crate::instances::debugger::{continuation_start, exchange_start, script_start};
use crate::instances::decoding::joined_texts;
use crate::instances::dialog::{
    answer_is_read_to_prompt, answered, as_replies, continuation_ask, continuation_next,
    continuation_run, exchange_ask, exchange_next, exchange_run, line_commands, line_error,
    message_follows_answer, script_at, script_ends_by_answers, script_next, script_run, Ask, AskView, ContinuationView, ExchangeView, Next,
    Progress, Reply, ReplyView, ScriptView,
};
use crate::instances::qmp::{
    as_socket_replies, greeting_is_skipped, query_is_answered, socket_ask, socket_next, socket_run,
    SocketAsk, SocketAskView, SocketReply, SocketReplyView, SocketWatchView,
};
use crate::instances::reading::{complete, finished, EndView, PROMPT};
use crate::instances::watcher::{
    watcher_ask, watcher_next, WatcherAsk, WatcherAskView, WatcherReply, WatcherReplyView,
    WatcherView,
};
use crate::laws::texts::occurs_in_the_middle;
use crate::text::occurs;
use vstd::prelude::*;

verus! {

/// What a dialog asks to be sent is its command, all of it; while an answer is
/// read, nothing is sent.
pub proof fn commands_are_asked_for(command: Seq<char>, text: Seq<char>)
    ensures
        exchange_ask(ExchangeView::Sending(command)) == AskView::Send(command),
        exchange_ask(ExchangeView::Receiving(text)) == AskView::Read,
        continuation_ask(ContinuationView::Continuing(ExchangeView::Sending(command)))
            == AskView::Send(command),
        continuation_ask(ContinuationView::Continuing(ExchangeView::Receiving(text)))
            == AskView::Read,
        continuation_ask(ContinuationView::Running(text)) == AskView::Read,
{
}

/// A text is read to its end where it holds the pattern anywhere, or where its
/// last character ends a line.
pub proof fn read_to_the_end(text: Seq<char>, pattern: Seq<char>)
    ensures
        complete(EndView::Pattern(pattern), text) <==> exists|a: Seq<char>, b: Seq<char>|
            text == #[trigger] ((a + pattern) + b),
        complete(EndView::Line, text) <==> exists|a: Seq<char>| text == #[trigger] a.push('\n'),
{
    occurs_in_the_middle(text, pattern);
    if complete(EndView::Line, text) {
        assert(text == text.drop_last().push('\n'));
    }
}

/// `pieces` are what the debugger writes up to its next prompt.
pub open spec fn up_to_prompt(pieces: Seq<Seq<char>>) -> bool {
    &&& pieces.len() > 0
    &&& occurs(joined_texts(pieces), "(gdb)"@)
    &&& forall|n: int|
        1 <= n < pieces.len() ==> !occurs(joined_texts(#[trigger] pieces.take(n)), "(gdb)"@)
}

/// What is read up to the prompt is read to its end.
proof fn prompt_ends(pieces: Seq<Seq<char>>)
    requires
        up_to_prompt(pieces),
    ensures
        finished(EndView::Pattern(PROMPT@), pieces),
{
}

/// A command and its answer: the answer is all that is written up to the prompt;
/// it is an error where `^error` stands in it.
pub proof fn command_and_answer(command: Seq<char>, pieces: Seq<Seq<char>>)
    requires
        up_to_prompt(pieces),
    ensures
        exchange_run(
            ExchangeView::Sending(command),
            seq![ReplyView::Sent] + pieces.map_values(|p: Seq<char>| ReplyView::Piece(p)),
        ) == Next::<ExchangeView, Seq<char>>::Done(
            if occurs(joined_texts(pieces), "^error"@) {
                Err(joined_texts(pieces))
            } else {
                Ok(joined_texts(pieces))
            },
        ),
        exchange_next(ExchangeView::Sending(command), ReplyView::NotSent) == Next::<
            ExchangeView,
            Seq<char>,
        >::Done(Err("No response from watcher"@)),
{
    prompt_ends(pieces);
    answer_is_read_to_prompt(command, pieces);
    assert(as_replies(pieces) == pieces.map_values(|p: Seq<char>| ReplyView::Piece(p)));
}

/// A command that nobody takes ends whatever it is sent for.
pub proof fn nobody_takes_command(command: Seq<char>, s: ScriptView)
    requires
        s.exchange == ExchangeView::Sending(command),
    ensures
        script_next(s, ReplyView::NotSent) == Next::<ScriptView, ()>::Done(
            Err("No response from watcher"@),
        ),
        continuation_next(
            ContinuationView::Continuing(ExchangeView::Sending(command)),
            ReplyView::NotSent,
        ) == Next::<ContinuationView, Seq<char>>::Done(Err("No response from watcher"@)),
{
}

/// Letting the program go on: the command `c` is answered, and what is written
/// up to the prompt after that is the message that the program was stopped.
pub proof fn stop_is_the_second_message(answer: Seq<Seq<char>>, message: Seq<Seq<char>>)
    requires
        up_to_prompt(answer),
        up_to_prompt(message),
    ensures
        ({
            let start = ContinuationView::Continuing(ExchangeView::Sending("c"@));
            let first = seq![ReplyView::Sent] + answer.map_values(
                |p: Seq<char>| ReplyView::Piece(p),
            );
            let second = message.map_values(|p: Seq<char>| ReplyView::Piece(p));
            if occurs(joined_texts(answer), "^error"@) {
                continuation_run(start, first) == Next::<ContinuationView, Seq<char>>::Done(
                    Err(joined_texts(answer)),
                )
            } else {
                continuation_run(start, first + second) == Next::<
                    ContinuationView,
                    Seq<char>,
                >::Done(Ok(joined_texts(message)))
            }
        }),
{
    prompt_ends(answer);
    prompt_ends(message);
    message_follows_answer(answer, message);
    assert(as_replies(answer) == answer.map_values(|p: Seq<char>| ReplyView::Piece(p)));
    assert(as_replies(message) == message.map_values(|p: Seq<char>| ReplyView::Piece(p)));
}

/// The commands of lines: each as it is given, or `b` and the whole name of the
/// breakpoint.
pub proof fn lines_are_sent_whole(lines: Seq<Seq<char>>)
    ensures
        line_commands(false, lines) == lines,
        line_commands(true, lines).len() == lines.len(),
        forall|i: int|
            0 <= i < lines.len() ==> #[trigger] line_commands(true, lines)[i] == "b "@ + lines[i],
{
    assert(line_commands(false, lines) == lines);
}

/// The answers to the first lines of a script are good: none reports an error,
/// and none to a breakpoint speaks of one.
pub open spec fn good_answers(breakpoints: bool, answers: Seq<Seq<Seq<char>>>) -> bool {
    forall|i: int|
        0 <= i < answers.len() ==> {
            &&& up_to_prompt(#[trigger] answers[i])
            &&& !occurs(joined_texts(answers[i]), "^error"@)
            &&& breakpoints ==> !occurs(joined_texts(answers[i]), "error"@)
        }
}

/// A script whose answers are all good ends well, after as many answers as it
/// has lines. After good answers to its first lines, an answer to the next one
/// that reports an error is the error that the script ends with; the name of the
/// breakpoint that could not be set is one where the answer only speaks of an
/// error.
pub proof fn script_ends(
    breakpoints: bool,
    lines: Seq<Seq<char>>,
    good: Seq<Seq<Seq<char>>>,
    next: Seq<Seq<char>>,
)
    requires
        good.len() < lines.len(),
        good_answers(breakpoints, good),
        up_to_prompt(next),
    ensures
        ({
            let start = script_at(breakpoints, lines, 0)->More_0;
            let now = script_run(start, answered(good.push(next)));
            let text = joined_texts(next);
            if occurs(text, "^error"@) {
                now == Next::<ScriptView, ()>::Done(Err(text))
            } else if breakpoints && occurs(text, "error"@) {
                now == Next::<ScriptView, ()>::Done(
                    Err("Could not set breakpoint "@ + lines[good.len() as int]),
                )
            } else if good.len() + 1 == lines.len() {
                now == Next::<ScriptView, ()>::Done(Ok(()))
            } else {
                &&& now matches Next::More(s)
                &&& s.breakpoints == breakpoints && s.lines == lines && s.at == good.len() + 1
                &&& s.exchange == ExchangeView::Sending(
                    if breakpoints {
                        "b "@ + lines[good.len() as int + 1]
                    } else {
                        lines[good.len() as int + 1]
                    },
                )
            }
        }),
        ({
            let none = script_at(breakpoints, Seq::empty(), 0);
            none == Next::<ScriptView, ()>::Done(Ok(()))
        }),
        ({
            let start = script_at(breakpoints, lines, 0);
            start matches Next::More(s) && s.breakpoints == breakpoints && s.lines == lines && s.at
                == 0 && s.exchange == ExchangeView::Sending(
                if breakpoints {
                    "b "@ + lines[0]
                } else {
                    lines[0]
                },
            )
        }),
{
    let answers = good.push(next);
    assert forall|i: int| 0 <= i < answers.len() implies finished(
        EndView::Pattern(PROMPT@),
        #[trigger] answers[i],
    ) by {
        if i < good.len() {
            assert(answers[i] == good[i]);
        }
        prompt_ends(answers[i]);
    }
    assert forall|i: int| 0 <= i < answers.len() - 1 implies line_error(
        breakpoints,
        lines[i],
        joined_texts(#[trigger] answers[i]),
    ) is None by {
        assert(answers[i] == good[i]);
    }
    script_ends_by_answers(breakpoints, lines, answers);
    assert(answers.last() == next);
}

/// The replies to the commands of a script: each is sent, and its answer is read
/// in some pieces.
pub proof fn replies_of_answers(answers: Seq<Seq<Seq<char>>>, next: Seq<Seq<char>>)
    ensures
        answered(Seq::empty()) == Seq::<ReplyView>::empty(),
        answered(answers.push(next)) == answered(answers) + seq![ReplyView::Sent]
            + next.map_values(|p: Seq<char>| ReplyView::Piece(p)),
{
    assert(answers.push(next).drop_last() == answers);
    assert(as_replies(next) == next.map_values(|p: Seq<char>| ReplyView::Piece(p)));
    assert(answered(answers) + (seq![ReplyView::Sent] + as_replies(next)) == answered(answers)
        + seq![ReplyView::Sent] + as_replies(next));
}

/// Nothing can be sent to a debugger that is not attached; to one that is, it is
/// sent from the beginning.
pub proof fn only_attached_is_talked_to(
    command: Seq<char>,
    breakpoints: bool,
    lines: Seq<Seq<char>>,
)
    ensures
        exchange_start(true, command) == Next::<ExchangeView, Seq<char>>::More(
            ExchangeView::Sending(command),
        ),
        exchange_start(false, command) == Next::<ExchangeView, Seq<char>>::Done(
            Err("Cant get sender"@),
        ),
        continuation_start(true) == Next::<ContinuationView, Seq<char>>::More(
            ContinuationView::Continuing(ExchangeView::Sending("c"@)),
        ),
        continuation_start(false) == Next::<ContinuationView, Seq<char>>::Done(
            Err("Cant get sender"@),
        ),
        script_start(true, breakpoints, lines) == script_at(breakpoints, lines, 0),
        lines.len() > 0 ==> script_start(false, breakpoints, lines) == Next::<
            ScriptView,
            (),
        >::Done(Err("Cant get sender"@)),
        lines.len() == 0 ==> script_start(false, breakpoints, lines) == Next::<
            ScriptView,
            (),
        >::Done(Ok(())),
{
}

/// `pieces` are what comes over a socket up to where a piece ends with a line.
pub open spec fn up_to_line_end(pieces: Seq<Seq<char>>) -> bool {
    &&& pieces.len() > 0
    &&& joined_texts(pieces).len() > 0 && joined_texts(pieces).last() == '\n'
    &&& forall|n: int|
        1 <= n < pieces.len() ==> {
            let text = joined_texts(#[trigger] pieces.take(n));
            text.len() == 0 || text.last() != '\n'
        }
}

/// A socket is waited for, its greeting is read and handed to nobody, and then
/// queries are waited for.
pub proof fn socket_opens(greeting: Seq<Seq<char>>, text: Seq<char>)
    requires
        up_to_line_end(greeting),
    ensures
        socket_ask(SocketWatchView::Opening) == SocketAskView::AwaitReadable,
        socket_ask(SocketWatchView::Greeting(text)) == SocketAskView::Read,
        socket_ask(SocketWatchView::Waiting) == SocketAskView::NextQuery,
        socket_run(
            SocketWatchView::Opening,
            seq![SocketReplyView::Done] + greeting.map_values(
                |p: Seq<char>| SocketReplyView::Piece(p),
            ),
        ) == Some(SocketWatchView::Waiting),
        socket_next(SocketWatchView::Waiting, SocketReplyView::Closed) is None,
{
    assert(finished(EndView::Line, greeting));
    greeting_is_skipped(greeting);
    assert(as_socket_replies(greeting) == greeting.map_values(
        |p: Seq<char>| SocketReplyView::Piece(p),
    ));
}

/// A query is written to the socket as it is, and what comes back up to the end
/// of a line is handed back as it is; then the next query is waited for.
pub proof fn socket_answers_query(query: Seq<char>, response: Seq<Seq<char>>, text: Seq<char>)
    requires
        up_to_line_end(response),
    ensures
        ({
            let w = SocketWatchView::Waiting;
            let asked = seq![SocketReplyView::Query(query)];
            let read = asked.push(SocketReplyView::Done) + response.map_values(
                |p: Seq<char>| SocketReplyView::Piece(p),
            );
            &&& socket_run(w, asked) matches Some(writing)
            &&& socket_ask(writing) == SocketAskView::Write(query)
            &&& socket_run(w, read) matches Some(responding)
            &&& socket_ask(responding) == SocketAskView::Respond(joined_texts(response))
            &&& socket_run(w, read.push(SocketReplyView::Done)) == Some(w)
        }),
        socket_ask(SocketWatchView::Answering(text)) == SocketAskView::Read,
{
    assert(finished(EndView::Line, response));
    query_is_answered(query, response);
    assert(as_socket_replies(response) == response.map_values(
        |p: Seq<char>| SocketReplyView::Piece(p),
    ));
}

/// The task that hands commands on reads what the debugger writes up to its
/// first prompt, and no more; it is done when there will be no more commands.
pub proof fn watcher_begins(text: Seq<char>, piece: Seq<char>)
    ensures
        watcher_ask(WatcherView::Starting(text)) == WatcherAskView::Read,
        watcher_ask(WatcherView::Waiting) == WatcherAskView::NextCommand,
        watcher_next(WatcherView::Starting(text), WatcherReplyView::Piece(piece)) == Some(
            if occurs(text + piece, "(gdb)"@) {
                WatcherView::Waiting
            } else {
                WatcherView::Starting(text + piece)
            },
        ),
        watcher_next(WatcherView::Waiting, WatcherReplyView::Closed) is None,
{
}

/// What is asked and replied is what its view says.
pub proof fn asks_and_replies(s: String)
    ensures
        Ask::Send(s)@ == AskView::Send(s@),
        Ask::Read@ == AskView::Read,
        Reply::Sent@ == ReplyView::Sent,
        Reply::NotSent@ == ReplyView::NotSent,
        Reply::Piece(s)@ == ReplyView::Piece(s@),
        SocketAsk::AwaitReadable@ == SocketAskView::AwaitReadable,
        SocketAsk::Read@ == SocketAskView::Read,
        SocketAsk::NextQuery@ == SocketAskView::NextQuery,
        SocketAsk::Write(s)@ == SocketAskView::Write(s@),
        SocketAsk::Respond(s)@ == SocketAskView::Respond(s@),
        SocketReply::Done@ == SocketReplyView::Done,
        SocketReply::Piece(s)@ == SocketReplyView::Piece(s@),
        SocketReply::Query(s)@ == SocketReplyView::Query(s@),
        SocketReply::Closed@ == SocketReplyView::Closed,
        WatcherAsk::Read@ == WatcherAskView::Read,
        WatcherAsk::NextCommand@ == WatcherAskView::NextCommand,
        WatcherAsk::Kill@ == WatcherAskView::Kill,
        WatcherAsk::Write(s)@ == WatcherAskView::Write(s@),
        WatcherReply::Done@ == WatcherReplyView::Done,
        WatcherReply::Piece(s)@ == WatcherReplyView::Piece(s@),
        WatcherReply::Command(s)@ == WatcherReplyView::Command(s@),
        WatcherReply::Closed@ == WatcherReplyView::Closed,
        Progress::<Vec<u8>, String>::Done(Ok(s))@ == Next::<Seq<u8>, Seq<char>>::Done(Ok(s@)),
        Progress::<Vec<u8>, String>::Done(Err(s))@ == Next::<Seq<u8>, Seq<char>>::Done(Err(s@)),
{
}

} // verus!
