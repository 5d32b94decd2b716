//! Laws of what a session asks for, in order.
use crate::instances::debugger::{stop, DebuggerView};
use crate::instances::dialog::{
    continuation_next, script_next, sent_count, Ask, AskView, ContinuationView, Next, Reply,
    ReplyView, ScriptView,
};
use crate::instances::launch::{Connection, Launch, LaunchView};
use crate::instances::run::{Plan, Verdict};
use crate::instances::session::{
    begun, continue_comes_last, session_answered, session_answers, session_ask, session_next,
    session_on_track, session_run, session_sent, session_step, CourseView, SessionAsk,
    SessionAskView, SessionReply, SessionReplyView, SessionView, StageView,
};
use crate::instances::startup::{
    all_answer, on_track, startup_answers, startup_ask, startup_in_order, startup_next,
    startup_run, startup_sent, startup_step, StartupAsk, StartupAskView, StartupReply,
    StartupReplyView, StartupView,
};
use crate::text::views;
use vstd::prelude::*;

verus! {

/// All that a startup has done, in order: the virtual machine is started, with a
/// QMP socket and a log of its interrupts; the debugger is started, with its
/// machine interface; commands are handed to it; after a while the first
/// commands are sent as they were given, and then one to set each breakpoint.
pub open spec fn planned(d: DebuggerView) -> Seq<StartupAskView> {
    seq![
        StartupAskView::StartVm(
            LaunchView {
                program: d.vm->0.binary,
                args: seq![
                    "-qmp"@,
                    "unix:external-tests.sock,server,nowait"@,
                    "-d"@,
                    "int"@,
                    "-D"@,
                    "log"@,
                ] + d.vm->0.args,
                kill_on_drop: true,
                stdin: Connection::Inherited,
                stdout: Connection::Piped,
                stderr: Connection::Null,
            },
        ),
        StartupAskView::StartDebugger(
            LaunchView {
                program: d.binary,
                args: seq!["-interpreter"@, "mi"@] + d.args,
                kill_on_drop: true,
                stdin: Connection::Piped,
                stdout: Connection::Piped,
                stderr: Connection::Inherited,
            },
        ),
        StartupAskView::Watch,
        StartupAskView::Wait(200),
    ] + d.init.map_values(
        |command: Seq<char>| StartupAskView::RunCommand(AskView::Send(command)),
    ) + d.breakpoints.map_values(
        |name: Seq<char>| StartupAskView::SetBreakpoint(AskView::Send("b "@ + name)),
    )
}

/// The ask is one to read on.
pub open spec fn reads_on(ask: StartupAskView) -> bool {
    ask == StartupAskView::RunCommand(AskView::Read) || ask == StartupAskView::SetBreakpoint(
        AskView::Read,
    )
}

/// What a startup asked for, but for reading on, while it got `replies`.
pub open spec fn startup_steps(
    d: DebuggerView,
    s: StartupView,
    replies: Seq<StartupReplyView>,
) -> Seq<StartupAskView>
    decreases replies.len(),
{
    if replies.len() == 0 {
        Seq::empty()
    } else {
        let before = startup_steps(d, s, replies.drop_last());
        match startup_run(d, s, replies.drop_last()) {
            (e, Next::More(t)) => if reads_on(startup_ask(e, t)) {
                before
            } else {
                before.push(startup_ask(e, t))
            },
            _ => before,
        }
    }
}

/// How many of the planned steps were taken.
spec fn taken(d: DebuggerView, s: StartupView) -> int {
    match s {
        StartupView::StartingVm => 0,
        StartupView::StartingDebugger => 1,
        StartupView::Watching => 2,
        StartupView::Waiting => 3,
        StartupView::Commands(script) => 4 + sent_count(script),
        StartupView::Breakpoints(script) => 4 + d.init.len() + sent_count(script),
    }
}

/// The steps that were taken are the first of those that are planned.
spec fn as_planned(d: DebuggerView, now: Next<StartupView, ()>, steps: Seq<StartupAskView>) -> bool {
    match now {
        Next::More(s) => steps == planned(d).take(taken(d, s)),
        Next::Done(Ok(_)) => steps == planned(d),
        Next::Done(Err(_)) => steps.is_prefix_of(planned(d)),
    }
}

/// The steps after one more ask.
spec fn one_more(steps: Seq<StartupAskView>, ask: StartupAskView) -> Seq<StartupAskView> {
    if reads_on(ask) {
        steps
    } else {
        steps.push(ask)
    }
}

/// One step of a startup.
proof fn planned_step(
    d: DebuggerView,
    e: DebuggerView,
    t: StartupView,
    reply: StartupReplyView,
    sent: Seq<Seq<char>>,
    steps: Seq<StartupAskView>,
)
    requires
        d.vm is Some,
        on_track(d, e, Next::More(t), sent),
        startup_answers(startup_ask(e, t), reply),
        as_planned(d, Next::More(t), steps),
    ensures
        as_planned(d, startup_next(e, t, reply), one_more(steps, startup_ask(e, t))),
        one_more(steps, startup_ask(e, t)).is_prefix_of(planned(d)),
{
    startup_step(d, e, t, reply, sent);
    let all = planned(d);
    let ask = startup_ask(e, t);
    let n = taken(d, t);
    let now = one_more(steps, ask);
    if !reads_on(ask) {
        assert(n < all.len());
        match t {
            StartupView::Commands(s) => {
                assert(all[n] == StartupAskView::RunCommand(AskView::Send(d.init[s.at])));
            },
            StartupView::Breakpoints(s) => {
                assert(all[n] == StartupAskView::SetBreakpoint(
                    AskView::Send("b "@ + d.breakpoints[s.at]),
                ));
            },
            _ => {},
        }
        assert(all[n] == ask);
        assert(now == all.take(n + 1));
    } else {
        assert(now == all.take(n));
    }
    match startup_next(e, t, reply) {
        Next::More(u) => {
            assert(now == all.take(taken(d, u)));
        },
        Next::Done(Ok(_)) => {
            assert(now == all);
        },
        Next::Done(Err(_)) => {},
    }
}

/// A startup asks for what is planned, in order, and for nothing else but to
/// read on: for all of it where it ends well.
pub proof fn startup_asks_in_order(d: DebuggerView, replies: Seq<StartupReplyView>)
    requires
        d.vm is Some,
        all_answer(d, StartupView::StartingVm, replies),
    ensures
        startup_steps(d, StartupView::StartingVm, replies).is_prefix_of(planned(d)),
        startup_run(d, StartupView::StartingVm, replies).1 == Next::<StartupView, ()>::Done(Ok(()))
            ==> startup_steps(d, StartupView::StartingVm, replies) == planned(d),
{
    startup_is_planned(d, replies);
}

/// A startup stands where its steps say.
proof fn startup_is_planned(d: DebuggerView, replies: Seq<StartupReplyView>)
    requires
        d.vm is Some,
        all_answer(d, StartupView::StartingVm, replies),
    ensures
        as_planned(
            d,
            startup_run(d, StartupView::StartingVm, replies).1,
            startup_steps(d, StartupView::StartingVm, replies),
        ),
        startup_steps(d, StartupView::StartingVm, replies).is_prefix_of(planned(d)),
    decreases replies.len(),
{
    let s = StartupView::StartingVm;
    if replies.len() == 0 {
        assert(planned(d).take(0) == Seq::<StartupAskView>::empty());
    } else {
        let front = replies.drop_last();
        startup_is_planned(d, front);
        startup_in_order(d, front);
        let (e, now) = startup_run(d, s, front);
        if let Next::More(t) = now {
            planned_step(
                d,
                e,
                t,
                replies.last(),
                startup_sent(d, s, front),
                startup_steps(d, s, front),
            );
        }
    }
}

/// An error of the first commands, or of the breakpoints, is that of the startup.
pub proof fn startup_hands_errors_on(
    d: DebuggerView,
    script: ScriptView,
    reply: ReplyView,
    e: Seq<char>,
)
    requires
        script_next(script, reply) == Next::<ScriptView, ()>::Done(Err(e)),
    ensures
        startup_next(d, StartupView::Commands(script), StartupReplyView::Talk(reply)) == Next::<
            StartupView,
            (),
        >::Done(Err(e)),
        startup_next(d, StartupView::Breakpoints(script), StartupReplyView::Talk(reply)) == Next::<
            StartupView,
            (),
        >::Done(Err(e)),
{
}

/// A debugger that cannot be started ends a startup.
pub proof fn debugger_not_started(d: DebuggerView)
    ensures
        startup_next(d, StartupView::StartingDebugger, StartupReplyView::NotStarted) == Next::<
            StartupView,
            (),
        >::Done(Err("Cant start debugger"@)),
{
}

/// What a session asked for, but for reading on, while it got `replies`.
pub open spec fn session_steps(
    d: DebuggerView,
    s: SessionView,
    replies: Seq<SessionReplyView>,
) -> Seq<SessionAskView>
    decreases replies.len(),
{
    if replies.len() == 0 {
        Seq::empty()
    } else {
        let before = session_steps(d, s, replies.drop_last());
        match session_run(d, s, replies.drop_last()) {
            (e, CourseView::More(t)) => match session_ask(e, t) {
                SessionAskView::Start(ask) => if reads_on(ask) {
                    before
                } else {
                    before.push(SessionAskView::Start(ask))
                },
                SessionAskView::Talk(AskView::Read) => before,
                SessionAskView::Talk(AskView::Send(command)) => before.push(
                    SessionAskView::Talk(AskView::Send(command)),
                ),
            },
            _ => before,
        }
    }
}

/// Asks of a startup, as a session makes them.
pub open spec fn in_session(asks: Seq<StartupAskView>) -> Seq<SessionAskView> {
    asks.map_values(|ask: StartupAskView| SessionAskView::Start(ask))
}

/// All that is planned for the startup was asked for, and then, so many times,
/// to send the command `c`.
pub open spec fn planned_and_continued(
    d: DebuggerView,
    steps: Seq<SessionAskView>,
    times: nat,
) -> bool {
    steps == in_session(planned(d)) + Seq::new(
        times,
        |i: int| SessionAskView::Talk(AskView::Send("c"@)),
    )
}

/// Where a session stands, its steps say.
spec fn session_as_planned(d: DebuggerView, now: CourseView, steps: Seq<SessionAskView>) -> bool {
    match now {
        CourseView::More(s) => match s.stage {
            StageView::Starting(t) => steps == in_session(planned(d).take(taken(d, t))),
            StageView::Continuing(_) => exists|times: nat| planned_and_continued(d, steps, times),
        },
        CourseView::Over(Verdict::Broken(_)) => steps.is_prefix_of(in_session(planned(d)))
            || exists|times: nat| planned_and_continued(d, steps, times),
        _ => exists|times: nat| planned_and_continued(d, steps, times),
    }
}

/// One step of a session.
proof fn session_planned_step(
    d: DebuggerView,
    e: DebuggerView,
    s: SessionView,
    reply: SessionReplyView,
    sent: Seq<Seq<char>>,
    steps: Seq<SessionAskView>,
    now: Seq<SessionAskView>,
)
    requires
        d.vm is Some,
        session_on_track(d, e, CourseView::More(s), sent),
        session_answers(session_ask(e, s), reply),
        session_as_planned(d, CourseView::More(s), steps),
        now == match session_ask(e, s) {
            SessionAskView::Start(ask) => if reads_on(ask) {
                steps
            } else {
                steps.push(SessionAskView::Start(ask))
            },
            SessionAskView::Talk(AskView::Read) => steps,
            SessionAskView::Talk(AskView::Send(command)) => steps.push(
                SessionAskView::Talk(AskView::Send(command)),
            ),
        },
    ensures
        session_as_planned(d, session_next(e, s, reply), now),
{
    session_step(d, e, s, reply, sent);
    let c = SessionAskView::Talk(AskView::Send("c"@));
    match s.stage {
        StageView::Starting(t) => {
            let own = planned(d).take(taken(d, t));
            let answer = reply->Start_0;
            planned_step(d, e, t, answer, sent, own);
            let after = one_more(own, startup_ask(e, t));
            assert(now == in_session(after));
            match startup_next(e, t, answer) {
                Next::More(_) => {},
                Next::Done(Ok(_)) => {
                    assert(now == in_session(planned(d)) + Seq::new(0, |i: int| c));
                    assert(planned_and_continued(d, now, 0));
                },
                Next::Done(Err(_)) => {
                    assert(now.is_prefix_of(in_session(planned(d))));
                },
            }
        },
        StageView::Continuing(_) => {
            let times = choose|times: nat| planned_and_continued(d, steps, times);
            if now != steps {
                assert(now == steps.push(c));
                let before = Seq::new(times, |i: int| c);
                let after = Seq::new(times + 1, |i: int| c);
                assert(after == before.push(c));
                assert(now == in_session(planned(d)) + after);
                assert(planned_and_continued(d, now, times + 1));
            } else {
                assert(planned_and_continued(d, now, times));
            }
        },
    }
}

/// A session asks for what is planned for its startup, in order, and then for
/// nothing but to send the command `c`, each time that the program is to go on;
/// besides it only asks to read on. Once the program was let go on, and so
/// wherever a test was run, all that is planned was asked for before.
pub proof fn session_asks_in_order(d: DebuggerView, plan: Plan, replies: Seq<SessionReplyView>)
    requires
        d.vm is Some,
        session_answered(d, begun(plan), replies),
    ensures
        ({
            let steps = session_steps(d, begun(plan), replies);
            let continued = exists|times: nat| planned_and_continued(d, steps, times);
            &&& steps.is_prefix_of(in_session(planned(d))) || continued
            &&& match session_run(d, begun(plan), replies).1 {
                CourseView::More(s) => s.stage is Continuing ==> continued,
                CourseView::Over(Verdict::Passed(_)) => continued,
                CourseView::Over(Verdict::Failed(_)) => continued,
                CourseView::Over(Verdict::Broken(_)) => true,
                CourseView::Lost(_) => continued,
            }
        }),
{
    session_is_planned(d, plan, replies);
    let steps = session_steps(d, begun(plan), replies);
    if let CourseView::More(s) = session_run(d, begun(plan), replies).1 {
        if let StageView::Starting(t) = s.stage {
            let n = taken(d, t);
            continue_comes_last(d, plan, replies);
            assert(0 <= n <= planned(d).len());
            assert(in_session(planned(d).take(n)).is_prefix_of(in_session(planned(d))));
        }
    }
}

/// A session stands where its steps say.
proof fn session_is_planned(d: DebuggerView, plan: Plan, replies: Seq<SessionReplyView>)
    requires
        d.vm is Some,
        session_answered(d, begun(plan), replies),
    ensures
        session_as_planned(
            d,
            session_run(d, begun(plan), replies).1,
            session_steps(d, begun(plan), replies),
        ),
    decreases replies.len(),
{
    let s = begun(plan);
    if replies.len() == 0 {
        assert(in_session(planned(d).take(0)) == Seq::<SessionAskView>::empty());
    } else {
        let front = replies.drop_last();
        session_is_planned(d, plan, front);
        continue_comes_last(d, plan, front);
        let (e, now) = session_run(d, s, front);
        if let CourseView::More(t) = now {
            session_planned_step(
                d,
                e,
                t,
                replies.last(),
                session_sent(d, s, front),
                session_steps(d, s, front),
                session_steps(d, s, replies),
            );
        }
    }
}

/// A session whose program is stopped, but not said to be at a breakpoint, is
/// lost, with the message of the debugger.
pub proof fn session_is_lost(
    d: DebuggerView,
    s: SessionView,
    c: ContinuationView,
    reply: ReplyView,
    message: Seq<char>,
)
    requires
        s.stage == StageView::Continuing(c),
        continuation_next(c, reply) == Next::<ContinuationView, Seq<char>>::Done(Ok(message)),
        stop(d.breakpoints, message) is None,
    ensures
        session_next(d, s, SessionReplyView::Talk(reply)) == CourseView::Lost(message),
{
}

/// What is asked and replied is what its view says.
pub proof fn startup_asks_and_replies(
    launch: Launch,
    time: u64,
    ask: Ask,
    reply: Reply,
    of_startup: StartupAsk,
    to_startup: StartupReply,
)
    ensures
        launch@.program == launch.program@,
        launch@.args == views(launch.args@),
        launch@.kill_on_drop == launch.kill_on_drop,
        launch@.stdin == launch.stdin,
        launch@.stdout == launch.stdout,
        launch@.stderr == launch.stderr,
        StartupAsk::StartVm(launch)@ == StartupAskView::StartVm(launch@),
        StartupAsk::StartDebugger(launch)@ == StartupAskView::StartDebugger(launch@),
        StartupAsk::Watch@ == StartupAskView::Watch,
        StartupAsk::Wait(time)@ == StartupAskView::Wait(time),
        StartupAsk::RunCommand(ask)@ == StartupAskView::RunCommand(ask@),
        StartupAsk::SetBreakpoint(ask)@ == StartupAskView::SetBreakpoint(ask@),
        StartupReply::Done@ == StartupReplyView::Done,
        StartupReply::NotStarted@ == StartupReplyView::NotStarted,
        StartupReply::Talk(reply)@ == StartupReplyView::Talk(reply@),
        SessionAsk::Start(of_startup)@ == SessionAskView::Start(of_startup@),
        SessionAsk::Talk(ask)@ == SessionAskView::Talk(ask@),
        SessionReply::Start(to_startup)@ == SessionReplyView::Start(to_startup@),
        SessionReply::Talk(reply)@ == SessionReplyView::Talk(reply@),
{
}

} // verus!
