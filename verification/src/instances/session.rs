//! A session: the virtual machine and the debugger are started, and the
//! registered tests are run.
use crate::instances::debugger::{continuation_start, stop, Debugger, DebuggerView};
use crate::instances::dialog::{
    answers, continuation_ask, continuation_next, continuation_run, Ask, AskView, Continuation,
    ContinuationView, ExchangeView, Next, Progress, Reply, ReplyView,
};
use crate::instances::recap::Recap;
use crate::instances::run::{
    fresh, notes_all, passed_at_gateway, recaps_successes, run_after, run_next, stop_view,
    successes, Plan, Standing, TestRun, TestRunView, Verdict,
};
use crate::instances::startup::{
    all_answer, on_track, startup_answers, startup_ask, startup_commands, startup_effect,
    startup_in_order, startup_next, startup_run, startup_sent_now, startup_step, with_both,
    Startup, StartupAsk, StartupAskView, StartupReply, StartupReplyView, StartupView,
};
use vstd::prelude::*;

verus! {

/// What a session needs done before it can go on.
pub enum SessionAsk {
    /// Go on starting.
    Start(StartupAsk),
    /// Talk with the debugger, which lets the program go on.
    Talk(Ask),
}

/// What a session needs done before it can go on.
pub enum SessionAskView {
    Start(StartupAskView),
    Talk(AskView),
}

impl View for SessionAsk {
    type V = SessionAskView;

    open spec fn view(&self) -> SessionAskView {
        match self {
            SessionAsk::Start(ask) => SessionAskView::Start(ask@),
            SessionAsk::Talk(ask) => SessionAskView::Talk(ask@),
        }
    }
}

/// What came of it.
pub enum SessionReply {
    Start(StartupReply),
    Talk(Reply),
}

/// What came of it.
pub enum SessionReplyView {
    Start(StartupReplyView),
    Talk(ReplyView),
}

impl View for SessionReply {
    type V = SessionReplyView;

    open spec fn view(&self) -> SessionReplyView {
        match self {
            SessionReply::Start(reply) => SessionReplyView::Start(reply@),
            SessionReply::Talk(reply) => SessionReplyView::Talk(reply@),
        }
    }
}

/// How far a session is.
pub enum StageView {
    /// The virtual machine and the debugger are started.
    Starting(StartupView),
    /// The program goes on, up to its next stop.
    Continuing(ContinuationView),
}

/// A session.
pub struct SessionView {
    pub stage: StageView,
    pub run: TestRunView,
    pub plan: Plan,
}

/// Where a session stands after a reply.
pub enum CourseView {
    More(SessionView),
    Over(Verdict),
    /// The program was stopped, but this message of the debugger does not say at
    /// which breakpoint.
    Lost(Seq<char>),
}

/// What a session needs done.
pub open spec fn session_ask(d: DebuggerView, s: SessionView) -> SessionAskView {
    match s.stage {
        StageView::Starting(startup) => SessionAskView::Start(startup_ask(d, startup)),
        StageView::Continuing(c) => SessionAskView::Talk(continuation_ask(c)),
    }
}

/// `reply` is one to what was asked.
pub open spec fn session_answers(ask: SessionAskView, reply: SessionReplyView) -> bool {
    match (ask, reply) {
        (SessionAskView::Start(ask), SessionReplyView::Start(reply)) => startup_answers(ask, reply),
        (SessionAskView::Talk(ask), SessionReplyView::Talk(reply)) => answers(ask, reply),
        _ => false,
    }
}

/// The program is let go on, for which the debugger has to be attached.
pub open spec fn go_on(d: DebuggerView, plan: Plan, run: TestRunView) -> CourseView {
    match continuation_start(d.attached) {
        Next::More(c) => CourseView::More(
            SessionView { stage: StageView::Continuing(c), run, plan },
        ),
        Next::Done(Err(e)) => CourseView::Over(Verdict::Broken(e)),
        Next::Done(Ok(message)) => CourseView::Lost(message),
    }
}

/// A session after the program stopped, or could not go on.
pub open spec fn after_stop(
    d: DebuggerView,
    plan: Plan,
    run: TestRunView,
    stop: Result<Seq<char>, Seq<char>>,
) -> CourseView {
    match run_next(plan, run, stop) {
        Standing::More(next) => go_on(d, plan, next),
        Standing::Over(verdict) => CourseView::Over(verdict),
    }
}

/// A session after a reply. Where the startup fails, its error ends the session,
/// and no test is run.
pub open spec fn session_next(d: DebuggerView, s: SessionView, reply: SessionReplyView) -> CourseView {
    match s.stage {
        StageView::Starting(startup) => match startup_next(d, startup, reply->Start_0) {
            Next::More(t) => CourseView::More(SessionView { stage: StageView::Starting(t), ..s }),
            Next::Done(Err(e)) => CourseView::Over(Verdict::Broken(e)),
            Next::Done(Ok(_)) => go_on(
                startup_effect(d, startup, reply->Start_0),
                s.plan,
                s.run,
            ),
        },
        StageView::Continuing(c) => match continuation_next(c, reply->Talk_0) {
            Next::More(t) => CourseView::More(SessionView { stage: StageView::Continuing(t), ..s }),
            Next::Done(Err(e)) => after_stop(d, s.plan, s.run, Err(e)),
            Next::Done(Ok(message)) => match stop(d.breakpoints, message) {
                Some(at) => after_stop(d, s.plan, s.run, at),
                None => CourseView::Lost(message),
            },
        },
    }
}

/// The debugger after a reply.
pub open spec fn session_effect(
    d: DebuggerView,
    s: SessionView,
    reply: SessionReplyView,
) -> DebuggerView {
    match s.stage {
        StageView::Starting(startup) => startup_effect(d, startup, reply->Start_0),
        StageView::Continuing(_) => d,
    }
}

enum Stage {
    Starting(Startup),
    Continuing(Continuation),
}

/// A session.
pub struct Session {
    stage: Stage,
    run: TestRun,
}

impl View for Session {
    type V = SessionView;

    closed spec fn view(&self) -> SessionView {
        SessionView {
            stage: match self.stage {
                Stage::Starting(startup) => StageView::Starting(startup@),
                Stage::Continuing(c) => StageView::Continuing(c@),
            },
            run: self.run@,
            plan: self.run.plan(),
        }
    }
}

/// Where a session stands after a reply.
pub enum Course {
    More(Session),
    /// The outcome of the tests, or the error that kept them from being run.
    Over(Result<Result<Recap, Recap>, String>),
    /// The program was stopped, but this message of the debugger does not say at
    /// which breakpoint.
    Lost(String),
}

impl View for Course {
    type V = CourseView;

    open spec fn view(&self) -> CourseView {
        match self {
            Course::More(session) => CourseView::More(session@),
            Course::Over(Ok(Ok(recap))) => CourseView::Over(Verdict::Passed(recap@)),
            Course::Over(Ok(Err(recap))) => CourseView::Over(Verdict::Failed(recap@)),
            Course::Over(Err(e)) => CourseView::Over(Verdict::Broken(e@)),
            Course::Lost(message) => CourseView::Lost(message@),
        }
    }
}

impl Session {
    /// A session of which nothing was done yet.
    pub fn new(startup: Startup, run: TestRun) -> (r: Self)
        ensures
            r@ == (SessionView {
                stage: StageView::Starting(startup@),
                run: run@,
                plan: run.plan(),
            }),
    {
        Session { stage: Stage::Starting(startup), run }
    }

    /// What is to be done next.
    pub fn ask(&self, debugger: &Debugger) -> (r: SessionAsk)
        requires
            self@.stage == StageView::Starting(StartupView::StartingVm) ==> debugger@.vm is Some,
        ensures
            r@ == session_ask(debugger@, self@),
    {
        match &self.stage {
            Stage::Starting(startup) => SessionAsk::Start(startup.ask(debugger)),
            Stage::Continuing(c) => SessionAsk::Talk(c.ask()),
        }
    }

    /// The test that is running; empty where none is.
    pub fn running(&self) -> (r: &str)
        ensures
            r@ == self@.run.last,
    {
        self.run.running()
    }

    /// Lets the program go on.
    fn continued(debugger: &Debugger, run: TestRun) -> (r: Course)
        ensures
            r@ == go_on(debugger@, run.plan(), run@),
    {
        match debugger.continue_until() {
            Progress::More(c) => Course::More(Session { stage: Stage::Continuing(c), run }),
            Progress::Done(Err(e)) => Course::Over(Err(e)),
            Progress::Done(Ok(message)) => Course::Lost(message),
        }
    }

    /// Goes on with where the program stopped, or why it could not go on.
    fn stopped(debugger: &Debugger, run: TestRun, stop: Result<String, String>) -> (r: Course)
        ensures
            r@ == after_stop(debugger@, run.plan(), run@, stop_view(stop)),
    {
        match run.take(stop) {
            Progress::More(next) => Session::continued(debugger, next),
            Progress::Done(outcome) => Course::Over(outcome),
        }
    }

    /// Goes on with what came of it.
    pub fn take(self, debugger: &mut Debugger, reply: SessionReply) -> (r: Course)
        requires
            session_answers(session_ask(old(debugger)@, self@), reply@),
        ensures
            r@ == session_next(old(debugger)@, self@, reply@),
            final(debugger)@ == session_effect(old(debugger)@, self@, reply@),
    {
        let Session { stage, run } = self;
        match (stage, reply) {
            (Stage::Starting(startup), SessionReply::Start(reply)) => match startup.take(
                debugger,
                reply,
            ) {
                Progress::More(next) => Course::More(Session { stage: Stage::Starting(next), run }),
                Progress::Done(Err(e)) => Course::Over(Err(e)),
                Progress::Done(Ok(_)) => Session::continued(debugger, run),
            },
            (Stage::Continuing(c), SessionReply::Talk(reply)) => match c.take(reply) {
                Progress::More(next) => Course::More(
                    Session { stage: Stage::Continuing(next), run },
                ),
                Progress::Done(Err(e)) => Session::stopped(debugger, run, Err(e)),
                Progress::Done(Ok(message)) => match debugger.stopped_at(message.as_str()) {
                    Some(at) => Session::stopped(debugger, run, at),
                    None => Course::Lost(message),
                },
            },
            (stage, _) => Course::More(Session { stage, run }),
        }
    }
}

/// A session, and the debugger, after some replies.
pub open spec fn session_run(d: DebuggerView, s: SessionView, replies: Seq<SessionReplyView>) -> (
    DebuggerView,
    CourseView,
)
    decreases replies.len(),
{
    if replies.len() == 0 {
        (d, CourseView::More(s))
    } else {
        let (e, now) = session_run(d, s, replies.drop_last());
        match now {
            CourseView::More(t) => (
                session_effect(e, t, replies.last()),
                session_next(e, t, replies.last()),
            ),
            _ => (e, now),
        }
    }
}

/// Each of the replies is one to what was asked.
pub open spec fn session_answered(
    d: DebuggerView,
    s: SessionView,
    replies: Seq<SessionReplyView>,
) -> bool
    decreases replies.len(),
{
    replies.len() > 0 ==> {
        let (e, now) = session_run(d, s, replies.drop_last());
        &&& session_answered(d, s, replies.drop_last())
        &&& now matches CourseView::More(t) ==> session_answers(session_ask(e, t), replies.last())
    }
}

/// The command that is sent when a session gets a reply.
pub open spec fn session_sent_now(s: SessionView, reply: SessionReplyView) -> Seq<Seq<char>> {
    match (s.stage, reply) {
        (StageView::Starting(startup), SessionReplyView::Start(reply)) => startup_sent_now(
            startup,
            reply,
        ),
        (
            StageView::Continuing(ContinuationView::Continuing(ExchangeView::Sending(command))),
            SessionReplyView::Talk(ReplyView::Sent),
        ) => seq![command],
        _ => Seq::empty(),
    }
}

/// The commands that a session sent to the debugger, in order.
pub open spec fn session_sent(
    d: DebuggerView,
    s: SessionView,
    replies: Seq<SessionReplyView>,
) -> Seq<Seq<char>>
    decreases replies.len(),
{
    if replies.len() == 0 {
        Seq::empty()
    } else {
        let before = session_sent(d, s, replies.drop_last());
        match session_run(d, s, replies.drop_last()).1 {
            CourseView::More(t) => before + session_sent_now(t, replies.last()),
            _ => before,
        }
    }
}

/// The program was let go on so many times.
pub open spec fn continues(times: nat) -> Seq<Seq<char>> {
    Seq::new(times, |i: int| "c"@)
}

/// All that a session sends before the program is first let go on, and so many
/// commands to let it go on.
pub open spec fn sent_and_continued(d: DebuggerView, sent: Seq<Seq<char>>, times: nat) -> bool {
    sent == startup_commands(d) + continues(times)
}

/// The first commands and the breakpoints were all sent, and then nothing but
/// the command to go on.
pub open spec fn all_sent(d: DebuggerView, sent: Seq<Seq<char>>) -> bool {
    exists|times: nat| sent_and_continued(d, sent, times)
}

/// A command that a continuation is to send is the one to go on.
pub open spec fn sends_continue(c: ContinuationView) -> bool {
    c matches ContinuationView::Continuing(ExchangeView::Sending(command)) ==> command == "c"@
}

/// Where a session of `d` stands when it sent `sent` and the debugger is `e`.
pub open spec fn session_on_track(
    d: DebuggerView,
    e: DebuggerView,
    now: CourseView,
    sent: Seq<Seq<char>>,
) -> bool {
    match now {
        CourseView::More(s) => {
            &&& recaps_successes(s.run)
            &&& match s.stage {
                StageView::Starting(startup) => {
                    &&& on_track(d, e, Next::More(startup), sent)
                    &&& sent.is_prefix_of(startup_commands(d))
                },
                StageView::Continuing(c) => {
                    &&& e == with_both(d)
                    &&& sends_continue(c)
                    &&& all_sent(d, sent)
                },
            }
        },
        CourseView::Over(Verdict::Passed(_)) => all_sent(d, sent),
        CourseView::Over(Verdict::Failed(_)) => all_sent(d, sent),
        CourseView::Over(Verdict::Broken(_)) => sent.is_prefix_of(startup_commands(d)) || all_sent(
            d,
            sent,
        ),
        CourseView::Lost(_) => all_sent(d, sent),
    }
}

/// One more command to go on.
proof fn one_more_continue(d: DebuggerView, sent: Seq<Seq<char>>)
    requires
        all_sent(d, sent),
    ensures
        all_sent(d, sent.push("c"@)),
{
    let times = choose|times: nat| sent_and_continued(d, sent, times);
    assert(continues(times + 1) == continues(times).push("c"@));
    assert(sent_and_continued(d, sent.push("c"@), times + 1));
}

/// Nothing else is sent before a startup is done than what it sends in all.
proof fn startup_sends_no_more(
    d: DebuggerView,
    e: DebuggerView,
    startup: StartupView,
    sent: Seq<Seq<char>>,
)
    requires
        on_track(d, e, Next::More(startup), sent),
    ensures
        sent.is_prefix_of(startup_commands(d)),
{
}

/// One step of a session.
pub(crate) proof fn session_step(
    d: DebuggerView,
    e: DebuggerView,
    s: SessionView,
    reply: SessionReplyView,
    sent: Seq<Seq<char>>,
)
    requires
        d.vm is Some,
        session_on_track(d, e, CourseView::More(s), sent),
        session_answers(session_ask(e, s), reply),
    ensures
        session_on_track(
            d,
            session_effect(e, s, reply),
            session_next(e, s, reply),
            sent + session_sent_now(s, reply),
        ),
        session_next(e, s, reply) matches CourseView::Over(Verdict::Passed(recap)) ==> notes_all(
            s.plan,
            recap,
        ),
        session_next(e, s, reply) matches CourseView::More(t) ==> t.plan == s.plan,
{
    let all = sent + session_sent_now(s, reply);
    match s.stage {
        StageView::Starting(startup) => {
            let answer = reply->Start_0;
            startup_step(d, e, startup, answer, sent);
            match startup_next(e, startup, answer) {
                Next::More(t) => {
                    startup_sends_no_more(d, startup_effect(e, startup, answer), t, all);
                },
                Next::Done(Ok(_)) => {
                    assert(continues(0) == Seq::<Seq<char>>::empty());
                    assert(sent_and_continued(d, all, 0));
                },
                Next::Done(Err(_)) => {},
            }
        },
        StageView::Continuing(c) => {
            if session_sent_now(s, reply).len() == 0 {
                assert(all == sent);
            } else {
                assert(all == sent.push("c"@));
                one_more_continue(d, sent);
            }
            match continuation_next(c, reply->Talk_0) {
                Next::More(t) => {},
                Next::Done(Err(e)) => {},
                Next::Done(Ok(message)) => {
                    if let Some(at) = stop(e.breakpoints, message) {
                        passed_at_gateway(s.plan, s.run, at);
                    }
                },
            }
        },
    }
}

/// A session at its beginning.
pub open spec fn begun(plan: Plan) -> SessionView {
    SessionView { stage: StageView::Starting(StartupView::StartingVm), run: fresh(), plan }
}

/// The program is let go on only after the first commands were run, in order,
/// and then the breakpoints were set, in order: before it is, nothing else is
/// sent to the debugger, and then nothing but the command to go on.
pub proof fn continue_comes_last(d: DebuggerView, plan: Plan, replies: Seq<SessionReplyView>)
    requires
        d.vm is Some,
        session_answered(d, begun(plan), replies),
    ensures
        session_on_track(
            d,
            session_run(d, begun(plan), replies).0,
            session_run(d, begun(plan), replies).1,
            session_sent(d, begun(plan), replies),
        ),
        session_sent(d, begun(plan), replies).contains("c"@) && !startup_commands(d).contains(
            "c"@,
        ) ==> all_sent(d, session_sent(d, begun(plan), replies)),
    decreases replies.len(),
{
    let s = begun(plan);
    let sent = session_sent(d, s, replies);
    if replies.len() == 0 {
        assert(s.run.recap.entries == successes(s.run.successful));
    } else {
        continue_comes_last(d, plan, replies.drop_last());
        let (e, now) = session_run(d, s, replies.drop_last());
        if let CourseView::More(t) = now {
            session_step(d, e, t, replies.last(), session_sent(d, s, replies.drop_last()));
        }
    }
    if sent.contains("c"@) && sent.is_prefix_of(startup_commands(d)) {
        let k = choose|k: int| 0 <= k < sent.len() && sent[k] == "c"@;
        assert(startup_commands(d)[k] == "c"@);
    }
}

/// A session is passed only if every registered test was successful, and its
/// recap notes the success of each of them.
pub proof fn passed_session(d: DebuggerView, plan: Plan, replies: Seq<SessionReplyView>)
    requires
        d.vm is Some,
        session_answered(d, begun(plan), replies),
    ensures
        session_run(d, begun(plan), replies).1 matches CourseView::More(s) ==> s.plan == plan,
        session_run(d, begun(plan), replies).1 matches CourseView::Over(Verdict::Passed(recap))
            ==> notes_all(plan, recap),
    decreases replies.len(),
{
    let s = begun(plan);
    if replies.len() > 0 {
        passed_session(d, plan, replies.drop_last());
        continue_comes_last(d, plan, replies.drop_last());
        let (e, now) = session_run(d, s, replies.drop_last());
        if let CourseView::More(t) = now {
            session_step(d, e, t, replies.last(), session_sent(d, s, replies.drop_last()));
        }
    }
}

/// A startup that fails ends the session with its error; no test is run.
pub proof fn failed_startup_is_error(
    d: DebuggerView,
    s: SessionView,
    startup: StartupView,
    reply: StartupReplyView,
)
    requires
        s.stage == StageView::Starting(startup),
        startup_next(d, startup, reply) matches Next::Done(Err(_)),
    ensures
        session_next(d, s, SessionReplyView::Start(reply)) == CourseView::Over(
            Verdict::Broken(startup_next(d, startup, reply)->Done_0->Err_0),
        ),
{
}

/// A session goes on from where it stands after its first replies.
proof fn session_runs_on(
    d: DebuggerView,
    s: SessionView,
    e: DebuggerView,
    t: SessionView,
    first: Seq<SessionReplyView>,
    then: Seq<SessionReplyView>,
)
    requires
        session_run(d, s, first) == (e, CourseView::More(t)),
    ensures
        session_run(d, s, first + then) == session_run(e, t, then),
    decreases then.len(),
{
    if then.len() == 0 {
        assert(first + then == first);
    } else {
        assert((first + then).drop_last() == first + then.drop_last());
        session_runs_on(d, s, e, t, first, then.drop_last());
    }
}

/// Replies to what a startup asks.
pub open spec fn start_replies(replies: Seq<StartupReplyView>) -> Seq<SessionReplyView> {
    replies.map_values(|reply: StartupReplyView| SessionReplyView::Start(reply))
}

/// Replies while the program is let go on.
pub open spec fn talk_replies(replies: Seq<ReplyView>) -> Seq<SessionReplyView> {
    replies.map_values(|reply: ReplyView| SessionReplyView::Talk(reply))
}

/// While it is starting, a session stands where the startup does.
proof fn session_starts(
    d: DebuggerView,
    s: SessionView,
    startup: StartupView,
    replies: Seq<StartupReplyView>,
)
    requires
        s.stage == StageView::Starting(startup),
        startup_run(d, startup, replies).1 is More,
    ensures
        session_run(d, s, start_replies(replies)) == (
            startup_run(d, startup, replies).0,
            CourseView::More(
                SessionView {
                    stage: StageView::Starting(startup_run(d, startup, replies).1->More_0),
                    ..s
                },
            ),
        ),
    decreases replies.len(),
{
    if replies.len() > 0 {
        session_starts(d, s, startup, replies.drop_last());
        assert(start_replies(replies).drop_last() == start_replies(replies.drop_last()));
    }
}

/// While the program is let go on, a session stands where the continuation does.
proof fn session_continues(
    d: DebuggerView,
    s: SessionView,
    c: ContinuationView,
    replies: Seq<ReplyView>,
)
    requires
        s.stage == StageView::Continuing(c),
        continuation_run(c, replies) is More,
    ensures
        session_run(d, s, talk_replies(replies)) == (
            d,
            CourseView::More(
                SessionView {
                    stage: StageView::Continuing(continuation_run(c, replies)->More_0),
                    ..s
                },
            ),
        ),
    decreases replies.len(),
{
    if replies.len() > 0 {
        session_continues(d, s, c, replies.drop_last());
        assert(talk_replies(replies).drop_last() == talk_replies(replies.drop_last()));
    }
}

/// The replies `starts` are those of a startup of `d` that ends well with the
/// last of them.
pub open spec fn starts_well(d: DebuggerView, starts: Seq<StartupReplyView>) -> bool {
    &&& starts.len() > 0
    &&& all_answer(d, StartupView::StartingVm, starts)
    &&& startup_run(d, StartupView::StartingVm, starts.drop_last()).1 is More
    &&& startup_run(d, StartupView::StartingVm, starts).1 == Next::<StartupView, ()>::Done(Ok(()))
}

/// The program, just let go on.
pub open spec fn let_go() -> ContinuationView {
    ContinuationView::Continuing(ExchangeView::Sending("c"@))
}

/// With the last of `replies`, the program that was let go on is stopped at one
/// of `breakpoints`, or cannot go on.
pub open spec fn ends_at(
    breakpoints: Seq<Seq<char>>,
    replies: Seq<ReplyView>,
    at: Result<Seq<char>, Seq<char>>,
) -> bool {
    &&& replies.len() > 0
    &&& continuation_run(let_go(), replies.drop_last()) is More
    &&& match continuation_run(let_go(), replies) {
        Next::More(_) => false,
        Next::Done(Ok(message)) => stop(breakpoints, message) == Some(at),
        Next::Done(Err(e)) => at == Err::<Seq<char>, Seq<char>>(e),
    }
}

/// The replies of a session: those of its startup, then those of each time that
/// the program is let go on.
pub open spec fn session_replies(
    starts: Seq<StartupReplyView>,
    rounds: Seq<Seq<ReplyView>>,
) -> Seq<SessionReplyView>
    decreases rounds.len(),
{
    if rounds.len() == 0 {
        start_replies(starts)
    } else {
        session_replies(starts, rounds.drop_last()) + talk_replies(rounds.last())
    }
}

/// A session whose startup ended well, where the run of its tests stands.
pub open spec fn course_of(plan: Plan, now: Standing) -> CourseView {
    match now {
        Standing::More(run) => CourseView::More(
            SessionView { stage: StageView::Continuing(let_go()), run, plan },
        ),
        Standing::Over(verdict) => CourseView::Over(verdict),
    }
}

/// Where the startup ends well and the program, each time that it is let go on,
/// ends at one of `stops` after the other, a session stands where a run of the
/// tests does that was stopped there: it is over with the verdict of that run,
/// or the program is let go on once more.
pub proof fn session_follows_run(
    d: DebuggerView,
    plan: Plan,
    starts: Seq<StartupReplyView>,
    rounds: Seq<Seq<ReplyView>>,
    stops: Seq<Result<Seq<char>, Seq<char>>>,
)
    requires
        d.vm is Some,
        starts_well(d, starts),
        rounds.len() == stops.len(),
        forall|i: int|
            0 <= i < rounds.len() ==> ends_at(d.breakpoints, #[trigger] rounds[i], stops[i]),
        stops.len() > 0 ==> run_after(plan, stops.drop_last()) is More,
    ensures
        session_run(d, begun(plan), session_replies(starts, rounds)) == (
            with_both(d),
            course_of(plan, run_after(plan, stops)),
        ),
    decreases rounds.len(),
{
    let s = begun(plan);
    if rounds.len() == 0 {
        let before = starts.drop_last();
        session_starts(d, s, StartupView::StartingVm, before);
        assert(start_replies(starts).drop_last() == start_replies(before));
        startup_in_order(d, starts);
    } else {
        let front = rounds.drop_last();
        let earlier = stops.drop_last();
        assert forall|i: int| 0 <= i < front.len() implies ends_at(
            d.breakpoints,
            #[trigger] front[i],
            earlier[i],
        ) by {
            assert(ends_at(d.breakpoints, rounds[i], stops[i]));
        }
        session_follows_run(d, plan, starts, front, earlier);
        let e = with_both(d);
        let t = course_of(plan, run_after(plan, earlier))->More_0;
        let round = rounds.last();
        assert(ends_at(d.breakpoints, rounds[rounds.len() - 1], stops[stops.len() - 1]));
        let first = session_replies(starts, front);
        session_runs_on(d, s, e, t, first, talk_replies(round));
        session_continues(e, t, let_go(), round.drop_last());
        assert(talk_replies(round).drop_last() == talk_replies(round.drop_last()));
    }
}

} // verus!
