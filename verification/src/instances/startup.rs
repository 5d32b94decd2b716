//! Starting the virtual machine and the debugger, up to where the tests can be
//! run.
use crate::instances::debugger::{
    breakpoint_number, debugger_launch, script_start, stop, Debugger, DebuggerView,
};
use crate::instances::dialog::{
    answers, exchange_ask, line_command, line_commands, script_next, script_of, script_step,
    sent_count, sent_now, Ask, AskView, Next, Progress, Reply, ReplyView, Script, ScriptView,
};
use crate::instances::launch::{Launch, LaunchView};
use crate::instances::qemu::{qemu_launch, QemuView};
use vstd::prelude::*;

verus! {

/// How long the debugger is given before it gets its first command, in
/// milliseconds.
pub const SETTLING_TIME: u64 = 200;

/// What a startup needs done before it can go on.
pub enum StartupAsk {
    /// Start the virtual machine.
    StartVm(Launch),
    /// Start the debugger.
    StartDebugger(Launch),
    /// Start the task that hands commands to the debugger.
    Watch,
    /// Wait for so many milliseconds.
    Wait(u64),
    /// Talk with the debugger, which runs one of the first commands.
    RunCommand(Ask),
    /// Talk with the debugger, which sets a breakpoint.
    SetBreakpoint(Ask),
}

/// What a startup needs done before it can go on.
pub enum StartupAskView {
    StartVm(LaunchView),
    StartDebugger(LaunchView),
    Watch,
    Wait(u64),
    RunCommand(AskView),
    SetBreakpoint(AskView),
}

impl View for StartupAsk {
    type V = StartupAskView;

    open spec fn view(&self) -> StartupAskView {
        match self {
            StartupAsk::StartVm(launch) => StartupAskView::StartVm(launch@),
            StartupAsk::StartDebugger(launch) => StartupAskView::StartDebugger(launch@),
            StartupAsk::Watch => StartupAskView::Watch,
            StartupAsk::Wait(time) => StartupAskView::Wait(*time),
            StartupAsk::RunCommand(ask) => StartupAskView::RunCommand(ask@),
            StartupAsk::SetBreakpoint(ask) => StartupAskView::SetBreakpoint(ask@),
        }
    }
}

/// What came of it.
pub enum StartupReply {
    /// It was done.
    Done,
    /// The program could not be started.
    NotStarted,
    /// What came of talking.
    Talk(Reply),
}

/// What came of it.
pub enum StartupReplyView {
    Done,
    NotStarted,
    Talk(ReplyView),
}

impl View for StartupReply {
    type V = StartupReplyView;

    open spec fn view(&self) -> StartupReplyView {
        match self {
            StartupReply::Done => StartupReplyView::Done,
            StartupReply::NotStarted => StartupReplyView::NotStarted,
            StartupReply::Talk(reply) => StartupReplyView::Talk(reply@),
        }
    }
}

/// A startup.
pub enum StartupView {
    StartingVm,
    StartingDebugger,
    Watching,
    Waiting,
    /// The first commands are run.
    Commands(ScriptView),
    /// The breakpoints are set.
    Breakpoints(ScriptView),
}

/// What a startup needs done.
pub open spec fn startup_ask(d: DebuggerView, s: StartupView) -> StartupAskView {
    match s {
        StartupView::StartingVm => StartupAskView::StartVm(qemu_launch(d.vm->0)),
        StartupView::StartingDebugger => StartupAskView::StartDebugger(debugger_launch(d)),
        StartupView::Watching => StartupAskView::Watch,
        StartupView::Waiting => StartupAskView::Wait(SETTLING_TIME),
        StartupView::Commands(script) => StartupAskView::RunCommand(exchange_ask(script.exchange)),
        StartupView::Breakpoints(script) => StartupAskView::SetBreakpoint(
            exchange_ask(script.exchange),
        ),
    }
}

/// `reply` is one to what was asked. Nothing goes on where the virtual machine
/// could not be started.
pub open spec fn startup_answers(ask: StartupAskView, reply: StartupReplyView) -> bool {
    match (ask, reply) {
        (StartupAskView::StartVm(_), StartupReplyView::Done) => true,
        (StartupAskView::StartDebugger(_), StartupReplyView::Done) => true,
        (StartupAskView::StartDebugger(_), StartupReplyView::NotStarted) => true,
        (StartupAskView::Watch, StartupReplyView::Done) => true,
        (StartupAskView::Wait(_), StartupReplyView::Done) => true,
        (StartupAskView::RunCommand(ask), StartupReplyView::Talk(reply)) => answers(ask, reply),
        (StartupAskView::SetBreakpoint(ask), StartupReplyView::Talk(reply)) => answers(ask, reply),
        _ => false,
    }
}

/// The breakpoints are set, from the first one on.
pub open spec fn then_breakpoints(d: DebuggerView) -> Next<StartupView, ()> {
    match script_start(d.attached, true, d.breakpoints) {
        Next::More(script) => Next::More(StartupView::Breakpoints(script)),
        Next::Done(r) => Next::Done(r),
    }
}

/// The first commands are run, from the first one on; then the breakpoints are
/// set.
pub open spec fn then_commands(d: DebuggerView) -> Next<StartupView, ()> {
    match script_start(d.attached, false, d.init) {
        Next::More(script) => Next::More(StartupView::Commands(script)),
        Next::Done(Ok(_)) => then_breakpoints(d),
        Next::Done(Err(e)) => Next::Done(Err(e)),
    }
}

/// A startup after a reply.
pub open spec fn startup_next(d: DebuggerView, s: StartupView, reply: StartupReplyView) -> Next<
    StartupView,
    (),
> {
    match s {
        StartupView::StartingVm => Next::More(StartupView::StartingDebugger),
        StartupView::StartingDebugger => if reply is NotStarted {
            Next::Done(Err("Cant start debugger"@))
        } else {
            Next::More(StartupView::Watching)
        },
        StartupView::Watching => Next::More(StartupView::Waiting),
        StartupView::Waiting => then_commands(d),
        StartupView::Commands(script) => match script_next(script, reply->Talk_0) {
            Next::More(script) => Next::More(StartupView::Commands(script)),
            Next::Done(Ok(_)) => then_breakpoints(d),
            Next::Done(Err(e)) => Next::Done(Err(e)),
        },
        StartupView::Breakpoints(script) => match script_next(script, reply->Talk_0) {
            Next::More(script) => Next::More(StartupView::Breakpoints(script)),
            Next::Done(r) => Next::Done(r),
        },
    }
}

/// The debugger after a reply: what was started is noted.
pub open spec fn startup_effect(
    d: DebuggerView,
    s: StartupView,
    reply: StartupReplyView,
) -> DebuggerView {
    match (s, reply, d.vm) {
        (StartupView::StartingVm, _, Some(vm)) => DebuggerView {
            vm: Some(QemuView { running: true, ..vm }),
            ..d
        },
        (StartupView::StartingDebugger, StartupReplyView::Done, _) => DebuggerView {
            attached: true,
            ..d
        },
        _ => d,
    }
}

enum StartupState {
    StartingVm,
    StartingDebugger,
    Watching,
    Waiting,
    Commands(Script),
    Breakpoints(Script),
}

/// A startup.
pub struct Startup {
    state: StartupState,
}

impl View for Startup {
    type V = StartupView;

    closed spec fn view(&self) -> StartupView {
        match self.state {
            StartupState::StartingVm => StartupView::StartingVm,
            StartupState::StartingDebugger => StartupView::StartingDebugger,
            StartupState::Watching => StartupView::Watching,
            StartupState::Waiting => StartupView::Waiting,
            StartupState::Commands(script) => StartupView::Commands(script@),
            StartupState::Breakpoints(script) => StartupView::Breakpoints(script@),
        }
    }
}

impl Startup {
    /// A startup of which nothing was done yet.
    pub fn new() -> (r: Self)
        ensures
            r@ == StartupView::StartingVm,
    {
        Startup { state: StartupState::StartingVm }
    }

    /// What is to be done next.
    pub fn ask(&self, debugger: &Debugger) -> (r: StartupAsk)
        requires
            self@ is StartingVm ==> debugger@.vm is Some,
        ensures
            r@ == startup_ask(debugger@, self@),
    {
        match &self.state {
            StartupState::StartingVm => StartupAsk::StartVm(debugger.vm_launch()),
            StartupState::StartingDebugger => StartupAsk::StartDebugger(debugger.launch()),
            StartupState::Watching => StartupAsk::Watch,
            StartupState::Waiting => StartupAsk::Wait(SETTLING_TIME),
            StartupState::Commands(script) => StartupAsk::RunCommand(script.ask()),
            StartupState::Breakpoints(script) => StartupAsk::SetBreakpoint(script.ask()),
        }
    }

    /// The breakpoints are set, from the first one on.
    fn set_breakpoints(debugger: &Debugger) -> (r: Progress<Startup, ()>)
        ensures
            r@ == then_breakpoints(debugger@),
    {
        match debugger.set_breakpoints() {
            Progress::More(script) => Progress::More(
                Startup { state: StartupState::Breakpoints(script) },
            ),
            Progress::Done(r) => Progress::Done(r),
        }
    }

    /// Goes on with what came of it.
    pub fn take(self, debugger: &mut Debugger, reply: StartupReply) -> (r: Progress<Startup, ()>)
        requires
            startup_answers(startup_ask(old(debugger)@, self@), reply@),
        ensures
            r@ == startup_next(old(debugger)@, self@, reply@),
            final(debugger)@ == startup_effect(old(debugger)@, self@, reply@),
    {
        match (self.state, reply) {
            (StartupState::StartingVm, _) => {
                debugger.vm_started();
                Progress::More(Startup { state: StartupState::StartingDebugger })
            },
            (StartupState::StartingDebugger, StartupReply::NotStarted) => Progress::Done(
                Err("Cant start debugger".to_string()),
            ),
            (StartupState::StartingDebugger, _) => {
                debugger.started();
                Progress::More(Startup { state: StartupState::Watching })
            },
            (StartupState::Watching, _) => Progress::More(
                Startup { state: StartupState::Waiting },
            ),
            (StartupState::Waiting, _) => match debugger.init_commands() {
                Progress::More(script) => Progress::More(
                    Startup { state: StartupState::Commands(script) },
                ),
                Progress::Done(Ok(_)) => Startup::set_breakpoints(debugger),
                Progress::Done(Err(e)) => Progress::Done(Err(e)),
            },
            (StartupState::Commands(script), StartupReply::Talk(reply)) => match script.take(
                reply,
            ) {
                Progress::More(script) => Progress::More(
                    Startup { state: StartupState::Commands(script) },
                ),
                Progress::Done(Ok(_)) => Startup::set_breakpoints(debugger),
                Progress::Done(Err(e)) => Progress::Done(Err(e)),
            },
            (StartupState::Breakpoints(script), StartupReply::Talk(reply)) => match script.take(
                reply,
            ) {
                Progress::More(script) => Progress::More(
                    Startup { state: StartupState::Breakpoints(script) },
                ),
                Progress::Done(r) => Progress::Done(r),
            },
            (state, _) => Progress::More(Startup { state }),
        }
    }
}

/// A startup, and the debugger, after some replies.
pub open spec fn startup_run(d: DebuggerView, s: StartupView, replies: Seq<StartupReplyView>) -> (
    DebuggerView,
    Next<StartupView, ()>,
)
    decreases replies.len(),
{
    if replies.len() == 0 {
        (d, Next::More(s))
    } else {
        let (e, now) = startup_run(d, s, replies.drop_last());
        match now {
            Next::More(t) => (
                startup_effect(e, t, replies.last()),
                startup_next(e, t, replies.last()),
            ),
            Next::Done(r) => (e, Next::Done(r)),
        }
    }
}

/// Each of the replies is one to what was asked.
pub open spec fn all_answer(d: DebuggerView, s: StartupView, replies: Seq<StartupReplyView>) -> bool
    decreases replies.len(),
{
    replies.len() > 0 ==> {
        let (e, now) = startup_run(d, s, replies.drop_last());
        &&& all_answer(d, s, replies.drop_last())
        &&& now matches Next::More(t) ==> startup_answers(startup_ask(e, t), replies.last())
    }
}

/// The command that is sent when a startup gets a reply.
pub open spec fn startup_sent_now(s: StartupView, reply: StartupReplyView) -> Seq<Seq<char>> {
    match (s, reply) {
        (StartupView::Commands(script), StartupReplyView::Talk(reply)) => sent_now(script, reply),
        (StartupView::Breakpoints(script), StartupReplyView::Talk(reply)) => sent_now(
            script,
            reply,
        ),
        _ => Seq::empty(),
    }
}

/// The commands that a startup sent to the debugger, in order.
pub open spec fn startup_sent(
    d: DebuggerView,
    s: StartupView,
    replies: Seq<StartupReplyView>,
) -> Seq<Seq<char>>
    decreases replies.len(),
{
    if replies.len() == 0 {
        Seq::empty()
    } else {
        let before = startup_sent(d, s, replies.drop_last());
        match startup_run(d, s, replies.drop_last()).1 {
            Next::More(t) => before + startup_sent_now(t, replies.last()),
            Next::Done(_) => before,
        }
    }
}

/// All that a startup sends to the debugger: the commands that are run first,
/// then the command to set each breakpoint.
pub open spec fn startup_commands(d: DebuggerView) -> Seq<Seq<char>> {
    line_commands(false, d.init) + line_commands(true, d.breakpoints)
}

/// A debugger whose virtual machine was started.
pub open spec fn with_vm(d: DebuggerView) -> DebuggerView {
    DebuggerView { vm: Some(QemuView { running: true, ..d.vm->0 }), ..d }
}

/// A debugger that was started after its virtual machine.
pub open spec fn with_both(d: DebuggerView) -> DebuggerView {
    DebuggerView { attached: true, ..with_vm(d) }
}

/// Where a startup of `d` stands when it sent `sent` and the debugger is `e`.
pub open spec fn on_track(
    d: DebuggerView,
    e: DebuggerView,
    now: Next<StartupView, ()>,
    sent: Seq<Seq<char>>,
) -> bool {
    let commands = line_commands(false, d.init);
    let breakpoints = line_commands(true, d.breakpoints);
    match now {
        Next::More(StartupView::StartingVm) => e == d && sent.len() == 0,
        Next::More(StartupView::StartingDebugger) => e == with_vm(d) && sent.len() == 0,
        Next::More(StartupView::Watching) => e == with_both(d) && sent.len() == 0,
        Next::More(StartupView::Waiting) => e == with_both(d) && sent.len() == 0,
        Next::More(StartupView::Commands(s)) => {
            &&& e == with_both(d)
            &&& script_of(s, false, d.init)
            &&& sent == commands.take(sent_count(s))
        },
        Next::More(StartupView::Breakpoints(s)) => {
            &&& e == with_both(d)
            &&& script_of(s, true, d.breakpoints)
            &&& sent == commands + breakpoints.take(sent_count(s))
        },
        Next::Done(Ok(_)) => e == with_both(d) && sent == startup_commands(d),
        Next::Done(Err(_)) => sent.is_prefix_of(startup_commands(d)),
    }
}

/// A startup begins with its breakpoints.
proof fn breakpoints_begin(d: DebuggerView, sent: Seq<Seq<char>>)
    requires
        sent == line_commands(false, d.init),
    ensures
        on_track(d, with_both(d), then_breakpoints(with_both(d)), sent),
{
    let breakpoints = line_commands(true, d.breakpoints);
    assert(sent + breakpoints.take(0) == sent);
    if d.breakpoints.len() == 0 {
        assert(startup_commands(d) == sent);
    }
}

/// A startup begins with its commands.
proof fn commands_begin(d: DebuggerView, sent: Seq<Seq<char>>)
    requires
        sent.len() == 0,
    ensures
        on_track(d, with_both(d), then_commands(with_both(d)), sent),
{
    let commands = line_commands(false, d.init);
    if d.init.len() == 0 {
        assert(sent == commands);
        breakpoints_begin(d, sent);
    } else {
        assert(sent == commands.take(0));
    }
}

/// One step of a startup.
pub(crate) proof fn startup_step(
    d: DebuggerView,
    e: DebuggerView,
    t: StartupView,
    reply: StartupReplyView,
    sent: Seq<Seq<char>>,
)
    requires
        d.vm is Some,
        on_track(d, e, Next::More(t), sent),
        startup_answers(startup_ask(e, t), reply),
    ensures
        on_track(
            d,
            startup_effect(e, t, reply),
            startup_next(e, t, reply),
            sent + startup_sent_now(t, reply),
        ),
{
    let commands = line_commands(false, d.init);
    let breakpoints = line_commands(true, d.breakpoints);
    let all = sent + startup_sent_now(t, reply);
    match t {
        StartupView::Commands(s) => {
            let answer = reply->Talk_0;
            script_step(s, answer, false, d.init);
            match script_next(s, answer) {
                Next::More(_) => {},
                Next::Done(Ok(_)) => {
                    breakpoints_begin(d, all);
                },
                Next::Done(Err(_)) => {
                    assert(all.is_prefix_of(startup_commands(d)));
                },
            }
        },
        StartupView::Breakpoints(s) => {
            let answer = reply->Talk_0;
            script_step(s, answer, true, d.breakpoints);
            assert(all == commands + (breakpoints.take(sent_count(s)) + sent_now(s, answer)));
        },
        _ => {
            assert(all == sent);
            if t is Waiting {
                commands_begin(d, sent);
            }
        },
    }
}

/// A startup that ends well started the virtual machine and the debugger, ran
/// the first commands in order and then set the breakpoints in order, each
/// once. A startup that fails sent nothing else before it did.
pub proof fn startup_in_order(d: DebuggerView, replies: Seq<StartupReplyView>)
    requires
        d.vm is Some,
        all_answer(d, StartupView::StartingVm, replies),
    ensures
        on_track(
            d,
            startup_run(d, StartupView::StartingVm, replies).0,
            startup_run(d, StartupView::StartingVm, replies).1,
            startup_sent(d, StartupView::StartingVm, replies),
        ),
    decreases replies.len(),
{
    let s = StartupView::StartingVm;
    if replies.len() > 0 {
        startup_in_order(d, replies.drop_last());
        let (e, now) = startup_run(d, s, replies.drop_last());
        let sent = startup_sent(d, s, replies.drop_last());
        if let Next::More(t) = now {
            startup_step(d, e, t, replies.last(), sent);
        }
    }
}

/// The breakpoint that a message names by its number is the one that was set by
/// the command of that number.
pub proof fn numbered_as_set(d: DebuggerView, message: Seq<char>)
    requires
        stop(d.breakpoints, message) matches Some(Ok(_)),
    ensures
        ({
            let n = breakpoint_number(message)->0;
            startup_commands(d)[d.init.len() + n - 1] == "b "@ + stop(
                d.breakpoints,
                message,
            )->0->Ok_0
        }),
{
    let n = breakpoint_number(message)->0;
    assert(line_commands(true, d.breakpoints)[n - 1] == line_command(true, d.breakpoints[n - 1]));
}

} // verus!
