//! The debugger: GDB, driven over its machine interface.
use crate::instances::dialog::{
    script_at, Continuation, ContinuationView, Exchange, ExchangeView, Next, Progress, Script,
    ScriptView,
};
use crate::instances::launch::{append_copies, Connection, Launch, LaunchView};
use crate::instances::qemu::{qemu_launch, Qemu, QemuView};
use crate::instances::reading::{End, EndView, Reading, ReadingView};
use crate::instances::run::{Plan, TestRun};
use crate::instances::session::{begun, Session};
use crate::instances::startup::{Startup, StartupView};
use crate::instances::watcher::{Watcher, WatcherView};
use crate::text::{
    chars, number, parse_number, skip, split, split_at_each, split_parts, starts_with, text_of,
    unquote, unquoted, view_of, views,
};
use vstd::prelude::*;

verus! {

/// The program that runs the virtual machine.
pub const VIRTUAL_MACHINE: &'static str = "qemu-system-x86_64";

/// The image that the virtual machine boots.
pub const BOOT_IMAGE: &'static str = "/Users/foxy/Documents/OS/bootloader/build/boot.img";

/// A debugger, what it is told, and the virtual machine that it debugs.
pub struct Debugger {
    binary: String,
    args: Vec<String>,
    attached: bool,
    breakpoints: Vec<String>,
    vm: Option<Qemu>,
    init: Vec<String>,
    tests: Vec<String>,
    panic_ref: String,
    end_ref: String,
}

/// A debugger, what it is told, and the virtual machine that it debugs.
#[verifier::ext_equal]
pub struct DebuggerView {
    pub binary: Seq<char>,
    pub args: Seq<Seq<char>>,
    /// The debugger was started: there are a process, its standard streams, and
    /// a channel to the task that watches it.
    pub attached: bool,
    pub breakpoints: Seq<Seq<char>>,
    pub vm: Option<QemuView>,
    /// The commands that are run first.
    pub init: Seq<Seq<char>>,
    pub tests: Seq<Seq<char>>,
    pub panic_ref: Seq<char>,
    pub end_ref: Seq<char>,
}

impl View for Debugger {
    type V = DebuggerView;

    closed spec fn view(&self) -> DebuggerView {
        DebuggerView {
            binary: self.binary@,
            args: views(self.args@),
            attached: self.attached,
            breakpoints: views(self.breakpoints@),
            vm: match self.vm {
                Some(vm) => Some(vm@),
                None => None,
            },
            init: views(self.init@),
            tests: views(self.tests@),
            panic_ref: self.panic_ref@,
            end_ref: self.end_ref@,
        }
    }
}

/// How a debugger is started: with its machine interface, then with its own
/// arguments. What it reads and writes goes through pipes.
pub open spec fn debugger_launch(d: DebuggerView) -> LaunchView {
    LaunchView {
        program: d.binary,
        args: seq!["-interpreter"@, "mi"@] + d.args,
        kill_on_drop: true,
        stdin: Connection::Piped,
        stdout: Connection::Piped,
        stderr: Connection::Inherited,
    }
}

/// The virtual machine that is started with a debugger: it waits for the
/// debugger before it boots.
pub open spec fn debugged_vm() -> QemuView {
    QemuView {
        binary: VIRTUAL_MACHINE@,
        args: seq!["-s"@, "-S"@, BOOT_IMAGE@],
        running: false,
    }
}

/// An exchange with the debugger, which has to be attached.
pub open spec fn exchange_start(attached: bool, command: Seq<char>) -> Next<
    ExchangeView,
    Seq<char>,
> {
    if attached {
        Next::More(ExchangeView::Sending(command))
    } else {
        Next::Done(Err("Cant get sender"@))
    }
}

/// The program is to go on; the debugger has to be attached.
pub open spec fn continuation_start(attached: bool) -> Next<ContinuationView, Seq<char>> {
    if attached {
        Next::More(ContinuationView::Continuing(ExchangeView::Sending("c"@)))
    } else {
        Next::Done(Err("Cant get sender"@))
    }
}

/// A script that the debugger runs: where it is to send anything, it has to be
/// attached.
pub open spec fn script_start(attached: bool, breakpoints: bool, lines: Seq<Seq<char>>) -> Next<
    ScriptView,
    (),
> {
    if lines.len() > 0 && !attached {
        Next::Done(Err("Cant get sender"@))
    } else {
        script_at(breakpoints, lines, 0)
    }
}

/// The first of `fields` that begins with `pattern`.
pub open spec fn first_field(fields: Seq<Seq<char>>, pattern: Seq<char>) -> Option<Seq<char>>
    decreases fields.len(),
{
    if fields.len() == 0 {
        None
    } else if pattern.is_prefix_of(fields[0]) {
        Some(fields[0])
    } else {
        first_field(fields.drop_first(), pattern)
    }
}

/// What stands in `s` before its last double quote.
pub open spec fn before_last_quote(s: Seq<char>) -> Option<Seq<char>>
    decreases s.len(),
{
    if s.len() == 0 {
        None
    } else if s.last() == '"' {
        Some(s.drop_last())
    } else {
        before_last_quote(s.drop_last())
    }
}

/// The first line of `s`, without its end.
pub open spec fn first_line(s: Seq<char>) -> Seq<char> {
    split(s, '\n').first()
}

/// What stands in the quotes that `s` begins with: all up to the double quote
/// that `s` ends with, else all up to the last one on its first line.
pub open spec fn quoted_first(s: Seq<char>) -> Option<Seq<char>> {
    if s.len() == 0 || s[0] != '"' {
        None
    } else {
        match unquoted(s) {
            Some(value) => Some(value),
            None => before_last_quote(first_line(s.drop_first())),
        }
    }
}

/// The value that a message of the debugger gives an attribute: in the first of
/// its fields that begins with the attribute's name and an equals sign, what
/// stands in quotes behind them. The last field of a record has the end of the
/// line, and what the debugger writes after it, behind its quotes.
pub open spec fn attribute_value(message: Seq<char>, name: Seq<char>) -> Option<Seq<char>> {
    match first_field(split(message, ','), name.push('=')) {
        None => None,
        Some(field) => quoted_first(field.skip(name.len() as int + 1)),
    }
}

/// The number of the breakpoint that a message says was reached.
pub open spec fn breakpoint_number(message: Seq<char>) -> Option<usize> {
    match attribute_value(message, "bkptno"@) {
        Some(value) => number(value),
        None => None,
    }
}

/// Where a message says that the program was stopped: the debugger numbers the
/// breakpoints from one.
pub open spec fn stop(breakpoints: Seq<Seq<char>>, message: Seq<char>) -> Option<
    Result<Seq<char>, Seq<char>>,
> {
    match breakpoint_number(message) {
        None => None,
        Some(n) => if n == 0 {
            None
        } else if n <= breakpoints.len() {
            Some(Ok(breakpoints[n - 1]))
        } else {
            Some(Err("Unknown breakpoint"@))
        },
    }
}

impl Debugger {
    /// A debugger that was not started yet.
    pub fn new(binary: &str, args: Vec<String>) -> (r: Debugger)
        ensures
            r@ == (DebuggerView {
                binary: binary@,
                args: views(args@),
                attached: false,
                breakpoints: Seq::empty(),
                vm: None,
                init: Seq::empty(),
                tests: Seq::empty(),
                panic_ref: Seq::empty(),
                end_ref: Seq::empty(),
            }),
    {
        let r = Debugger {
            binary: binary.to_string(),
            args,
            attached: false,
            breakpoints: Vec::new(),
            vm: None,
            init: Vec::new(),
            tests: Vec::new(),
            panic_ref: String::new(),
            end_ref: String::new(),
        };
        assert(r@.breakpoints == Seq::<Seq<char>>::empty());
        assert(r@.init == Seq::<Seq<char>>::empty());
        assert(r@.tests == Seq::<Seq<char>>::empty());
        r
    }

    /// The command that is put into the channel to the task that watches the
    /// debugger.
    pub fn send(&self, cmd: &str) -> (r: Result<String, String>)
        ensures
            self@.attached ==> (r matches Ok(c) && c@ == cmd@),
            !self@.attached ==> (r matches Err(e) && e@ == "Cant get sender"@),
    {
        if self.attached {
            Ok(cmd.to_string())
        } else {
            Err("Cant get sender".to_string())
        }
    }

    /// What becomes of a command that the channel took, or did not take.
    pub fn sent(taken: bool) -> (r: Result<(), String>)
        ensures
            taken ==> r == Ok::<(), String>(()),
            !taken ==> (r matches Err(e) && e@ == "No response from watcher"@),
    {
        if taken {
            Ok(())
        } else {
            Err("No response from watcher".to_string())
        }
    }

    /// Registers the gateway: the point that is reached if the last test is
    /// successful.
    pub fn register_gateway(&mut self, end_ref: &str)
        ensures
            final(self)@ == (DebuggerView { end_ref: end_ref@, ..old(self)@ }),
    {
        self.end_ref = end_ref.to_string();
    }

    /// Registers a test, given its symbol.
    pub fn register_test(&mut self, test_ref: &str)
        ensures
            final(self)@ == (DebuggerView {
                tests: old(self)@.tests.push(test_ref@),
                ..old(self)@
            }),
    {
        self.tests.push(test_ref.to_string());
        assert(self@.tests == old(self)@.tests.push(test_ref@));
    }

    /// Registers the breakpoint of the panic handler.
    pub fn register_panic(&mut self, panic_ref: &str)
        ensures
            final(self)@ == (DebuggerView { panic_ref: panic_ref@, ..old(self)@ }),
    {
        self.panic_ref = panic_ref.to_string();
    }

    /// Appends a command to those that are run first. It is not run here: see
    /// [`Self::init_commands`].
    pub fn before(&mut self, command: &str)
        ensures
            final(self)@ == (DebuggerView {
                init: old(self)@.init.push(command@),
                ..old(self)@
            }),
    {
        self.init.push(command.to_string());
        assert(self@.init == old(self)@.init.push(command@));
    }

    /// Appends a breakpoint to the list of breakpoints. It is not set here: see
    /// [`Self::set_breakpoints`].
    pub fn breakpoint(&mut self, b: &str)
        ensures
            final(self)@ == (DebuggerView {
                breakpoints: old(self)@.breakpoints.push(b@),
                ..old(self)@
            }),
    {
        self.breakpoints.push(b.to_string());
        assert(self@.breakpoints == old(self)@.breakpoints.push(b@));
    }

    /// Sends a command to the debugger and reads its answer, which is an error
    /// where it reports one.
    pub fn send_and_wait(&self, cmd: &str) -> (r: Progress<Exchange, String>)
        ensures
            r@ == exchange_start(self@.attached, cmd@),
    {
        match self.send(cmd) {
            Ok(command) => Progress::More(Exchange::new(command)),
            Err(e) => Progress::Done(Err(e)),
        }
    }

    /// Runs every command that was set up with [`Self::before`], in order.
    pub fn init_commands(&self) -> (r: Progress<Script, ()>)
        ensures
            r@ == script_start(self@.attached, false, self@.init),
    {
        if self.init.len() > 0 && !self.attached {
            return Progress::Done(Err("Cant get sender".to_string()));
        }
        let mut lines: Vec<String> = Vec::new();
        append_copies(&mut lines, &self.init);
        assert(views(lines@) == self@.init);
        Script::new(false, lines)
    }

    /// Sets every breakpoint, in order.
    pub fn set_breakpoints(&self) -> (r: Progress<Script, ()>)
        ensures
            r@ == script_start(self@.attached, true, self@.breakpoints),
    {
        if self.breakpoints.len() > 0 && !self.attached {
            return Progress::Done(Err("Cant get sender".to_string()));
        }
        let mut lines: Vec<String> = Vec::new();
        append_copies(&mut lines, &self.breakpoints);
        assert(views(lines@) == self@.breakpoints);
        Script::new(true, lines)
    }

    /// Lets the program go on, up to the message of the debugger that it was
    /// stopped; [`Self::stopped_at`] tells where.
    pub fn continue_until(&self) -> (r: Progress<Continuation, String>)
        ensures
            r@ == continuation_start(self@.attached),
    {
        if self.attached {
            Progress::More(Continuation::new())
        } else {
            Progress::Done(Err("Cant get sender".to_string()))
        }
    }

    /// The breakpoint that a message says was reached: the debugger numbers
    /// breakpoints from one, in the order in which they were set. There is no
    /// telling where the message holds no such number.
    pub fn stopped_at(&self, message: &str) -> (r: Option<Result<String, String>>)
        ensures
            match stop(self@.breakpoints, message@) {
                None => r is None,
                Some(Ok(name)) => r matches Some(Ok(b)) && b@ == name,
                Some(Err(why)) => r matches Some(Err(e)) && e@ == why,
            },
    {
        let n: usize = match Self::get_attribute(message, "bkptno") {
            Some(value) => match parse_number(value.as_str()) {
                Some(n) => n,
                None => {
                    return None;
                },
            },
            None => {
                return None;
            },
        };
        if n == 0 {
            None
        } else if n <= self.breakpoints.len() {
            assert(self@.breakpoints[n - 1] == self.breakpoints@[n - 1]@);
            Some(Ok(self.breakpoints[n - 1].clone()))
        } else {
            Some(Err("Unknown breakpoint".to_string()))
        }
    }

    /// What stands before the last double quote of `s`.
    fn up_to_last_quote(s: &str) -> (r: Option<String>)
        ensures
            view_of(r) == before_last_quote(s@),
    {
        let cs = chars(s);
        let mut end: usize = cs.len();
        assert(s@.take(end as int) == s@);
        while end > 0
            invariant
                end <= cs@.len(),
                cs@ == s@,
                before_last_quote(s@) == before_last_quote(s@.take(end as int)),
            decreases end,
        {
            assert(s@.take(end as int).drop_last() == s@.take(end - 1));
            if cs[end - 1] == '"' {
                assert(s@.take(end - 1) == cs@.subrange(0, end - 1));
                return Some(text_of(&cs, 0, end - 1));
            }
            end = end - 1;
        }
        None
    }

    /// What stands in the quotes that `s` begins with.
    fn first_quoted(s: &str) -> (r: Option<String>)
        ensures
            view_of(r) == quoted_first(s@),
    {
        if let Some(value) = unquote(s) {
            return Some(value);
        }
        let cs = chars(s);
        if cs.len() == 0 || cs[0] != '"' {
            return None;
        }
        let behind = skip(s, 1);
        assert(behind@ == s@.drop_first());
        let lines = split_at_each(behind.as_str(), '\n');
        proof {
            split_parts(behind@, '\n');
            assert(views(lines@).len() == lines@.len());
            assert(views(lines@).first() == lines@[0]@);
        }
        Self::up_to_last_quote(lines[0].as_str())
    }

    /// Given a message of the debugger, the value that is associated with an
    /// attribute.
    pub fn get_attribute(msg: &str, pattern: &str) -> (r: Option<String>)
        ensures
            view_of(r) == attribute_value(msg@, pattern@),
    {
        let fields = split_at_each(msg, ',');
        let ghost all = views(fields@);
        let mut prefix = pattern.to_string();
        prefix.push('=');
        let prefix_len: usize = chars(prefix.as_str()).len();
        let mut i: usize = 0;
        assert(all.skip(0) == all);
        while i < fields.len()
            invariant
                i <= fields@.len(),
                all == views(fields@),
                all == split(msg@, ','),
                prefix@ == pattern@.push('='),
                prefix_len == prefix@.len(),
                first_field(all, prefix@) == first_field(all.skip(i as int), prefix@),
            decreases fields@.len() - i,
        {
            assert(all.skip(i as int)[0] == fields@[i as int]@);
            assert(all.skip(i as int).drop_first() == all.skip(i + 1));
            if starts_with(fields[i].as_str(), prefix.as_str()) {
                let rest = skip(fields[i].as_str(), prefix_len);
                return Self::first_quoted(rest.as_str());
            }
            i = i + 1;
        }
        None
    }

    /// Reading up to a given pattern.
    pub fn read_all(until: &str) -> (r: Reading)
        ensures
            r@ == (ReadingView { end: EndView::Pattern(until@), text: Seq::empty() }),
    {
        Reading::new(End::Pattern(until.to_string()))
    }

    /// How the debugger is started.
    pub fn launch(&self) -> (r: Launch)
        ensures
            r@ == debugger_launch(self@),
    {
        let mut args: Vec<String> = Vec::new();
        args.push("-interpreter".to_string());
        args.push("mi".to_string());
        assert(views(args@) == seq!["-interpreter"@, "mi"@]);
        append_copies(&mut args, &self.args);
        Launch {
            program: self.binary.clone(),
            args,
            kill_on_drop: true,
            stdin: Connection::Piped,
            stdout: Connection::Piped,
            stderr: Connection::Inherited,
        }
    }

    /// How the virtual machine is started.
    pub fn vm_launch(&self) -> (r: Launch)
        requires
            self@.vm is Some,
        ensures
            r@ == qemu_launch(self@.vm->0),
    {
        self.vm.as_ref().unwrap().launch()
    }

    /// Notes that the virtual machine was started.
    pub fn vm_started(&mut self)
        ensures
            final(self)@ == (DebuggerView {
                vm: match old(self)@.vm {
                    Some(vm) => Some(QemuView { running: true, ..vm }),
                    None => None,
                },
                ..old(self)@
            }),
    {
        if let Some(vm) = self.vm.take() {
            let mut vm = vm;
            let _ = vm.run(Ok(()));
            self.vm = Some(vm);
        }
    }

    /// Notes that the debugger was started.
    pub fn started(&mut self)
        ensures
            final(self)@ == (DebuggerView { attached: true, ..old(self)@ }),
    {
        self.attached = true;
    }

    /// Starts the virtual machine and the debugger, runs the commands that were
    /// set up with [`Self::before`] and sets the breakpoints.
    pub fn init(&mut self) -> (r: Startup)
        ensures
            r@ == StartupView::StartingVm,
            final(self)@ == (DebuggerView { vm: Some(debugged_vm()), ..old(self)@ }),
    {
        let mut args: Vec<String> = Vec::new();
        args.push("-s".to_string());
        args.push("-S".to_string());
        args.push(BOOT_IMAGE.to_string());
        assert(views(args@) == seq!["-s"@, "-S"@, BOOT_IMAGE@]);
        self.vm = Some(Qemu::new(VIRTUAL_MACHINE, args));
        Startup::new()
    }

    /// The task that hands commands to the debugger once it was started.
    pub fn watch(&self) -> (r: Watcher)
        requires
            self@.attached,
        ensures
            r@ == WatcherView::Starting(Seq::empty()),
    {
        Watcher::new()
    }

    /// Begins a session that runs the registered tests: the breakpoints get
    /// those of the tests, then that of the panic handler and that of the
    /// gateway; what [`Self::init`] does comes first in the session.
    ///
    /// The session ends when a test has a fatal outcome, when all tests were
    /// run, or when an error occurs.
    pub fn test(&mut self) -> (r: Session)
        ensures
            r@ == begun(
                Plan {
                    tests: old(self)@.tests,
                    panic_ref: old(self)@.panic_ref,
                    end_ref: old(self)@.end_ref,
                },
            ),
            final(self)@ == (DebuggerView {
                vm: Some(debugged_vm()),
                breakpoints: old(self)@.breakpoints + old(self)@.tests + seq![
                    old(self)@.panic_ref,
                    old(self)@.end_ref,
                ],
                ..old(self)@
            }),
    {
        append_copies(&mut self.breakpoints, &self.tests);
        let panic_ref = self.panic_ref.clone();
        let end_ref = self.end_ref.clone();
        self.breakpoint(panic_ref.as_str());
        self.breakpoint(end_ref.as_str());
        assert(self@.breakpoints == old(self)@.breakpoints + old(self)@.tests + seq![
            old(self)@.panic_ref,
            old(self)@.end_ref,
        ]);
        let mut tests: Vec<String> = Vec::new();
        append_copies(&mut tests, &self.tests);
        assert(views(tests@) == old(self)@.tests);
        let run = TestRun::new(tests, panic_ref, end_ref);
        let startup = self.init();
        Session::new(startup, run)
    }
}

} // verus!
