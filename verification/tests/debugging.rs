use external_tests::instances::dialog::{Ask, Progress, Reply};
use external_tests::instances::launch::{Connection, Launch};
use external_tests::instances::qemu::{Watch, KILL};
use external_tests::instances::decoding::Decoder;
use external_tests::instances::reading::{End, Reading, PROMPT, READ_SIZE};
use external_tests::instances::run::TestRun;
use external_tests::instances::session::{Course, Session, SessionAsk, SessionReply};
use external_tests::instances::startup::{Startup, StartupAsk, StartupReply};
use external_tests::instances::watcher::{WatcherAsk, WatcherReply};
use external_tests::instances::{ActionResult, Debugger, Qemu, Recap};

fn strings(s: &[&str]) -> Vec<String> {
    s.iter().map(|s| s.to_string()).collect()
}

fn piece(s: &str) -> Reply {
    Reply::Piece(s.to_string())
}

#[test]
fn qemu_is_started_and_stopped() {
    let mut q = Qemu::new("qemu", strings(&["-x", "y"]));
    let l = q.launch();
    assert_eq!(l.program, "qemu");
    assert_eq!(
        l.args,
        vec!["-qmp", "unix:external-tests.sock,server,nowait", "-d", "int", "-D", "log", "-x", "y"]
    );
    assert!(l.kill_on_drop);
    assert_eq!((l.stdin, l.stdout, l.stderr), (Connection::Inherited, Connection::Piped, Connection::Null));
    assert_eq!(q.send_instance(3), Err("Cant connect to instance".to_string()));
    assert_eq!(q.stop(), Err("Cant connect to instance".to_string()));
    assert_eq!(
        q.run(Err("no such file".to_string())),
        Err("Can't start QEMU for some reason : no such file".to_string())
    );
    assert_eq!(q.stop(), Err("Cant connect to instance".to_string()));
    assert_eq!(q.run(Ok(())), Ok(()));
    assert_eq!(q.send_instance(3), Ok(3));
    assert_eq!(q.stop(), Ok(KILL));
    assert_eq!(Qemu::delivered(true), Ok(()));
    assert_eq!(Qemu::delivered(false), Err("Cant send action to instance".to_string()));
    assert_eq!(Qemu::watch(Some(0)), Watch::Kill);
    assert_eq!(Qemu::watch(Some(1)), Watch::Wait);
    assert_eq!(Qemu::watch(None), Watch::End);
}

#[test]
fn recaps_are_shown() {
    let mut r = Recap::new();
    assert_eq!(format!("{:?}", r), "Recap { failed: false, recap: [] }");
    r.push(0, ActionResult::SUCCESS("a".to_string()));
    r.push(7, ActionResult::SKIP);
    r.aborted();
    assert_eq!(format!("{:?}", r), "Recap { failed: true, recap: [(0, SUCCESS(\"a\")), (7, SKIP)] }");
}

#[test]
fn reading_in_pieces() {
    let mut r = Reading::new(End::Pattern(PROMPT.to_string()));
    assert!(!r.take("~\"x\"\n(g"));
    assert!(!r.take(""));
    assert!(r.take("db) \n"));
    assert_eq!(r.text(), "~\"x\"\n(gdb) \n");
    let mut r = Debugger::read_all("ab");
    assert!(!r.take("a"));
    assert!(r.take("b\u{e9}"));
    assert_eq!(r.text(), "ab\u{e9}");
    let mut r = Reading::new(End::Line);
    assert!(!r.take("a\nb"));
    assert!(r.take("\n"));
    assert_eq!(r.text(), "a\nb\n");
}

#[test]
fn characters_over_two_reads() {
    let all = format!("{}\u{e9}(gdb)", "a".repeat(29));
    let bytes = all.as_bytes();
    assert_eq!(bytes[READ_SIZE - 1], 0xc3);
    let mut decoder = Decoder::new();
    let mut r = Debugger::read_all("(gdb)");
    let first = decoder.take(&bytes[..READ_SIZE]).unwrap();
    assert_eq!(first, "a".repeat(29));
    assert!(!r.take(&first));
    let second = decoder.take(&bytes[READ_SIZE..]).unwrap();
    assert_eq!(second, "\u{e9}(gdb)");
    assert!(r.take(&second));
    assert_eq!(r.text(), all);
}

#[test]
fn text_is_cut_anywhere() {
    let all = "a\u{e9}\u{4e16}\u{1f600}z";
    let bytes = all.as_bytes();
    for size in 1..bytes.len() + 1 {
        let mut decoder = Decoder::new();
        let mut text = String::new();
        for piece in bytes.chunks(size) {
            text.push_str(&decoder.take(piece).unwrap());
        }
        assert_eq!(text, all);
    }
}

#[test]
fn bytes_that_are_no_text() {
    let mut decoder = Decoder::new();
    assert_eq!(decoder.take(&[0x80]), None);
    assert_eq!(decoder.take(b"a\xff"), None);
    assert_eq!(decoder.take(b"a\xe4\xb8"), Some("a".to_string()));
    assert_eq!(decoder.take(b"b"), None);
    assert_eq!(decoder.take(&[]), Some(String::new()));
    assert_eq!(decoder.take(b"\x96b"), Some("\u{4e16}b".to_string()));
    assert_eq!(decoder.take(&[0xed, 0xa0, 0x80]), None);
}

#[test]
fn attributes_of_messages() {
    let m = "*stopped,reason=\"breakpoint-hit\",disp=\"keep\",bkptno=\"12\",frame={addr=\"0x1\"}\n(gdb) \n";
    assert_eq!(Debugger::get_attribute(m, "bkptno"), Some("12".to_string()));
    assert_eq!(Debugger::get_attribute(m, "reason"), Some("breakpoint-hit".to_string()));
    assert_eq!(Debugger::get_attribute(m, "bkpt"), None);
    assert_eq!(Debugger::get_attribute(m, "thread"), None);
    assert_eq!(Debugger::get_attribute(m, "frame"), None);
    assert_eq!(Debugger::get_attribute("a=\"1\"\n", "a"), Some("1".to_string()));
    assert_eq!(Debugger::get_attribute("a=\"1\n", "a"), None);
    assert_eq!(Debugger::get_attribute("a=\"1\"\n~\"x\"\n(gdb)", "a"), Some("1".to_string()));
    assert_eq!(Debugger::get_attribute("a=\"1\n\"x\"\n", "a"), None);
    assert_eq!(Debugger::get_attribute("a=\"1\"2\"", "a"), Some("1\"2".to_string()));
    assert_eq!(Debugger::get_attribute("a=\"1\n2\"", "a"), Some("1\n2".to_string()));
    assert_eq!(Debugger::get_attribute("a=1\"2\"", "a"), None);
    let m = "^done,thread-id=\"1\",thread=\"2\",core=\"0\"";
    assert_eq!(Debugger::get_attribute(m, "thread"), Some("2".to_string()));
    assert_eq!(Debugger::get_attribute(m, "thread-id"), Some("1".to_string()));
    let m = "*stopped,bkptno=\"1\",stopped-threads=\"all\"\n(gdb) \n";
    assert_eq!(Debugger::get_attribute(m, "stopped-threads"), Some("all".to_string()));
    assert_eq!(Debugger::get_attribute(m, "bkptno"), Some("1".to_string()));
    assert_eq!(Debugger::get_attribute("a=\"\",a=\"2\"", "a"), Some(String::new()));
    assert_eq!(Debugger::get_attribute("a=\"", "a"), None);
    assert_eq!(Debugger::get_attribute("a", "a"), None);
    assert_eq!(Debugger::get_attribute("", ""), None);
}

fn attached(d: &mut Debugger) {
    d.started();
}

#[test]
fn stops_are_named() {
    let mut d = Debugger::new("gdb", vec![]);
    d.breakpoint("one");
    d.breakpoint("two");
    assert_eq!(d.stopped_at("x,bkptno=\"1\",y"), Some(Ok("one".to_string())));
    assert_eq!(d.stopped_at("x,bkptno=\"2\",y"), Some(Ok("two".to_string())));
    assert_eq!(d.stopped_at("x,bkptno=\"3\",y"), Some(Err("Unknown breakpoint".to_string())));
    assert_eq!(d.stopped_at("x,bkptno=\"0\",y"), None);
    assert_eq!(d.stopped_at("x,bkptno=\"a\",y"), None);
    assert_eq!(d.stopped_at("exited"), None);
}

#[test]
fn exchanges() {
    let mut d = Debugger::new("gdb", vec![]);
    assert_eq!(d.send("x"), Err("Cant get sender".to_string()));
    assert!(matches!(d.send_and_wait("x"), Progress::Done(Err(_))));
    attached(&mut d);
    assert_eq!(d.send("x"), Ok("x".to_string()));
    assert_eq!(Debugger::sent(true), Ok(()));
    assert_eq!(Debugger::sent(false), Err("No response from watcher".to_string()));
    for (pieces, error) in [(vec!["^done\n", "(gdb) \n"], false), (vec!["^err", "or,msg=\"no\"\n(gdb) \n"], true)] {
        let mut x = match d.send_and_wait("x") {
            Progress::More(x) => x,
            _ => panic!(),
        };
        assert!(matches!(x.ask(), Ask::Send(c) if c == "x"));
        x = match x.take(Reply::Sent) {
            Progress::More(x) => x,
            _ => panic!(),
        };
        assert!(matches!(x.ask(), Ask::Read));
        x = match x.take(piece(pieces[0])) {
            Progress::More(x) => x,
            _ => panic!(),
        };
        match x.take(piece(pieces[1])) {
            Progress::Done(Ok(t)) => assert!(!error && t == pieces.concat()),
            Progress::Done(Err(t)) => assert!(error && t == pieces.concat()),
            _ => panic!(),
        }
    }
    match d.send_and_wait("x") {
        Progress::More(x) => match x.take(Reply::NotSent) {
            Progress::Done(Err(e)) => assert_eq!(e, "No response from watcher"),
            _ => panic!(),
        },
        _ => panic!(),
    }
}

#[test]
fn continuing_to_a_stop() {
    let mut d = Debugger::new("gdb", vec![]);
    assert!(matches!(d.continue_until(), Progress::Done(Err(e)) if e == "Cant get sender"));
    attached(&mut d);
    d.breakpoint("one");
    let c = match d.continue_until() {
        Progress::More(c) => c,
        _ => panic!(),
    };
    assert!(matches!(c.ask(), Ask::Send(c) if c == "c"));
    let c = match c.take(Reply::Sent) {
        Progress::More(c) => c,
        _ => panic!(),
    };
    let c = match c.take(piece("^running\n(gdb) \n")) {
        Progress::More(c) => c,
        _ => panic!(),
    };
    assert!(matches!(c.ask(), Ask::Read));
    let c = match c.take(piece("*stopped,bkptno=\"1\",")) {
        Progress::More(c) => c,
        _ => panic!(),
    };
    match c.take(piece("x=\"y\"\n(gdb) \n")) {
        Progress::Done(Ok(m)) => assert_eq!(d.stopped_at(&m), Some(Ok("one".to_string()))),
        _ => panic!(),
    }
    let c = match d.continue_until() {
        Progress::More(c) => c,
        _ => panic!(),
    };
    let c = match c.take(Reply::Sent) {
        Progress::More(c) => c,
        _ => panic!(),
    };
    assert!(matches!(c.take(piece("^error(gdb)")), Progress::Done(Err(e)) if e == "^error(gdb)"));
}

#[test]
fn scripts() {
    let mut d = Debugger::new("gdb", vec![]);
    assert!(matches!(d.init_commands(), Progress::Done(Ok(()))));
    assert!(matches!(d.set_breakpoints(), Progress::Done(Ok(()))));
    d.before("first");
    d.breakpoint("main");
    assert!(matches!(d.init_commands(), Progress::Done(Err(e)) if e == "Cant get sender"));
    assert!(matches!(d.set_breakpoints(), Progress::Done(Err(e)) if e == "Cant get sender"));
    attached(&mut d);
    let s = match d.set_breakpoints() {
        Progress::More(s) => s,
        _ => panic!(),
    };
    assert!(matches!(s.ask(), Ask::Send(c) if c == "b main"));
    let s = match s.take(Reply::Sent) {
        Progress::More(s) => s,
        _ => panic!(),
    };
    assert!(matches!(
        s.take(piece("error (gdb)")),
        Progress::Done(Err(e)) if e == "Could not set breakpoint main"
    ));
    let s = match d.init_commands() {
        Progress::More(s) => s,
        _ => panic!(),
    };
    let s = match s.take(Reply::Sent) {
        Progress::More(s) => s,
        _ => panic!(),
    };
    assert!(matches!(s.take(piece("error (gdb)")), Progress::Done(Ok(()))));
}

/// Sets the breakpoints `x`, `y` and `z`; the debugger gives one of `answers`
/// after the other.
fn set_three(answers: &[&str]) -> (Vec<String>, Result<(), String>) {
    let mut d = Debugger::new("gdb", vec![]);
    attached(&mut d);
    for b in ["x", "y", "z"] {
        d.breakpoint(b);
    }
    let mut sent = Vec::new();
    let mut answers = answers.iter();
    let mut step = d.set_breakpoints();
    loop {
        match step {
            Progress::More(s) => {
                let reply = talk(s.ask(), &mut sent, &mut answers);
                step = s.take(reply);
            }
            Progress::Done(r) => return (sent, r),
        }
    }
}

#[test]
fn scripts_end_by_their_answers() {
    let ok = "^done(gdb)";
    let (sent, r) = set_three(&[ok, "^do", "ne(gdb)", ok]);
    assert_eq!(sent, vec!["b x", "b y", "b z"]);
    assert_eq!(r, Ok(()));
    let (sent, r) = set_three(&[ok, "error(gdb)"]);
    assert_eq!(sent, vec!["b x", "b y"]);
    assert_eq!(r, Err("Could not set breakpoint y".to_string()));
    let (sent, r) = set_three(&["^error(gdb)"]);
    assert_eq!(sent, vec!["b x"]);
    assert_eq!(r, Err("^error(gdb)".to_string()));
}

/// Goes through a startup and notes what it asks for; the debugger answers
/// every command with `answer`.
fn start(d: &mut Debugger, answer: &str) -> (Vec<String>, Result<(), String>) {
    let mut asked = Vec::new();
    let mut s: Startup = d.init();
    loop {
        let reply = match s.ask(d) {
            StartupAsk::StartVm(l) => {
                asked.push(format!("vm {} {}", l.program, l.args.join(" ")));
                StartupReply::Done
            }
            StartupAsk::StartDebugger(l) => {
                asked.push(format!("debugger {} {}", l.program, l.args.join(" ")));
                if l.program == "none" {
                    StartupReply::NotStarted
                } else {
                    StartupReply::Done
                }
            }
            StartupAsk::Watch => {
                asked.push("watch".to_string());
                StartupReply::Done
            }
            StartupAsk::Wait(t) => {
                asked.push(format!("wait {}", t));
                StartupReply::Done
            }
            StartupAsk::RunCommand(Ask::Send(c)) => {
                asked.push(format!("run {}", c));
                StartupReply::Talk(Reply::Sent)
            }
            StartupAsk::SetBreakpoint(Ask::Send(c)) => {
                asked.push(format!("set {}", c));
                StartupReply::Talk(Reply::Sent)
            }
            StartupAsk::RunCommand(Ask::Read) | StartupAsk::SetBreakpoint(Ask::Read) => {
                StartupReply::Talk(piece(answer))
            }
        };
        match s.take(d, reply) {
            Progress::More(t) => s = t,
            Progress::Done(r) => return (asked, r),
        }
    }
}

const VM: &str = "vm qemu-system-x86_64 -qmp unix:external-tests.sock,server,nowait -d int -D log -s -S /Users/foxy/Documents/OS/bootloader/build/boot.img";

#[test]
fn startup_in_order() {
    let mut d = Debugger::new("gdb", strings(&["k.elf"]));
    d.before("set architecture a");
    d.before("target remote b");
    d.breakpoint("one");
    d.breakpoint("two");
    let (asked, r) = start(&mut d, "^done\n(gdb) \n");
    assert_eq!(r, Ok(()));
    assert_eq!(
        asked,
        vec![
            VM,
            "debugger gdb -interpreter mi k.elf",
            "watch",
            "wait 200",
            "run set architecture a",
            "run target remote b",
            "set b one",
            "set b two",
        ]
    );
    assert_eq!(d.send("x"), Ok("x".to_string()));
    let l: Launch = d.launch();
    assert!(l.kill_on_drop);
    assert_eq!((l.stdin, l.stdout, l.stderr), (Connection::Piped, Connection::Piped, Connection::Inherited));
    assert!(d.vm_launch().program == "qemu-system-x86_64");
}

#[test]
fn startup_without_anything_to_send() {
    let mut d = Debugger::new("gdb", vec![]);
    let (asked, r) = start(&mut d, "");
    assert_eq!(r, Ok(()));
    assert_eq!(asked, vec![VM, "debugger gdb -interpreter mi", "watch", "wait 200"]);
}

#[test]
fn startups_that_fail() {
    let mut d = Debugger::new("none", vec![]);
    let (asked, r) = start(&mut d, "");
    assert_eq!(r, Err("Cant start debugger".to_string()));
    assert_eq!(asked.len(), 2);
    assert!(d.send("x").is_err());
    let mut d = Debugger::new("gdb", vec![]);
    d.before("a");
    d.before("b");
    let (asked, r) = start(&mut d, "^error,(gdb)");
    assert_eq!(r, Err("^error,(gdb)".to_string()));
    assert_eq!(asked.last().unwrap(), "run a");
    let mut d = Debugger::new("gdb", vec![]);
    d.before("a");
    d.breakpoint("main");
    let (asked, r) = start(&mut d, "&\"error\"(gdb)");
    assert_eq!(r, Err("Could not set breakpoint main".to_string()));
    assert_eq!(asked.last().unwrap(), "set b main");
}

#[test]
fn commands_are_handed_on() {
    let mut d = Debugger::new("gdb", vec![]);
    attached(&mut d);
    let w = d.watch();
    assert!(matches!(w.ask(), WatcherAsk::Read));
    let w = w.take(WatcherReply::Piece("GNU gdb\n".to_string())).unwrap();
    let w = w.take(WatcherReply::Piece("(gdb) ".to_string())).unwrap();
    assert!(matches!(w.ask(), WatcherAsk::NextCommand));
    let w = w.take(WatcherReply::Command("b main".to_string())).unwrap();
    assert!(matches!(w.ask(), WatcherAsk::Write(l) if l == "b main\n"));
    let w = w.take(WatcherReply::Done).unwrap();
    let w = w.take(WatcherReply::Command("stop".to_string())).unwrap();
    assert!(matches!(w.ask(), WatcherAsk::Kill));
    let w = w.take(WatcherReply::Done).unwrap();
    assert!(matches!(w.ask(), WatcherAsk::NextCommand));
    assert!(w.take(WatcherReply::Closed).is_none());
}

/// A run of the tests `a` and `b`, stopped at each of `stops`.
fn run(stops: &[Option<&str>]) -> String {
    let mut run = TestRun::new(strings(&["a", "b"]), "panic".to_string(), "end".to_string());
    assert_eq!(run.running(), "");
    for stop in stops {
        let stop = match stop {
            Some(s) => Ok(s.to_string()),
            None => Err("lost".to_string()),
        };
        match run.take(stop) {
            Progress::More(r) => run = r,
            Progress::Done(Ok(Ok(r))) => return format!("passed {:?}", r),
            Progress::Done(Ok(Err(r))) => return format!("failed {:?}", r),
            Progress::Done(Err(e)) => return format!("broken {}", e),
        }
    }
    format!("running {}", run.running())
}

#[test]
fn runs_of_tests() {
    assert_eq!(run(&[]), "running ");
    assert_eq!(run(&[Some("a"), Some("b")]), "running b");
    assert_eq!(
        run(&[Some("a"), Some("b"), Some("end")]),
        "passed Recap { failed: false, recap: [(0, SUCCESS(\"a\")), (0, SUCCESS(\"b\"))] }"
    );
    assert_eq!(
        run(&[Some("b"), Some("a"), Some("end")]),
        "passed Recap { failed: false, recap: [(0, SUCCESS(\"b\")), (0, SUCCESS(\"a\"))] }"
    );
    assert_eq!(
        run(&[Some("a"), Some("end")]),
        "failed Recap { failed: false, recap: [(0, SUCCESS(\"a\"))] }"
    );
    assert_eq!(run(&[Some("end")]), "failed Recap { failed: false, recap: [(0, SUCCESS(\"\"))] }");
    assert_eq!(
        run(&[Some("a"), Some("b"), Some("panic")]),
        "failed Recap { failed: false, recap: [(0, SUCCESS(\"a\")), (0, FATAL(\"b\"))] }"
    );
    assert_eq!(run(&[Some("panic")]), "broken Panic occurred before any test");
    assert_eq!(run(&[None]), "broken lost");
    assert_eq!(run(&[Some("a"), Some("b"), None]), "broken lost");
}

/// Goes through a session of the test `one`, and notes the commands that are
/// sent; the debugger gives one of `answers` after the other.
fn session(answers: &[&str]) -> (Vec<String>, String) {
    let mut d = Debugger::new("gdb", strings(&["k.elf"]));
    d.before("target remote b");
    d.register_test("one");
    d.register_panic("panic");
    d.register_gateway("end");
    let mut s: Session = d.test();
    let mut sent = Vec::new();
    let mut answers = answers.iter();
    loop {
        let reply = match s.ask(&d) {
            SessionAsk::Start(StartupAsk::RunCommand(ask)) | SessionAsk::Start(StartupAsk::SetBreakpoint(ask)) => {
                SessionReply::Start(StartupReply::Talk(talk(ask, &mut sent, &mut answers)))
            }
            SessionAsk::Start(_) => SessionReply::Start(StartupReply::Done),
            SessionAsk::Talk(ask) => SessionReply::Talk(talk(ask, &mut sent, &mut answers)),
        };
        match s.take(&mut d, reply) {
            Course::More(next) => s = next,
            Course::Over(Ok(Ok(r))) => return (sent, format!("passed {:?}", r)),
            Course::Over(Ok(Err(r))) => return (sent, format!("failed {:?}", r)),
            Course::Over(Err(e)) => return (sent, format!("broken {}", e)),
            Course::Lost(m) => return (sent, format!("lost {}", m)),
        }
    }
}

fn talk(ask: Ask, sent: &mut Vec<String>, answers: &mut std::slice::Iter<&str>) -> Reply {
    match ask {
        Ask::Send(c) => {
            sent.push(c);
            Reply::Sent
        }
        Ask::Read => piece(answers.next().unwrap()),
    }
}

#[test]
fn sessions() {
    let ok = "^done\n(gdb) \n";
    let go = "^running\n(gdb) \n";
    let at = |n: usize| format!("*stopped,bkptno=\"{}\",stopped-threads=\"all\"\n(gdb) \n", n);
    let (first, last, panicked) = (at(1), at(3), at(2));
    let (sent, outcome) = session(&[ok, ok, ok, ok, go, &first, go, &last]);
    assert_eq!(sent, vec!["target remote b", "b one", "b panic", "b end", "c", "c"]);
    assert_eq!(outcome, "passed Recap { failed: false, recap: [(0, SUCCESS(\"one\"))] }");
    let (_, outcome) = session(&[ok, ok, ok, ok, go, &first, go, &panicked]);
    assert_eq!(outcome, "failed Recap { failed: false, recap: [(0, FATAL(\"one\"))] }");
    let (sent, outcome) = session(&["^error(gdb)"]);
    assert_eq!(sent, vec!["target remote b"]);
    assert_eq!(outcome, "broken ^error(gdb)");
    let (sent, outcome) = session(&[ok, "error (gdb)"]);
    assert_eq!(sent, vec!["target remote b", "b one"]);
    assert_eq!(outcome, "broken Could not set breakpoint one");
    let (_, outcome) = session(&[ok, ok, ok, ok, "^error(gdb)"]);
    assert_eq!(outcome, "broken ^error(gdb)");
    let (_, outcome) = session(&[ok, ok, ok, ok, go, &at(4)]);
    assert_eq!(outcome, "broken Unknown breakpoint");
    let (_, outcome) = session(&[ok, ok, ok, ok, go, "*exited(gdb)"]);
    assert_eq!(outcome, "lost *exited(gdb)");
}
