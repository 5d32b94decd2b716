//! Laws of the runs of tests, and of what they are told and tell.
use crate::instances::debugger::{debugged_vm, debugger_launch, DebuggerView};
use crate::instances::decoding::{
    beginning_is_readable, readable, rest, whole, whole_is_valid, whole_then,
};
use crate::instances::dialog::Progress;
use crate::instances::launch::{Connection, CHANNEL_SIZE};
use crate::instances::qemu::{qemu_launch, watch_next, QemuView, Watch};
use crate::instances::reading::{End, EndView, PROMPT, READ_SIZE};
use crate::instances::recap::{ActionResult, ActionResultView, Recap, RecapView};
use crate::instances::run::{
    gateway_ends_run, panic_ends_run, reached, run_after, run_next, standing, stop_view, Plan,
    Standing, TestRun, TestRunView, Verdict,
};
use crate::instances::session::{Course, CourseView, Session};
use crate::instances::startup::SETTLING_TIME;
use vstd::prelude::*;
use vstd::utf8::*;

verus! {

/// `names` are breakpoints of tests: they have a name, and are neither that of
/// the panic handler nor that of the gateway.
pub open spec fn test_names(plan: Plan, names: Seq<Seq<char>>) -> bool {
    forall|i: int|
        0 <= i < names.len() ==> {
            &&& (#[trigger] names[i]).len() > 0
            &&& names[i] != plan.panic_ref
            &&& names[i] != plan.end_ref
        }
}

/// The debugger stopped at each of `names`.
pub open spec fn stopped(names: Seq<Seq<char>>) -> Seq<Result<Seq<char>, Seq<char>>> {
    Seq::new(names.len(), |i: int| Ok::<Seq<char>, Seq<char>>(names[i]))
}

/// A recap that notes the success of each of `names`, in order, and nothing
/// else.
pub open spec fn notes(recap: RecapView, names: Seq<Seq<char>>) -> bool {
    &&& !recap.failed
    &&& recap.entries.len() == names.len()
    &&& forall|i: int|
        0 <= i < names.len() ==> #[trigger] recap.entries[i] == (
            0u8,
            ActionResultView::SUCCESS(names[i]),
        )
}

/// Tests that are reached, and then the gateway: each of them was successful,
/// and the run is passed exactly where every registered test is among them.
pub proof fn run_to_gateway(plan: Plan, names: Seq<Seq<char>>)
    requires
        test_names(plan, names),
        names.len() > 0,
        plan.end_ref != plan.panic_ref,
    ensures
        match run_after(plan, stopped(names).push(Ok(plan.end_ref))) {
            Standing::Over(Verdict::Passed(recap)) => notes(recap, names) && forall|i: int|
                0 <= i < plan.tests.len() ==> exists|j: int|
                    0 <= j < names.len() && #[trigger] names[j] == #[trigger] plan.tests[i],
            Standing::Over(Verdict::Failed(recap)) => notes(recap, names) && exists|i: int|
                0 <= i < plan.tests.len() && forall|j: int|
                    0 <= j < names.len() ==> #[trigger] names[j] != #[trigger] plan.tests[i],
            _ => false,
        },
{
    gateway_ends_run(plan, names);
    assert(reached(names.push(plan.end_ref)) == stopped(names).push(Ok(plan.end_ref)));
    if crate::instances::run::all_successful(plan.tests, names) {
        assert forall|i: int| 0 <= i < plan.tests.len() implies exists|j: int|
            0 <= j < names.len() && #[trigger] names[j] == #[trigger] plan.tests[i] by {
            assert(names.contains(plan.tests[i]));
        }
    } else {
        let i = choose|i: int|
            0 <= i < plan.tests.len() && !names.contains(#[trigger] plan.tests[i]);
        assert forall|j: int| 0 <= j < names.len() implies #[trigger] names[j]
            != plan.tests[i] by {}
    }
}

/// Tests that are reached, and then the panic handler: the last of them
/// panicked, those before it were successful, and the run is failed. A panic
/// before any test is an error.
pub proof fn run_to_panic(plan: Plan, names: Seq<Seq<char>>, last: Seq<char>)
    requires
        test_names(plan, names.push(last)),
    ensures
        ({
            let recap = run_after(plan, stopped(names.push(last)).push(Ok(plan.panic_ref)));
            &&& recap matches Standing::Over(Verdict::Failed(recap))
            &&& !recap.failed
            &&& recap.entries.len() == names.len() + 1
            &&& recap.entries.last() == (0u8, ActionResultView::FATAL(last))
            &&& forall|i: int|
                0 <= i < names.len() ==> #[trigger] recap.entries[i] == (
                    0u8,
                    ActionResultView::SUCCESS(names[i]),
                )
        }),
        run_after(plan, seq![Ok(plan.panic_ref)]) == Standing::Over(
            Verdict::Broken("Panic occurred before any test"@),
        ),
{
    let all = names.push(last);
    panic_ends_run(plan, all);
    assert(reached(all.push(plan.panic_ref)) == stopped(all).push(Ok(plan.panic_ref)));
    assert(all.drop_last() == names);
    let none = Seq::<Seq<char>>::empty();
    panic_ends_run(plan, none);
    assert(reached(none.push(plan.panic_ref)) == seq![
        Ok::<Seq<char>, Seq<char>>(plan.panic_ref),
    ]);
}

/// One stop of a run, whatever it is at: an error ends it; at a breakpoint that
/// is neither that of the panic handler nor that of the gateway the test before
/// it, if there was one, was successful, and the one at the breakpoint runs. At
/// the panic handler that test panicked; at the gateway it was successful, and
/// the run is passed exactly where every registered test is among those that
/// were.
pub proof fn one_stop(plan: Plan, run: TestRunView, bp: Seq<char>, e: Seq<char>)
    ensures
        run_next(plan, run, Err(e)) == Standing::Over(Verdict::Broken(e)),
        bp != plan.panic_ref && bp != plan.end_ref ==> {
            &&& run_next(plan, run, Ok(bp)) matches Standing::More(next)
            &&& next.last == bp
            &&& next.recap.failed == run.recap.failed
            &&& run.last.len() == 0 ==> next.successful == run.successful && next.recap
                == run.recap
            &&& run.last.len() > 0 ==> next.successful == run.successful.push(run.last)
                && next.recap.entries == run.recap.entries.push(
                (0u8, ActionResultView::SUCCESS(run.last)),
            )
        },
        run_next(plan, run, Ok(plan.panic_ref)) == Standing::Over(
            if run.last.len() == 0 {
                Verdict::Broken("Panic occurred before any test"@)
            } else {
                Verdict::Failed(
                    RecapView {
                        failed: run.recap.failed,
                        entries: run.recap.entries.push((0u8, ActionResultView::FATAL(run.last))),
                    },
                )
            },
        ),
        plan.end_ref != plan.panic_ref ==> run_next(plan, run, Ok(plan.end_ref)) == Standing::Over(
            {
                let recap = RecapView {
                    failed: run.recap.failed,
                    entries: run.recap.entries.push((0u8, ActionResultView::SUCCESS(run.last))),
                };
                if forall|i: int|
                    0 <= i < plan.tests.len() ==> run.successful.push(run.last).contains(
                        #[trigger] plan.tests[i],
                    ) {
                    Verdict::Passed(recap)
                } else {
                    Verdict::Failed(recap)
                }
            },
        ),
        run_after(plan, Seq::empty()) matches Standing::More(first) && first.last.len() == 0
            && first.successful.len() == 0 && first.recap.entries.len() == 0
            && !first.recap.failed,
{
}

/// What a run and a session tell is what its view says.
pub proof fn outcomes(recap: Recap, e: String, run: TestRun, session: Session)
    ensures
        standing(Progress::Done(Ok(Ok(recap)))) == Standing::Over(Verdict::Passed(recap@)),
        standing(Progress::Done(Ok(Err(recap)))) == Standing::Over(Verdict::Failed(recap@)),
        standing(Progress::Done(Err(e))) == Standing::Over(Verdict::Broken(e@)),
        standing(Progress::More(run)) == Standing::More(run@),
        Course::Over(Ok(Ok(recap)))@ == CourseView::Over(Verdict::Passed(recap@)),
        Course::Over(Ok(Err(recap)))@ == CourseView::Over(Verdict::Failed(recap@)),
        Course::Over(Err(e))@ == CourseView::Over(Verdict::Broken(e@)),
        Course::More(session)@ == CourseView::More(session@),
        Course::Lost(e)@ == CourseView::Lost(e@),
        stop_view(Ok(e)) == Ok::<Seq<char>, Seq<char>>(e@),
        stop_view(Err(e)) == Err::<Seq<char>, Seq<char>>(e@),
        ActionResult::SUCCESS(e)@ == ActionResultView::SUCCESS(e@),
        ActionResult::FAILED(e)@ == ActionResultView::FAILED(e@),
        ActionResult::SATISFYING(e)@ == ActionResultView::SATISFYING(e@),
        ActionResult::FATAL(e)@ == ActionResultView::FATAL(e@),
        ActionResult::LOG(e)@ == ActionResultView::LOG(e@),
        ActionResult::SKIP@ == ActionResultView::SKIP,
        End::Pattern(e)@ == EndView::Pattern(e@),
        End::Line@ == EndView::Line,
{
}

/// How the two programs are started: with fixed arguments before their own.
pub proof fn launches(qemu: QemuView, d: DebuggerView)
    ensures
        qemu_launch(qemu).program == qemu.binary,
        qemu_launch(qemu).args.len() == 6 + qemu.args.len(),
        qemu_launch(qemu).args.take(6) == seq![
            "-qmp"@,
            "unix:external-tests.sock,server,nowait"@,
            "-d"@,
            "int"@,
            "-D"@,
            "log"@,
        ],
        qemu_launch(qemu).args.skip(6) == qemu.args,
        qemu_launch(qemu).kill_on_drop,
        qemu_launch(qemu).stdin == Connection::Inherited,
        qemu_launch(qemu).stdout == Connection::Piped,
        qemu_launch(qemu).stderr == Connection::Null,
        debugger_launch(d).program == d.binary,
        debugger_launch(d).args.len() == 2 + d.args.len(),
        debugger_launch(d).args.take(2) == seq!["-interpreter"@, "mi"@],
        debugger_launch(d).args.skip(2) == d.args,
        debugger_launch(d).kill_on_drop,
        debugger_launch(d).stdin == Connection::Piped,
        debugger_launch(d).stdout == Connection::Piped,
        debugger_launch(d).stderr == Connection::Inherited,
{
    assert(qemu_launch(qemu).args.skip(6) == qemu.args);
    assert(debugger_launch(d).args.skip(2) == d.args);
}

/// The virtual machine that is debugged waits for the debugger before it boots.
pub proof fn debugged_machine()
    ensures
        debugged_vm().binary == "qemu-system-x86_64"@,
        debugged_vm().args == seq![
            "-s"@,
            "-S"@,
            "/Users/foxy/Documents/OS/bootloader/build/boot.img"@,
        ],
        !debugged_vm().running,
{
}

/// The instruction zero kills an instance; any other is passed over.
pub proof fn zero_kills(instruction: u8)
    ensures
        watch_next(Some(0)) == Watch::Kill,
        instruction != 0 ==> watch_next(Some(instruction)) == Watch::Wait,
        watch_next(None) == Watch::End,
        crate::instances::qemu::KILL == 0,
{
}

/// The sizes and times that are agreed on.
pub proof fn agreed()
    ensures
        READ_SIZE == 30,
        CHANNEL_SIZE == 10,
        SETTLING_TIME == 200,
        PROMPT@ == "(gdb)"@,
{
}

/// The whole characters of some bytes are the longest beginning of them that is
/// valid; the rest is what stands behind it.
pub proof fn whole_is_longest(bytes: Seq<u8>, n: int)
    ensures
        whole(bytes) + rest(bytes) == bytes,
        valid_utf8(whole(bytes)),
        0 <= n <= bytes.len() && valid_utf8(bytes.take(n)) ==> n <= whole(bytes).len(),
{
    whole_is_valid(bytes);
    if 0 <= n <= bytes.len() && valid_utf8(bytes.take(n)) {
        assert(bytes == bytes.take(n) + bytes.skip(n));
        whole_then(bytes.take(n), bytes.skip(n));
        whole_is_valid(bytes.skip(n));
    }
}

/// `bytes` are the first byte of a character that has `width` bytes, and some,
/// but not all, of the bytes that continue it.
pub open spec fn part_of_character(bytes: Seq<u8>, width: int) -> bool {
    &&& 1 <= bytes.len() < width <= 4
    &&& width == 2 ==> 0xc0 <= bytes[0] <= 0xdf
    &&& width == 3 ==> 0xe0 <= bytes[0] <= 0xef
    &&& width == 4 ==> 0xf0 <= bytes[0] <= 0xf7
    &&& forall|i: int| 1 <= i < bytes.len() ==> 0x80 <= #[trigger] bytes[i] <= 0xbf
}

/// The beginning of any text can be read. Bytes that can be read are whole
/// characters, and then nothing or a part of one.
pub proof fn readable_beginnings(bytes: Seq<u8>, more: Seq<u8>)
    ensures
        valid_utf8(bytes + more) ==> readable(bytes),
        readable(bytes) <==> rest(bytes).len() == 0 || exists|width: int|
            part_of_character(rest(bytes), width),
{
    if valid_utf8(bytes + more) {
        beginning_is_readable(bytes, more);
    }
    let tail = rest(bytes);
    if readable(bytes) && tail.len() > 0 {
        if is_leading_byte_width_2(tail[0]) {
            assert(part_of_character(tail, 2));
        } else if is_leading_byte_width_3(tail[0]) {
            assert(part_of_character(tail, 3));
        } else {
            assert(part_of_character(tail, 4));
        }
    }
    if exists|width: int| part_of_character(tail, width) {
        let width = choose|width: int| part_of_character(tail, width);
        assert(tail.len() == 1 || tail.len() == 2 || tail.len() == 3);
        if tail.len() > 1 {
            assert(is_continuation_byte(tail[1]));
        }
        if tail.len() > 2 {
            assert(is_continuation_byte(tail[2]));
        }
    }
}

} // verus!
