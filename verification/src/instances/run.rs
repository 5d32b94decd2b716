//! A run of the tests: the debugger is stopped at one breakpoint after the
//! other, and what became of each test is told from where it stops next.
use crate::instances::dialog::Progress;
use crate::instances::recap::{ActionResult, ActionResultView, Recap, RecapView};
use crate::text::views;
use vstd::prelude::*;

verus! {

/// What a run is told: the tests, and the breakpoints that are none.
pub struct Plan {
    /// The breakpoints of the tests.
    pub tests: Seq<Seq<char>>,
    /// The breakpoint of the panic handler.
    pub panic_ref: Seq<char>,
    /// The breakpoint that is reached if the last test is successful.
    pub end_ref: Seq<char>,
}

/// A run of the tests.
#[verifier::ext_equal]
pub struct TestRunView {
    /// The tests that were successful.
    pub successful: Seq<Seq<char>>,
    pub recap: RecapView,
    /// The test that is running; empty where none is.
    pub last: Seq<char>,
}

/// A run in which nothing was reached yet.
pub open spec fn fresh() -> TestRunView {
    TestRunView {
        successful: Seq::empty(),
        recap: RecapView { failed: false, entries: Seq::empty() },
        last: Seq::empty(),
    }
}

/// The recap with the success of a test noted.
pub open spec fn noted_success(recap: RecapView, test: Seq<char>) -> RecapView {
    RecapView { entries: recap.entries.push((0, ActionResultView::SUCCESS(test))), ..recap }
}

/// The recap with a test noted that panicked.
pub open spec fn noted_panic(recap: RecapView, test: Seq<char>) -> RecapView {
    RecapView { entries: recap.entries.push((0, ActionResultView::FATAL(test))), ..recap }
}

/// Each of `tests` is among those that were successful.
pub open spec fn all_successful(tests: Seq<Seq<char>>, successful: Seq<Seq<char>>) -> bool {
    forall|i: int| 0 <= i < tests.len() ==> successful.contains(#[trigger] tests[i])
}

/// How a run ends.
pub enum Verdict {
    /// Every test was successful.
    Passed(RecapView),
    /// A test panicked, or one never ran.
    Failed(RecapView),
    /// An error occurred: the run could not go on, or there is nothing to
    /// recap.
    Broken(Seq<char>),
}

/// Where a run stands.
pub enum Standing {
    More(TestRunView),
    Over(Verdict),
}

/// A run after the debugger stopped at a breakpoint, or could not go on.
pub open spec fn run_next(
    plan: Plan,
    run: TestRunView,
    stop: Result<Seq<char>, Seq<char>>,
) -> Standing {
    match stop {
        Err(e) => Standing::Over(Verdict::Broken(e)),
        Ok(bp) => if bp == plan.panic_ref {
            if run.last.len() == 0 {
                Standing::Over(Verdict::Broken("Panic occurred before any test"@))
            } else {
                Standing::Over(Verdict::Failed(noted_panic(run.recap, run.last)))
            }
        } else if bp == plan.end_ref {
            let recap = noted_success(run.recap, run.last);
            if all_successful(plan.tests, run.successful.push(run.last)) {
                Standing::Over(Verdict::Passed(recap))
            } else {
                Standing::Over(Verdict::Failed(recap))
            }
        } else if run.last.len() > 0 {
            Standing::More(
                TestRunView {
                    successful: run.successful.push(run.last),
                    recap: noted_success(run.recap, run.last),
                    last: bp,
                },
            )
        } else {
            Standing::More(TestRunView { last: bp, ..run })
        },
    }
}

/// A run of the tests.
pub struct TestRun {
    tests: Vec<String>,
    panic_ref: String,
    end_ref: String,
    successful: Vec<String>,
    recap: Recap,
    last: String,
}

impl View for TestRun {
    type V = TestRunView;

    closed spec fn view(&self) -> TestRunView {
        TestRunView {
            successful: views(self.successful@),
            recap: self.recap@,
            last: self.last@,
        }
    }
}

/// Where a run stands, as its owner is told.
pub open spec fn standing(r: Progress<TestRun, Result<Recap, Recap>>) -> Standing {
    match r {
        Progress::More(run) => Standing::More(run@),
        Progress::Done(Ok(Ok(recap))) => Standing::Over(Verdict::Passed(recap@)),
        Progress::Done(Ok(Err(recap))) => Standing::Over(Verdict::Failed(recap@)),
        Progress::Done(Err(e)) => Standing::Over(Verdict::Broken(e@)),
    }
}

/// Where the debugger stopped, or why it could not go on.
pub open spec fn stop_view(stop: Result<String, String>) -> Result<Seq<char>, Seq<char>> {
    match stop {
        Ok(bp) => Ok(bp@),
        Err(e) => Err(e@),
    }
}

/// Whether `s` is among `strings`.
fn is_among(strings: &Vec<String>, s: &String) -> (r: bool)
    ensures
        r == views(strings@).contains(s@),
{
    let mut i: usize = 0;
    while i < strings.len()
        invariant
            i <= strings@.len(),
            forall|j: int| 0 <= j < i ==> (#[trigger] strings@[j])@ != s@,
        decreases strings@.len() - i,
    {
        if strings[i] == *s {
            assert(views(strings@)[i as int] == s@);
            return true;
        }
        i = i + 1;
    }
    assert forall|j: int| 0 <= j < views(strings@).len() implies views(strings@)[j] != s@ by {
        assert(views(strings@)[j] == strings@[j]@);
    }
    false
}

/// Whether each of `tests` is among those that were successful.
fn are_all_among(tests: &Vec<String>, successful: &Vec<String>) -> (r: bool)
    ensures
        r == all_successful(views(tests@), views(successful@)),
{
    let mut i: usize = 0;
    while i < tests.len()
        invariant
            i <= tests@.len(),
            forall|j: int|
                0 <= j < i ==> views(successful@).contains(#[trigger] views(tests@)[j]),
        decreases tests@.len() - i,
    {
        assert(views(tests@)[i as int] == tests@[i as int]@);
        if !is_among(successful, &tests[i]) {
            return false;
        }
        i = i + 1;
    }
    true
}

impl TestRun {
    /// What the run was told.
    pub closed spec fn plan(&self) -> Plan {
        Plan { tests: views(self.tests@), panic_ref: self.panic_ref@, end_ref: self.end_ref@ }
    }

    /// A run in which nothing was reached yet.
    pub fn new(tests: Vec<String>, panic_ref: String, end_ref: String) -> (r: Self)
        ensures
            r@ == fresh(),
            r.plan() == (Plan {
                tests: views(tests@),
                panic_ref: panic_ref@,
                end_ref: end_ref@,
            }),
    {
        let r = TestRun {
            tests,
            panic_ref,
            end_ref,
            successful: Vec::new(),
            recap: Recap::new(),
            last: String::new(),
        };
        assert(r@ =~= fresh());
        r
    }

    /// The test that is running; empty where none is.
    pub fn running(&self) -> (r: &str)
        ensures
            r@ == self@.last,
    {
        self.last.as_str()
    }

    /// Goes on with where the debugger stopped, or why it could not go on.
    pub fn take(self, stop: Result<String, String>) -> (r: Progress<TestRun, Result<Recap, Recap>>)
        ensures
            standing(r) == run_next(self.plan(), self@, stop_view(stop)),
            r matches Progress::More(run) ==> run.plan() == self.plan(),
    {
        let TestRun { tests, panic_ref, end_ref, successful, recap, last } = self;
        let mut successful = successful;
        let mut recap = recap;
        let ghost before = views(successful@);
        let bp = match stop {
            Ok(bp) => bp,
            Err(e) => {
                return Progress::Done(Err(e));
            },
        };
        if bp == panic_ref {
            if last.as_str().is_empty() {
                return Progress::Done(Err("Panic occurred before any test".to_string()));
            }
            recap.push(0, ActionResult::FATAL(last));
            return Progress::Done(Ok(Err(recap)));
        }
        if bp == end_ref {
            recap.push(0, ActionResult::SUCCESS(last.clone()));
            successful.push(last);
            assert(views(successful@) == before.push(last@));
            return if are_all_among(&tests, &successful) {
                Progress::Done(Ok(Ok(recap)))
            } else {
                Progress::Done(Ok(Err(recap)))
            };
        }
        if !last.as_str().is_empty() {
            recap.push(0, ActionResult::SUCCESS(last.clone()));
            successful.push(last);
            assert(views(successful@) == before.push(last@));
        }
        Progress::More(TestRun { tests, panic_ref, end_ref, successful, recap, last: bp })
    }
}

/// A run after the debugger stopped at `stops`, one after the other, or could
/// not go on.
pub open spec fn run_after(plan: Plan, stops: Seq<Result<Seq<char>, Seq<char>>>) -> Standing
    decreases stops.len(),
{
    if stops.len() == 0 {
        Standing::More(fresh())
    } else {
        match run_after(plan, stops.drop_last()) {
            Standing::More(run) => run_next(plan, run, stops.last()),
            Standing::Over(verdict) => Standing::Over(verdict),
        }
    }
}

/// The breakpoints of `names` were reached.
pub open spec fn reached(names: Seq<Seq<char>>) -> Seq<Result<Seq<char>, Seq<char>>> {
    names.map_values(|name: Seq<char>| Ok::<Seq<char>, Seq<char>>(name))
}

/// `stops` are breakpoints of tests, not that of the panic handler or of the
/// gateway.
pub open spec fn are_tests(plan: Plan, stops: Seq<Seq<char>>) -> bool {
    forall|i: int|
        0 <= i < stops.len() ==> (#[trigger] stops[i]).len() > 0 && stops[i] != plan.panic_ref
            && stops[i] != plan.end_ref
}

/// The entries of a recap for tests that were successful.
pub open spec fn successes(tests: Seq<Seq<char>>) -> Seq<(u8, ActionResultView)> {
    tests.map_values(|test: Seq<char>| (0u8, ActionResultView::SUCCESS(test)))
}

/// A recap of these entries, of a run that was not aborted.
pub open spec fn recap_of(entries: Seq<(u8, ActionResultView)>) -> RecapView {
    RecapView { failed: false, entries }
}

/// While tests are reached, each is successful when the next one is reached.
pub proof fn reached_next_is_success(plan: Plan, stops: Seq<Seq<char>>)
    requires
        are_tests(plan, stops),
    ensures
        stops.len() == 0 ==> run_after(plan, reached(stops)) == Standing::More(fresh()),
        stops.len() > 0 ==> run_after(plan, reached(stops)) == Standing::More(
            TestRunView {
                successful: stops.drop_last(),
                recap: recap_of(successes(stops.drop_last())),
                last: stops.last(),
            },
        ),
    decreases stops.len(),
{
    if stops.len() > 0 {
        let front = stops.drop_last();
        assert forall|i: int| 0 <= i < front.len() implies (#[trigger] front[i]).len() > 0
            && front[i] != plan.panic_ref && front[i] != plan.end_ref by {
            assert(front[i] == stops[i]);
        }
        reached_next_is_success(plan, front);
        assert(reached(stops).drop_last() == reached(front));
        assert(stops.last() == stops[stops.len() - 1]);
        if front.len() == 0 {
            assert(front == Seq::<Seq<char>>::empty());
            assert(successes(front) == fresh().recap.entries);
        } else {
            assert(front.last() == stops[stops.len() - 2]);
            assert(front.drop_last().push(front.last()) == front);
            assert(successes(front.drop_last()).push(
                (0u8, ActionResultView::SUCCESS(front.last())),
            ) == successes(front));
        }
    }
}

/// When the gateway is reached after some tests, each of them was successful;
/// the run is passed where every registered test is among them, else it is
/// failed.
pub proof fn gateway_ends_run(plan: Plan, stops: Seq<Seq<char>>)
    requires
        are_tests(plan, stops),
        stops.len() > 0,
        plan.end_ref != plan.panic_ref,
    ensures
        run_after(plan, reached(stops.push(plan.end_ref))) == Standing::Over(
            if all_successful(plan.tests, stops) {
                Verdict::Passed(recap_of(successes(stops)))
            } else {
                Verdict::Failed(recap_of(successes(stops)))
            },
        ),
{
    reached_next_is_success(plan, stops);
    let all = stops.push(plan.end_ref);
    assert(reached(all).drop_last() == reached(stops));
    assert(stops.drop_last().push(stops.last()) == stops);
    assert(successes(stops.drop_last()).push((0u8, ActionResultView::SUCCESS(stops.last())))
        == successes(stops));
}

/// When the panic handler is reached after some tests, the last of them
/// panicked: the run is failed, and the tests before it were successful. Where
/// no test was reached before, there is nothing to recap.
pub proof fn panic_ends_run(plan: Plan, stops: Seq<Seq<char>>)
    requires
        are_tests(plan, stops),
    ensures
        run_after(plan, reached(stops.push(plan.panic_ref))) == Standing::Over(
            if stops.len() == 0 {
                Verdict::Broken("Panic occurred before any test"@)
            } else {
                Verdict::Failed(
                    recap_of(
                        successes(stops.drop_last()).push(
                            (0u8, ActionResultView::FATAL(stops.last())),
                        ),
                    ),
                )
            },
        ),
{
    reached_next_is_success(plan, stops);
    assert(reached(stops.push(plan.panic_ref)).drop_last() == reached(stops));
    if stops.len() > 0 {
        assert(stops[stops.len() - 1] == stops.last());
    }
}

/// A run in which each registered test is reached in order, and then the
/// gateway, is passed, with one success for each test.
pub proof fn all_tests_pass(plan: Plan)
    requires
        are_tests(plan, plan.tests),
        plan.tests.len() > 0,
        plan.end_ref != plan.panic_ref,
    ensures
        run_after(plan, reached(plan.tests.push(plan.end_ref))) == Standing::Over(
            Verdict::Passed(recap_of(successes(plan.tests))),
        ),
{
    gateway_ends_run(plan, plan.tests);
}

/// The recap of a run notes the success of each test that was successful, and
/// nothing else.
pub open spec fn recaps_successes(run: TestRunView) -> bool {
    run.recap == recap_of(successes(run.successful))
}

/// Every registered test is noted in a recap as successful.
pub open spec fn notes_all(plan: Plan, recap: RecapView) -> bool {
    forall|i: int|
        0 <= i < plan.tests.len() ==> recap.entries.contains(
            (0u8, ActionResultView::SUCCESS(#[trigger] plan.tests[i])),
        )
}

/// One step of a run: what was successful is noted, and a run is passed only at
/// the gateway, once every registered test was successful.
pub proof fn passed_at_gateway(
    plan: Plan,
    run: TestRunView,
    stop: Result<Seq<char>, Seq<char>>,
)
    requires
        recaps_successes(run),
    ensures
        run_next(plan, run, stop) matches Standing::More(next) ==> recaps_successes(next),
        run_next(plan, run, stop) matches Standing::Over(Verdict::Passed(recap)) ==> {
            &&& stop == Ok::<Seq<char>, Seq<char>>(plan.end_ref)
            &&& all_successful(plan.tests, run.successful.push(run.last))
            &&& recap == recap_of(successes(run.successful.push(run.last)))
            &&& notes_all(plan, recap)
        },
{
    let successful = run.successful.push(run.last);
    assert(successes(run.successful).push((0u8, ActionResultView::SUCCESS(run.last))) == successes(
        successful,
    ));
    if all_successful(plan.tests, successful) {
        assert forall|i: int| 0 <= i < plan.tests.len() implies successes(successful).contains(
            (0u8, ActionResultView::SUCCESS(#[trigger] plan.tests[i])),
        ) by {
            assert(successful.contains(plan.tests[i]));
            let k = choose|k: int| 0 <= k < successful.len() && successful[k] == plan.tests[i];
            assert(successes(successful)[k] == (
                0u8,
                ActionResultView::SUCCESS(plan.tests[i]),
            ));
        }
    }
}

/// However a run went, it is passed only if every registered test was
/// successful, and its recap notes the success of each of them.
pub proof fn passed_means_all_successful(plan: Plan, stops: Seq<Result<Seq<char>, Seq<char>>>)
    ensures
        run_after(plan, stops) matches Standing::More(run) ==> recaps_successes(run),
        run_after(plan, stops) matches Standing::Over(Verdict::Passed(recap)) ==> notes_all(
            plan,
            recap,
        ),
    decreases stops.len(),
{
    if stops.len() == 0 {
        assert(fresh().recap.entries == successes(fresh().successful));
    } else {
        passed_means_all_successful(plan, stops.drop_last());
        if let Standing::More(run) = run_after(plan, stops.drop_last()) {
            passed_at_gateway(plan, run, stops.last());
        }
    }
}

/// An error ends a run with that error.
pub proof fn error_ends_run(plan: Plan, stops: Seq<Result<Seq<char>, Seq<char>>>, e: Seq<char>)
    requires
        run_after(plan, stops) is More,
    ensures
        run_after(plan, stops.push(Err(e))) == Standing::Over(Verdict::Broken(e)),
{
    assert(stops.push(Err(e)).drop_last() == stops);
}

} // verus!
