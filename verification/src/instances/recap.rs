//! The recap of a run: what became of each test.
use vstd::prelude::*;

verus! {

/// An action that has no outcome of its own.
pub enum ActionBasics {
    NULL,
}

/// The outcome of such an action.
pub enum ActionResultBasics {
    NULL,
}

/// What became of an action.
#[derive(Debug)]
pub enum ActionResult {
    SUCCESS(String),
    FAILED(String),
    SATISFYING(String),
    FATAL(String),
    LOG(String),
    SKIP,
}

/// What became of an action.
pub enum ActionResultView {
    SUCCESS(Seq<char>),
    FAILED(Seq<char>),
    SATISFYING(Seq<char>),
    FATAL(Seq<char>),
    LOG(Seq<char>),
    SKIP,
}

impl View for ActionResult {
    type V = ActionResultView;

    open spec fn view(&self) -> ActionResultView {
        match self {
            ActionResult::SUCCESS(s) => ActionResultView::SUCCESS(s@),
            ActionResult::FAILED(s) => ActionResultView::FAILED(s@),
            ActionResult::SATISFYING(s) => ActionResultView::SATISFYING(s@),
            ActionResult::FATAL(s) => ActionResultView::FATAL(s@),
            ActionResult::LOG(s) => ActionResultView::LOG(s@),
            ActionResult::SKIP => ActionResultView::SKIP,
        }
    }
}

/// What became of each action, in order, each under a number.
#[derive(Debug)]
pub struct Recap {
    failed: bool,
    recap: Vec<(u8, ActionResult)>,
}

/// What became of each action, in order, each under a number.
#[verifier::ext_equal]
pub struct RecapView {
    /// The run was aborted.
    pub failed: bool,
    pub entries: Seq<(u8, ActionResultView)>,
}

impl View for Recap {
    type V = RecapView;

    closed spec fn view(&self) -> RecapView {
        RecapView {
            failed: self.failed,
            entries: self.recap@.map_values(|e: (u8, ActionResult)| (e.0, e.1@)),
        }
    }
}

impl Recap {
    /// The recap of a run in which nothing was done yet.
    pub fn new() -> (r: Self)
        ensures
            r@ == (RecapView { failed: false, entries: Seq::empty() }),
    {
        let r = Recap { failed: false, recap: Vec::new() };
        assert(r@.entries == Seq::<(u8, ActionResultView)>::empty());
        r
    }

    /// Notes that the run was aborted.
    pub fn aborted(&mut self)
        ensures
            final(self)@ == (RecapView { failed: true, ..old(self)@ }),
    {
        self.failed = true;
    }

    /// Notes what became of the next action.
    pub fn push(&mut self, id: u8, res: ActionResult)
        ensures
            final(self)@ == (RecapView {
                entries: old(self)@.entries.push((id, res@)),
                ..old(self)@
            }),
    {
        self.recap.push((id, res));
        assert(self@.entries == old(self)@.entries.push((id, res@)));
    }
}

} // verus!
