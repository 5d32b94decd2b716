//! How a program is started.
use crate::text::views;
use vstd::prelude::*;

verus! {

/// How many messages a channel between tasks holds.
pub const CHANNEL_SIZE: usize = 10;

/// What a standard stream of a program is connected to.
#[derive(Clone, Copy, Debug, PartialEq, Eq, Structural)]
pub enum Connection {
    /// The stream of the program that starts it.
    Inherited,
    /// A pipe to the program that starts it.
    Piped,
    /// Nothing.
    Null,
}

/// How a program is started.
pub struct Launch {
    pub program: String,
    pub args: Vec<String>,
    /// Whether the program is killed when nobody holds it any more.
    pub kill_on_drop: bool,
    pub stdin: Connection,
    pub stdout: Connection,
    pub stderr: Connection,
}

/// How a program is started.
pub struct LaunchView {
    pub program: Seq<char>,
    pub args: Seq<Seq<char>>,
    pub kill_on_drop: bool,
    pub stdin: Connection,
    pub stdout: Connection,
    pub stderr: Connection,
}

impl View for Launch {
    type V = LaunchView;

    open spec fn view(&self) -> LaunchView {
        LaunchView {
            program: self.program@,
            args: views(self.args@),
            kill_on_drop: self.kill_on_drop,
            stdin: self.stdin,
            stdout: self.stdout,
            stderr: self.stderr,
        }
    }
}

/// Puts copies of `more` behind `args`.
pub(crate) fn append_copies(args: &mut Vec<String>, more: &Vec<String>)
    ensures
        views(final(args)@) == views(old(args)@) + views(more@),
{
    let ghost start = views(args@);
    let mut i: usize = 0;
    while i < more.len()
        invariant
            i <= more@.len(),
            views(args@) == start + views(more@).take(i as int),
        decreases more@.len() - i,
    {
        let ghost before = views(args@);
        args.push(more[i].clone());
        assert(views(args@) == before.push(more@[i as int]@));
        assert(views(more@).take(i + 1) == views(more@).take(i as int).push(more@[i as int]@));
        i = i + 1;
    }
    assert(views(more@).take(i as int) == views(more@));
}

} // verus!
