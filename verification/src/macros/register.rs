//! The register of tests: a file that names one test on each line.
use crate::text::{chars, text_of, views};
use vstd::prelude::*;

verus! {

/// The register of the tests `names`: each name and the end of its line.
pub open spec fn register_text(names: Seq<Seq<char>>) -> Seq<char>
    decreases names.len(),
{
    if names.len() == 0 {
        Seq::empty()
    } else {
        register_text(names.drop_last()) + names.last().push('\n')
    }
}

/// A line without the carriage return that it ends with, if any.
pub open spec fn without_return(line: Seq<char>) -> Seq<char> {
    if line.len() > 0 && line.last() == '\r' {
        line.drop_last()
    } else {
        line
    }
}

/// The lines of `text` that are ended, and what stands behind the last of them.
pub open spec fn ended_lines(text: Seq<char>) -> (Seq<Seq<char>>, Seq<char>)
    decreases text.len(),
{
    if text.len() == 0 {
        (Seq::empty(), Seq::empty())
    } else {
        let (lines, rest) = ended_lines(text.drop_last());
        if text.last() == '\n' {
            (lines.push(without_return(rest)), Seq::empty())
        } else {
            (lines, rest.push(text.last()))
        }
    }
}

/// The lines of `text`: each ends before a line feed, which a carriage return
/// may precede, or at the end of the text, where nothing but an empty last line
/// is left out.
pub open spec fn lines(text: Seq<char>) -> Seq<Seq<char>> {
    let (lines, rest) = ended_lines(text);
    if rest.len() == 0 {
        lines
    } else {
        lines.push(rest)
    }
}

/// The names that a register holds.
pub fn register_names(text: &str) -> (r: Vec<String>)
    ensures
        views(r@) == lines(text@),
{
    let cs = chars(text);
    let mut r: Vec<String> = Vec::new();
    let mut start: usize = 0;
    let mut i: usize = 0;
    assert(cs@.take(0) == Seq::<char>::empty());
    assert(cs@.subrange(0, 0) == Seq::<char>::empty());
    assert(views(r@) == Seq::<Seq<char>>::empty());
    while i < cs.len()
        invariant
            start <= i <= cs@.len(),
            ended_lines(cs@.take(i as int)) == (views(r@), cs@.subrange(start as int, i as int)),
        decreases cs@.len() - i,
    {
        assert(cs@.take(i + 1).drop_last() == cs@.take(i as int));
        let ghost rest = cs@.subrange(start as int, i as int);
        let ghost before = views(r@);
        if cs[i] == '\n' {
            let end: usize = if i > start && cs[i - 1] == '\r' {
                i - 1
            } else {
                i
            };
            let line = text_of(&cs, start, end);
            assert(line@ == without_return(rest));
            r.push(line);
            assert(views(r@) == before.push(without_return(rest)));
            start = i + 1;
            assert(cs@.subrange(start as int, i + 1) == Seq::<char>::empty());
        } else {
            assert(cs@.subrange(start as int, i + 1) == rest.push(cs@[i as int]));
        }
        i = i + 1;
    }
    assert(cs@.take(i as int) == text@);
    let ghost before = views(r@);
    if start < i {
        let line = text_of(&cs, start, i);
        r.push(line);
        assert(views(r@) == before.push(cs@.subrange(start as int, i as int)));
    }
    r
}

/// No line ends in any of `names`, and none has a carriage return as its last
/// character.
pub open spec fn one_line_each(names: Seq<Seq<char>>) -> bool {
    forall|i: int|
        0 <= i < names.len() ==> !(#[trigger] names[i]).contains('\n') && !(names[i].len() > 0
            && names[i].last() == '\r')
}

/// Characters that end no line are put behind what follows the ended lines.
proof fn ended_lines_of_line(text: Seq<char>, line: Seq<char>)
    requires
        !line.contains('\n'),
    ensures
        ended_lines(text + line) == (ended_lines(text).0, ended_lines(text).1 + line),
    decreases line.len(),
{
    if line.len() == 0 {
        assert(text + line == text);
        assert(ended_lines(text).1 + line == ended_lines(text).1);
    } else {
        let front = line.drop_last();
        assert forall|i: int| 0 <= i < front.len() implies front[i] != '\n' by {
            assert(front[i] == line[i]);
        }
        ended_lines_of_line(text, front);
        assert((text + line).drop_last() == text + front);
        assert((text + line).last() == line.last());
        assert(line.last() == line[line.len() - 1]);
        assert((ended_lines(text).1 + front).push(line.last()) == ended_lines(text).1 + line);
    }
}

proof fn ended_lines_of_register(names: Seq<Seq<char>>)
    requires
        one_line_each(names),
    ensures
        ended_lines(register_text(names)) == (names, Seq::<char>::empty()),
    decreases names.len(),
{
    if names.len() == 0 {
        assert(names == Seq::<Seq<char>>::empty());
    } else {
        let front = names.drop_last();
        let text = register_text(front);
        assert forall|i: int| 0 <= i < front.len() implies !(#[trigger] front[i]).contains('\n')
            && !(front[i].len() > 0 && front[i].last() == '\r') by {
            assert(front[i] == names[i]);
        }
        ended_lines_of_register(front);
        assert(names[names.len() - 1] == names.last());
        ended_lines_of_line(text, names.last());
        let whole = register_text(names);
        assert(whole.drop_last() == text + names.last());
        assert(Seq::<char>::empty() + names.last() == names.last());
        assert(front.push(names.last()) == names);
    }
}

/// The tests that are read out of a register are those that were written into
/// it, in the same order.
pub proof fn register_round_trip(names: Seq<Seq<char>>)
    requires
        one_line_each(names),
    ensures
        lines(register_text(names)) == names,
{
    ended_lines_of_register(names);
}

} // verus!
