//! Reading what a program writes, piece by piece, up to where it waits again.
use crate::instances::decoding::{cut_anywhere, joined, joined_texts, texts};
use crate::text::{contains, occurs};
use vstd::prelude::*;
use vstd::string::*;
use vstd::utf8::*;

verus! {

/// How many bytes are read at once, at most.
pub const READ_SIZE: usize = 30;

/// The text that GDB writes when it waits for a command.
pub const PROMPT: &'static str = "(gdb)";

/// Where a text that is read ends.
pub enum End {
    /// As soon as it holds this text.
    Pattern(String),
    /// As soon as its last character ends a line.
    Line,
}

/// Where a text that is read ends.
pub enum EndView {
    Pattern(Seq<char>),
    Line,
}

impl View for End {
    type V = EndView;

    open spec fn view(&self) -> EndView {
        match self {
            End::Pattern(p) => EndView::Pattern(p@),
            End::Line => EndView::Line,
        }
    }
}

/// `text` is read to its end.
pub open spec fn complete(end: EndView, text: Seq<char>) -> bool {
    match end {
        EndView::Pattern(p) => occurs(text, p),
        EndView::Line => text.len() > 0 && text.last() == '\n',
    }
}

/// A text that is being read.
pub struct Reading {
    end: End,
    text: String,
}

/// A text that is being read.
pub struct ReadingView {
    pub end: EndView,
    pub text: Seq<char>,
}

impl View for Reading {
    type V = ReadingView;

    closed spec fn view(&self) -> ReadingView {
        ReadingView { end: self.end@, text: self.text@ }
    }
}

impl Reading {
    /// A text of which nothing was read yet.
    pub fn new(end: End) -> (r: Self)
        ensures
            r@ == (ReadingView { end: end@, text: Seq::empty() }),
    {
        Reading { end, text: String::new() }
    }

    /// Takes the next piece in, and says whether the text is now complete.
    pub fn take(&mut self, piece: &str) -> (r: bool)
        ensures
            final(self)@ == (ReadingView { text: old(self)@.text + piece@, ..old(self)@ }),
            r == complete(final(self)@.end, final(self)@.text),
    {
        self.text.append(piece);
        match &self.end {
            End::Pattern(p) => contains(self.text.as_str(), p.as_str()),
            End::Line => {
                let cs = crate::text::chars(self.text.as_str());
                cs.len() > 0 && cs[cs.len() - 1] == '\n'
            },
        }
    }

    /// The text that was read.
    pub fn text(self) -> (r: String)
        ensures
            r@ == self@.text,
    {
        self.text
    }
}

/// A text that is being read, after some pieces.
pub open spec fn reading_after(reading: ReadingView, pieces: Seq<Seq<char>>) -> ReadingView
    decreases pieces.len(),
{
    if pieces.len() == 0 {
        reading
    } else {
        let before = reading_after(reading, pieces.drop_last());
        ReadingView { text: before.text + pieces.last(), ..before }
    }
}

/// What was read is all pieces, one after the other.
proof fn reads_all_pieces(end: EndView, pieces: Seq<Seq<char>>)
    ensures
        reading_after(ReadingView { end, text: Seq::empty() }, pieces) == (ReadingView {
            end,
            text: joined_texts(pieces),
        }),
    decreases pieces.len(),
{
    if pieces.len() > 0 {
        reads_all_pieces(end, pieces.drop_last());
    }
}

/// However the bytes that a program writes are cut into pieces, also within a
/// character, what is read of them is the text that they encode.
pub proof fn reads_over_cuts(end: EndView, pieces: Seq<Seq<u8>>)
    requires
        valid_utf8(joined(pieces)),
    ensures
        reading_after(ReadingView { end, text: Seq::empty() }, texts(pieces)) == (ReadingView {
            end,
            text: decode_utf8(joined(pieces)),
        }),
{
    cut_anywhere(pieces);
    reads_all_pieces(end, texts(pieces));
}

/// The text of `pieces` is not complete before all of them were read.
pub open spec fn unfinished(end: EndView, pieces: Seq<Seq<char>>) -> bool {
    forall|n: int|
        1 <= n < pieces.len() ==> !complete(end, joined_texts(#[trigger] pieces.take(n)))
}

/// The text of `pieces` is complete once all of them were read, and not before.
pub open spec fn finished(end: EndView, pieces: Seq<Seq<char>>) -> bool {
    &&& pieces.len() > 0
    &&& complete(end, joined_texts(pieces))
    &&& unfinished(end, pieces)
}

/// All but the last of some pieces, and their text.
pub(crate) proof fn all_but_last_piece(end: EndView, pieces: Seq<Seq<char>>)
    requires
        pieces.len() > 0,
        unfinished(end, pieces),
    ensures
        unfinished(end, pieces.drop_last()),
        pieces.len() > 1 ==> !complete(end, joined_texts(pieces.drop_last())),
{
    let front = pieces.drop_last();
    assert forall|n: int| 1 <= n < front.len() implies !complete(
        end,
        joined_texts(#[trigger] front.take(n)),
    ) by {
        assert(front.take(n) == pieces.take(n));
    }
    assert(pieces.take(pieces.len() - 1) == front);
}

} // verus!
