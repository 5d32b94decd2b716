//! QMP, the QEMU Machine Protocol: a socket over which a running QEMU instance
//! is asked things.
use crate::instances::decoding::joined_texts;
use crate::instances::query::Queriable;
use crate::instances::reading::{
    all_but_last_piece, complete, finished, unfinished, End, EndView, Reading,
};
use vstd::prelude::*;

verus! {

/// A QMP socket, which is connected to once there is an instance behind it.
pub struct QMP {
    path: String,
    attached: bool,
}

/// A QMP socket.
pub struct QMPView {
    pub path: Seq<char>,
    /// The socket is connected to, and there are channels to the task that
    /// watches it.
    pub attached: bool,
}

impl View for QMP {
    type V = QMPView;

    closed spec fn view(&self) -> QMPView {
        QMPView { path: self.path@, attached: self.attached }
    }
}

impl QMP {
    /// A QMP socket at a path.
    pub fn new(path: &str) -> (r: Self)
        ensures
            r@ == (QMPView { path: path@, attached: false }),
    {
        QMP { path: path.to_string(), attached: false }
    }

    /// The path of the socket.
    pub fn path(&self) -> (r: &str)
        ensures
            r@ == self@.path,
    {
        self.path.as_str()
    }

    /// Attaches to the socket, given whether it could be connected to; what the
    /// task that watches the socket does then.
    pub fn attach(&mut self, connected: bool) -> (r: Result<SocketWatch, String>)
        ensures
            connected ==> (r matches Ok(w) && w@ == SocketWatchView::Opening),
            connected ==> final(self)@ == (QMPView { attached: true, ..old(self)@ }),
            !connected ==> (r matches Err(e) && e@ == "Cant connect to QMP socket"@),
            !connected ==> final(self)@ == old(self)@,
    {
        if connected {
            self.attached = true;
            Ok(SocketWatch { state: SocketState::Opening })
        } else {
            Err("Cant connect to QMP socket".to_string())
        }
    }

    /// The text that a query is sent as.
    pub fn query_and_wait<T: Queriable>(&self, query: &T) -> (r: Result<String, String>)
        ensures
            self@.attached ==> (r matches Ok(text) && call_ensures(T::compute, (query,), text)),
            !self@.attached ==> (r matches Err(e) && e@ == "No connection to running QMP"@),
    {
        if self.attached {
            Ok(query.compute())
        } else {
            Err("No connection to running QMP".to_string())
        }
    }

    /// What becomes of a query, given the response, or that none will come.
    pub fn answered(response: Option<String>) -> (r: Result<String, String>)
        ensures
            match response {
                Some(data) => r == Ok::<String, String>(data),
                None => r matches Err(e) && e@ == "Unknown error"@,
            },
    {
        match response {
            Some(data) => Ok(data),
            None => Err("Unknown error".to_string()),
        }
    }
}

/// What the task that watches a socket needs done before it can go on.
pub enum SocketAsk {
    /// Wait until there is something to read.
    AwaitReadable,
    /// Read the next piece of what comes over the socket.
    Read,
    /// Wait for the next query.
    NextQuery,
    /// Write this to the socket.
    Write(String),
    /// Hand this response back.
    Respond(String),
}

/// What the task that watches a socket needs done before it can go on.
pub enum SocketAskView {
    AwaitReadable,
    Read,
    NextQuery,
    Write(Seq<char>),
    Respond(Seq<char>),
}

impl View for SocketAsk {
    type V = SocketAskView;

    open spec fn view(&self) -> SocketAskView {
        match self {
            SocketAsk::AwaitReadable => SocketAskView::AwaitReadable,
            SocketAsk::Read => SocketAskView::Read,
            SocketAsk::NextQuery => SocketAskView::NextQuery,
            SocketAsk::Write(text) => SocketAskView::Write(text@),
            SocketAsk::Respond(text) => SocketAskView::Respond(text@),
        }
    }
}

/// What came of it.
pub enum SocketReply {
    /// It was done.
    Done,
    /// This was read.
    Piece(String),
    /// This is asked.
    Query(String),
    /// There will be no more queries.
    Closed,
}

/// What came of it.
pub enum SocketReplyView {
    Done,
    Piece(Seq<char>),
    Query(Seq<char>),
    Closed,
}

impl View for SocketReply {
    type V = SocketReplyView;

    open spec fn view(&self) -> SocketReplyView {
        match self {
            SocketReply::Done => SocketReplyView::Done,
            SocketReply::Piece(piece) => SocketReplyView::Piece(piece@),
            SocketReply::Query(query) => SocketReplyView::Query(query@),
            SocketReply::Closed => SocketReplyView::Closed,
        }
    }
}

/// The task that watches a socket.
pub enum SocketWatchView {
    /// It waits until there is something to read.
    Opening,
    /// It reads the greeting, of which this much is there.
    Greeting(Seq<char>),
    /// It waits for a query.
    Waiting,
    /// It writes this query.
    Asking(Seq<char>),
    /// It reads the response, of which this much is there.
    Answering(Seq<char>),
    /// It hands this response back.
    Responding(Seq<char>),
}

/// What the task needs done.
pub open spec fn socket_ask(w: SocketWatchView) -> SocketAskView {
    match w {
        SocketWatchView::Opening => SocketAskView::AwaitReadable,
        SocketWatchView::Greeting(_) => SocketAskView::Read,
        SocketWatchView::Waiting => SocketAskView::NextQuery,
        SocketWatchView::Asking(query) => SocketAskView::Write(query),
        SocketWatchView::Answering(_) => SocketAskView::Read,
        SocketWatchView::Responding(response) => SocketAskView::Respond(response),
    }
}

/// `reply` is one to what was asked.
pub open spec fn socket_answers(ask: SocketAskView, reply: SocketReplyView) -> bool {
    match (ask, reply) {
        (SocketAskView::AwaitReadable, SocketReplyView::Done) => true,
        (SocketAskView::Read, SocketReplyView::Piece(_)) => true,
        (SocketAskView::NextQuery, SocketReplyView::Query(_)) => true,
        (SocketAskView::NextQuery, SocketReplyView::Closed) => true,
        (SocketAskView::Write(_), SocketReplyView::Done) => true,
        (SocketAskView::Respond(_), SocketReplyView::Done) => true,
        _ => false,
    }
}

/// The task after a reply, or nothing once there will be no more queries. What
/// comes over the socket is read up to the end of a line: first the greeting,
/// which nobody gets, then one response for each query.
pub open spec fn socket_next(w: SocketWatchView, reply: SocketReplyView) -> Option<
    SocketWatchView,
> {
    match (w, reply) {
        (SocketWatchView::Opening, _) => Some(SocketWatchView::Greeting(Seq::empty())),
        (SocketWatchView::Greeting(text), SocketReplyView::Piece(piece)) => {
            let now = text + piece;
            if complete(EndView::Line, now) {
                Some(SocketWatchView::Waiting)
            } else {
                Some(SocketWatchView::Greeting(now))
            }
        },
        (SocketWatchView::Waiting, SocketReplyView::Query(query)) => Some(
            SocketWatchView::Asking(query),
        ),
        (SocketWatchView::Asking(_), _) => Some(SocketWatchView::Answering(Seq::empty())),
        (SocketWatchView::Answering(text), SocketReplyView::Piece(piece)) => {
            let now = text + piece;
            if complete(EndView::Line, now) {
                Some(SocketWatchView::Responding(now))
            } else {
                Some(SocketWatchView::Answering(now))
            }
        },
        (SocketWatchView::Responding(_), _) => Some(SocketWatchView::Waiting),
        _ => None,
    }
}

enum SocketState {
    Opening,
    Greeting(Reading),
    Waiting,
    Asking(String),
    Answering(Reading),
    Responding(String),
}

/// The task that watches a socket.
pub struct SocketWatch {
    state: SocketState,
}

impl View for SocketWatch {
    type V = SocketWatchView;

    closed spec fn view(&self) -> SocketWatchView {
        match self.state {
            SocketState::Opening => SocketWatchView::Opening,
            SocketState::Greeting(reading) => SocketWatchView::Greeting(reading@.text),
            SocketState::Waiting => SocketWatchView::Waiting,
            SocketState::Asking(query) => SocketWatchView::Asking(query@),
            SocketState::Answering(reading) => SocketWatchView::Answering(reading@.text),
            SocketState::Responding(response) => SocketWatchView::Responding(response@),
        }
    }
}

/// The view of a task that may be done.
pub open spec fn socket_view(w: Option<SocketWatch>) -> Option<SocketWatchView> {
    match w {
        Some(w) => Some(w@),
        None => None,
    }
}

impl SocketWatch {
    #[verifier::type_invariant]
    closed spec fn reads_lines(self) -> bool {
        match self.state {
            SocketState::Greeting(reading) => reading@.end == EndView::Line,
            SocketState::Answering(reading) => reading@.end == EndView::Line,
            _ => true,
        }
    }

    /// What is to be done next.
    pub fn ask(&self) -> (r: SocketAsk)
        ensures
            r@ == socket_ask(self@),
    {
        match &self.state {
            SocketState::Opening => SocketAsk::AwaitReadable,
            SocketState::Greeting(_) => SocketAsk::Read,
            SocketState::Waiting => SocketAsk::NextQuery,
            SocketState::Asking(query) => SocketAsk::Write(query.clone()),
            SocketState::Answering(_) => SocketAsk::Read,
            SocketState::Responding(response) => SocketAsk::Respond(response.clone()),
        }
    }

    /// Goes on with what came of it.
    pub fn take(self, reply: SocketReply) -> (r: Option<SocketWatch>)
        requires
            socket_answers(socket_ask(self@), reply@),
        ensures
            socket_view(r) == socket_next(self@, reply@),
    {
        proof {
            use_type_invariant(&self);
        }
        let state = match (self.state, reply) {
            (SocketState::Opening, _) => SocketState::Greeting(Reading::new(End::Line)),
            (SocketState::Greeting(reading), SocketReply::Piece(piece)) => {
                let mut reading = reading;
                if reading.take(piece.as_str()) {
                    SocketState::Waiting
                } else {
                    SocketState::Greeting(reading)
                }
            },
            (SocketState::Waiting, SocketReply::Query(query)) => SocketState::Asking(query),
            (SocketState::Asking(_), _) => SocketState::Answering(Reading::new(End::Line)),
            (SocketState::Answering(reading), SocketReply::Piece(piece)) => {
                let mut reading = reading;
                if reading.take(piece.as_str()) {
                    SocketState::Responding(reading.text())
                } else {
                    SocketState::Answering(reading)
                }
            },
            (SocketState::Responding(_), _) => SocketState::Waiting,
            _ => {
                return None;
            },
        };
        Some(SocketWatch { state })
    }
}

/// The task after some replies.
pub open spec fn socket_run(w: SocketWatchView, replies: Seq<SocketReplyView>) -> Option<
    SocketWatchView,
>
    decreases replies.len(),
{
    if replies.len() == 0 {
        Some(w)
    } else {
        match socket_run(w, replies.drop_last()) {
            Some(v) => socket_next(v, replies.last()),
            None => None,
        }
    }
}

/// Replies that are pieces of what comes over the socket.
pub open spec fn as_socket_replies(pieces: Seq<Seq<char>>) -> Seq<SocketReplyView> {
    pieces.map_values(|piece: Seq<char>| SocketReplyView::Piece(piece))
}

/// While it is not complete, a line is read on.
proof fn socket_reads_on(
    w: SocketWatchView,
    first: Seq<SocketReplyView>,
    pieces: Seq<Seq<char>>,
    greeting: bool,
)
    requires
        socket_run(w, first) == Some(
            if greeting {
                SocketWatchView::Greeting(Seq::empty())
            } else {
                SocketWatchView::Answering(Seq::empty())
            },
        ),
        unfinished(EndView::Line, pieces),
        pieces.len() > 0 ==> !complete(EndView::Line, joined_texts(pieces)),
    ensures
        socket_run(w, first + as_socket_replies(pieces)) == Some(
            if greeting {
                SocketWatchView::Greeting(joined_texts(pieces))
            } else {
                SocketWatchView::Answering(joined_texts(pieces))
            },
        ),
    decreases pieces.len(),
{
    let replies = first + as_socket_replies(pieces);
    if pieces.len() == 0 {
        assert(replies == first);
    } else {
        all_but_last_piece(EndView::Line, pieces);
        socket_reads_on(w, first, pieces.drop_last(), greeting);
        assert(replies.drop_last() == first + as_socket_replies(pieces.drop_last()));
        assert(replies.last() == SocketReplyView::Piece(pieces.last()));
    }
}

/// The greeting of the socket is read up to the end of its line, and handed to
/// nobody; then the task waits for queries.
pub proof fn greeting_is_skipped(greeting: Seq<Seq<char>>)
    requires
        finished(EndView::Line, greeting),
    ensures
        socket_run(
            SocketWatchView::Opening,
            seq![SocketReplyView::Done] + as_socket_replies(greeting),
        ) == Some(SocketWatchView::Waiting),
{
    let first = seq![SocketReplyView::Done];
    assert(first.drop_last() == Seq::<SocketReplyView>::empty());
    assert(socket_run(SocketWatchView::Opening, first.drop_last()) == Some(
        SocketWatchView::Opening,
    ));
    all_but_last_piece(EndView::Line, greeting);
    socket_reads_on(SocketWatchView::Opening, first, greeting.drop_last(), true);
    let replies = first + as_socket_replies(greeting);
    assert(replies.drop_last() == first + as_socket_replies(greeting.drop_last()));
    assert(replies.last() == SocketReplyView::Piece(greeting.last()));
}

/// A query is written to the socket, and the line that comes back, in however
/// many pieces, is the response to it; then the task waits for the next query.
pub proof fn query_is_answered(query: Seq<char>, response: Seq<Seq<char>>)
    requires
        finished(EndView::Line, response),
    ensures
        ({
            let w = SocketWatchView::Waiting;
            let asked = seq![SocketReplyView::Query(query)];
            let read = asked.push(SocketReplyView::Done) + as_socket_replies(response);
            &&& socket_run(w, asked) == Some(SocketWatchView::Asking(query))
            &&& socket_run(w, read) == Some(SocketWatchView::Responding(joined_texts(response)))
            &&& socket_run(w, read.push(SocketReplyView::Done)) == Some(w)
        }),
{
    let w = SocketWatchView::Waiting;
    let asked = seq![SocketReplyView::Query(query)];
    let written = asked.push(SocketReplyView::Done);
    assert(asked.drop_last() == Seq::<SocketReplyView>::empty());
    assert(socket_run(w, asked.drop_last()) == Some(w));
    assert(socket_run(w, asked) == Some(SocketWatchView::Asking(query)));
    assert(written.drop_last() == asked);
    assert(socket_run(w, written) == Some(SocketWatchView::Answering(Seq::empty())));
    all_but_last_piece(EndView::Line, response);
    socket_reads_on(w, written, response.drop_last(), false);
    let read = written + as_socket_replies(response);
    assert(read.drop_last() == written + as_socket_replies(response.drop_last()));
    assert(read.last() == SocketReplyView::Piece(response.last()));
    assert(socket_run(w, read) == Some(SocketWatchView::Responding(joined_texts(response))));
    assert(read.push(SocketReplyView::Done).drop_last() == read);
}

} // verus!
