//! Decoding what a program writes, piece by piece: a character whose bytes come
//! in two pieces is put together again.
use crate::text::from_utf8;
use vstd::prelude::*;
use vstd::slice::slice_subrange;
use vstd::utf8::*;

verus! {

/// How many bytes at the beginning of `bytes` encode whole characters.
pub open spec fn whole_len(bytes: Seq<u8>) -> int
    decreases bytes.len(),
{
    if valid_first_scalar(bytes) {
        length_of_first_scalar(bytes) + whole_len(pop_first_scalar(bytes))
    } else {
        0
    }
}

/// The bytes at the beginning of `bytes` that encode whole characters.
pub open spec fn whole(bytes: Seq<u8>) -> Seq<u8> {
    bytes.take(whole_len(bytes))
}

/// The bytes behind those that encode whole characters.
pub open spec fn rest(bytes: Seq<u8>) -> Seq<u8> {
    bytes.skip(whole_len(bytes))
}

/// `bytes` are nothing, or have the form of the first bytes of a character of
/// which more are to come.
pub open spec fn begins_character(bytes: Seq<u8>) -> bool {
    ||| bytes.len() == 0
    ||| bytes.len() == 1 && (is_leading_byte_width_2(bytes[0]) || is_leading_byte_width_3(bytes[0])
        || is_leading_byte_width_4(bytes[0]))
    ||| bytes.len() == 2 && (is_leading_byte_width_3(bytes[0]) || is_leading_byte_width_4(bytes[0]))
        && is_continuation_byte(bytes[1])
    ||| bytes.len() == 3 && is_leading_byte_width_4(bytes[0]) && is_continuation_byte(bytes[1])
        && is_continuation_byte(bytes[2])
}

/// `bytes` encode characters in UTF-8, of which the last one may not be whole.
pub open spec fn readable(bytes: Seq<u8>) -> bool {
    begins_character(rest(bytes))
}

/// The whole characters are no more than all of `bytes`, and are valid.
pub(crate) proof fn whole_is_valid(bytes: Seq<u8>)
    ensures
        0 <= whole_len(bytes) <= bytes.len(),
        valid_utf8(whole(bytes)),
        whole(bytes) + rest(bytes) == bytes,
    decreases bytes.len(),
{
    if valid_first_scalar(bytes) {
        let tail = pop_first_scalar(bytes);
        whole_is_valid(tail);
        assert(valid_first_scalar(whole(bytes)));
        assert(pop_first_scalar(whole(bytes)) == whole(tail));
    } else {
        assert(whole(bytes) == Seq::<u8>::empty());
    }
    assert(whole(bytes) + rest(bytes) == bytes);
}

/// Whole characters can be taken off before the others are looked at.
pub(crate) proof fn whole_then(first: Seq<u8>, then: Seq<u8>)
    requires
        valid_utf8(first),
    ensures
        whole_len(first + then) == first.len() + whole_len(then),
        whole(first + then) == first + whole(then),
        rest(first + then) == rest(then),
    decreases first.len(),
{
    whole_is_valid(then);
    if first.len() == 0 {
        assert(first + then == then);
    } else {
        let tail = pop_first_scalar(first);
        assert(pop_first_scalar(first + then) == tail + then);
        assert(valid_first_scalar(first + then));
        whole_then(tail, then);
    }
    assert(whole(first + then) == first + whole(then));
    assert(rest(first + then) == rest(then));
}

/// The first bytes of one character hold no whole one.
proof fn beginning_is_not_whole(bytes: Seq<u8>)
    requires
        begins_character(bytes),
    ensures
        whole_len(bytes) == 0,
        rest(bytes) == bytes,
{
    assert(bytes.skip(0) == bytes);
}

/// The text of valid bytes, one after the other.
proof fn decode_then(first: Seq<u8>, then: Seq<u8>)
    requires
        valid_utf8(first),
        valid_utf8(then),
    ensures
        valid_utf8(first + then),
        decode_utf8(first + then) == decode_utf8(first) + decode_utf8(then),
    decreases first.len(),
{
    valid_utf8_concat(first, then);
    if first.len() == 0 {
        assert(first + then == then);
    } else {
        let tail = pop_first_scalar(first);
        assert(pop_first_scalar(first + then) == tail + then);
        decode_then(tail, then);
    }
}

/// The beginning of valid bytes is readable.
pub(crate) proof fn beginning_is_readable(first: Seq<u8>, then: Seq<u8>)
    requires
        valid_utf8(first + then),
    ensures
        readable(first),
    decreases first.len(),
{
    let all = first + then;
    if first.len() == 0 {
        assert(rest(first).len() == 0) by {
            whole_is_valid(first);
        }
    } else {
        let n = length_of_first_scalar(all);
        if n <= first.len() {
            assert(valid_first_scalar(first));
            assert(pop_first_scalar(all) == pop_first_scalar(first) + then);
            beginning_is_readable(pop_first_scalar(first), then);
            whole_is_valid(pop_first_scalar(first));
            assert(rest(first) == rest(pop_first_scalar(first)));
        } else {
            assert(begins_character(first));
            beginning_is_not_whole(first);
        }
    }
}

/// Whether `bytes` have the form of the first bytes of a character.
fn is_beginning(bytes: &[u8]) -> (r: bool)
    ensures
        r == begins_character(bytes@),
{
    let n: usize = bytes.len();
    if n == 0 {
        return true;
    }
    if n > 3 {
        return false;
    }
    let b = bytes[0];
    let width: usize = if 0xc0 <= b && b <= 0xdf {
        2
    } else if 0xe0 <= b && b <= 0xef {
        3
    } else if 0xf0 <= b && b <= 0xf7 {
        4
    } else {
        1
    };
    n < width && (n < 2 || (0x80 <= bytes[1] && bytes[1] <= 0xbf)) && (n < 3 || (0x80 <= bytes[2]
        && bytes[2] <= 0xbf))
}

/// What decodes the pieces of a text.
pub struct Decoder {
    pending: Vec<u8>,
}

impl View for Decoder {
    type V = Seq<u8>;

    /// The bytes that were not decoded yet.
    closed spec fn view(&self) -> Seq<u8> {
        self.pending@
    }
}

impl Decoder {
    /// A decoder to which nothing came yet.
    pub fn new() -> (r: Self)
        ensures
            r@ == Seq::<u8>::empty(),
    {
        Decoder { pending: Vec::new() }
    }

    /// Takes the next piece in, and gives the text of the characters that are
    /// whole now. Nothing is given, and nothing taken in, where the bytes are
    /// not UTF-8.
    pub fn take(&mut self, piece: &[u8]) -> (r: Option<String>)
        ensures
            r is Some <==> readable(old(self)@ + piece@),
            r matches Some(text) ==> text@ == decode_utf8(whole(old(self)@ + piece@)),
            r is Some ==> final(self)@ == rest(old(self)@ + piece@),
            r is None ==> final(self)@ == old(self)@,
    {
        let mut all: Vec<u8> = self.pending.clone();
        all.extend_from_slice(piece);
        let ghost bytes = old(self)@ + piece@;
        assert(all@ == bytes);
        let count: usize = all.len();
        let mut n: usize = count;
        loop
            invariant
                n <= count == all@.len(),
                count - n <= 3,
                all@ == bytes,
                bytes == old(self)@ + piece@,
                self@ == old(self)@,
                forall|m: int|
                    n < m <= count ==> !(valid_utf8(#[trigger] bytes.take(m)) && begins_character(
                        bytes.skip(m),
                    )),
            decreases n,
        {
            let head = slice_subrange(all.as_slice(), 0, n);
            let tail = slice_subrange(all.as_slice(), n, count);
            assert(head@ == bytes.take(n as int));
            assert(tail@ == bytes.skip(n as int));
            if is_beginning(tail) {
                if let Some(text) = from_utf8(head) {
                    proof {
                        assert(head@ + tail@ == bytes);
                        beginning_is_not_whole(tail@);
                        whole_then(head@, tail@);
                        assert(head@ + whole(tail@) == head@);
                    }
                    let mut pending: Vec<u8> = Vec::new();
                    pending.extend_from_slice(tail);
                    assert(pending@ == tail@);
                    self.pending = pending;
                    return Some(text);
                }
            }
            if n == 0 || count - n == 3 {
                proof {
                    whole_is_valid(bytes);
                    if readable(bytes) {
                        assert(valid_utf8(bytes.take(whole_len(bytes))));
                        assert(rest(bytes).len() <= 3);
                    }
                }
                return None;
            }
            n = n - 1;
        }
    }
}

/// All bytes of some pieces, one after the other.
pub open spec fn joined(pieces: Seq<Seq<u8>>) -> Seq<u8>
    decreases pieces.len(),
{
    if pieces.len() == 0 {
        Seq::empty()
    } else {
        joined(pieces.drop_last()) + pieces.last()
    }
}

/// The bytes that a decoder was left with after some pieces.
pub open spec fn pending_after(pieces: Seq<Seq<u8>>) -> Seq<u8>
    decreases pieces.len(),
{
    if pieces.len() == 0 {
        Seq::empty()
    } else {
        rest(pending_after(pieces.drop_last()) + pieces.last())
    }
}

/// The texts that a decoder gave for some pieces.
pub open spec fn texts(pieces: Seq<Seq<u8>>) -> Seq<Seq<char>>
    decreases pieces.len(),
{
    if pieces.len() == 0 {
        Seq::empty()
    } else {
        texts(pieces.drop_last()).push(
            decode_utf8(whole(pending_after(pieces.drop_last()) + pieces.last())),
        )
    }
}

/// Texts, one after the other.
pub open spec fn joined_texts(texts: Seq<Seq<char>>) -> Seq<char>
    decreases texts.len(),
{
    if texts.len() == 0 {
        Seq::empty()
    } else {
        joined_texts(texts.drop_last()) + texts.last()
    }
}

/// After any pieces, a decoder gave the text of all whole characters, and was
/// left with the bytes behind them.
proof fn decoded_so_far(pieces: Seq<Seq<u8>>)
    ensures
        pending_after(pieces) == rest(joined(pieces)),
        joined_texts(texts(pieces)) == decode_utf8(whole(joined(pieces))),
    decreases pieces.len(),
{
    if pieces.len() == 0 {
        let none = Seq::<u8>::empty();
        whole_is_valid(none);
        assert(whole(none) == none);
        assert(rest(none) == none);
        assert(decode_utf8(none) == Seq::<char>::empty());
    } else {
        let front = pieces.drop_last();
        decoded_so_far(front);
        let before = joined(front);
        let now = rest(before) + pieces.last();
        whole_is_valid(before);
        whole_is_valid(now);
        assert(joined(pieces) == whole(before) + now);
        whole_then(whole(before), now);
        decode_then(whole(before), whole(now));
        assert(texts(pieces).drop_last() == texts(front));
    }
}

/// However the bytes of a text are cut into pieces, a decoder takes every one
/// of them, and the texts that it gives are, one after the other, that text.
pub proof fn cut_anywhere(pieces: Seq<Seq<u8>>)
    requires
        valid_utf8(joined(pieces)),
    ensures
        forall|n: int|
            0 <= n < pieces.len() ==> readable(
                pending_after(#[trigger] pieces.take(n)) + pieces[n],
            ),
        joined_texts(texts(pieces)) == decode_utf8(joined(pieces)),
        pending_after(pieces) == Seq::<u8>::empty(),
{
    decoded_so_far(pieces);
    let all = joined(pieces);
    let none = Seq::<u8>::empty();
    assert(all + none == all);
    whole_then(all, none);
    whole_is_valid(none);
    assert(whole(none) == none);
    assert(all + whole(none) == all);
    assert(rest(none) == none);
    assert forall|n: int| 0 <= n < pieces.len() implies readable(
        pending_after(#[trigger] pieces.take(n)) + pieces[n],
    ) by {
        let front = pieces.take(n);
        let more = pieces.take(n + 1);
        assert(more.drop_last() == front);
        assert(more.last() == pieces[n]);
        decoded_so_far(front);
        whole_is_valid(joined(front));
        let now = rest(joined(front)) + pieces[n];
        assert(joined(more) == whole(joined(front)) + now);
        whole_then(whole(joined(front)), now);
        joined_begins(pieces, n + 1);
        let then = joined(pieces).skip(joined(more).len() as int);
        assert(joined(more) + then == all);
        beginning_is_readable(joined(more), then);
    }
}

/// The bytes of the first pieces are the first bytes of all pieces.
proof fn joined_begins(pieces: Seq<Seq<u8>>, n: int)
    requires
        0 <= n <= pieces.len(),
    ensures
        joined(pieces.take(n)).is_prefix_of(joined(pieces)),
    decreases pieces.len(),
{
    if n == pieces.len() {
        assert(pieces.take(n) == pieces);
    } else {
        joined_begins(pieces.drop_last(), n);
        assert(pieces.drop_last().take(n) == pieces.take(n));
    }
}

} // verus!
