//! Text: the sequences of characters that the rest of the crate reads and
//! writes, and the operations on them.
use vstd::prelude::*;
use vstd::utf8::*;

verus! {

/// The character has the Unicode property `White_Space`.
pub open spec fn is_white_space(c: char) -> bool {
    let n = c as int;
    ||| 0x9 <= n <= 0xd
    ||| n == 0x20
    ||| n == 0x85
    ||| n == 0xa0
    ||| n == 0x1680
    ||| 0x2000 <= n <= 0x200a
    ||| n == 0x2028
    ||| n == 0x2029
    ||| n == 0x202f
    ||| n == 0x205f
    ||| n == 0x3000
}

/// [`char::is_whitespace`] says whether a character has the Unicode property
/// `White_Space`.
pub assume_specification[ char::is_whitespace ](c: char) -> (b: bool)
    ensures
        b == is_white_space(c),
;

/// [`String::push`] appends one character to the end of a string.
pub assume_specification[ String::push ](s: &mut String, c: char)
    ensures
        final(s)@ == old(s)@.push(c),
;

/// The text that `bytes` encode in UTF-8, or nothing where they encode none.
///
/// Stands for [`std::str::from_utf8`], which accepts exactly the valid UTF-8
/// encodings and gives the characters that they stand for.
#[verifier::external_body]
pub(crate) fn from_utf8(bytes: &[u8]) -> (r: Option<String>)
    ensures
        r is Some <==> valid_utf8(bytes@),
        r matches Some(s) ==> s@ == decode_utf8(bytes@),
{
    match std::str::from_utf8(bytes) {
        Ok(s) => Some(s.to_string()),
        Err(_) => None,
    }
}

/// The characters of a string.
pub fn chars(s: &str) -> (r: Vec<char>)
    ensures
        r@ == s@,
{
    let mut r: Vec<char> = Vec::new();
    for c in it: s.chars()
        invariant
            r@ == s@.take(it.index() as int),
            it.seq() == s@,
    {
        r.push(c);
    }
    r
}

/// The string of the characters of `cs` from `from` up to `to`.
pub fn text_of(cs: &Vec<char>, from: usize, to: usize) -> (r: String)
    requires
        from <= to <= cs@.len(),
    ensures
        r@ == cs@.subrange(from as int, to as int),
{
    let mut r = String::new();
    let mut i: usize = from;
    while i < to
        invariant
            from <= i <= to <= cs@.len(),
            r@ == cs@.subrange(from as int, i as int),
        decreases to - i,
    {
        r.push(cs[i]);
        i = i + 1;
    }
    r
}

/// `needle` stands in `s` from position `i` on.
pub open spec fn occurs_at(s: Seq<char>, needle: Seq<char>, i: int) -> bool {
    &&& 0 <= i
    &&& i + needle.len() <= s.len()
    &&& s.subrange(i, i + needle.len()) == needle
}

/// `needle` stands somewhere in `s`.
pub open spec fn occurs(s: Seq<char>, needle: Seq<char>) -> bool {
    exists|i: int| occurs_at(s, needle, i)
}

/// Whether `needle` stands in `s` from position `i` on.
fn found_at(s: &Vec<char>, needle: &Vec<char>, i: usize) -> (r: bool)
    requires
        i <= s@.len(),
    ensures
        r == occurs_at(s@, needle@, i as int),
{
    let n: usize = s.len();
    if needle.len() > n - i {
        return false;
    }
    let mut k: usize = 0;
    while k < needle.len()
        invariant
            k <= needle@.len(),
            i + needle@.len() <= n == s@.len(),
            forall|j: int| 0 <= j < k ==> s@[i + j] == needle@[j],
        decreases needle@.len() - k,
    {
        if s[i + k] != needle[k] {
            assert(s@.subrange(i as int, i + needle@.len())[k as int] == s@[i + k]);
            return false;
        }
        k = k + 1;
    }
    assert(s@.subrange(i as int, i + needle@.len()) =~= needle@);
    true
}

/// Whether `needle` stands somewhere in `s`.
pub fn contains(s: &str, needle: &str) -> (r: bool)
    ensures
        r == occurs(s@, needle@),
{
    let cs = chars(s);
    let ns = chars(needle);
    let mut i: usize = 0;
    loop
        invariant
            i <= cs@.len(),
            cs@ == s@,
            ns@ == needle@,
            forall|j: int| 0 <= j < i ==> !occurs_at(s@, needle@, j),
        decreases cs@.len() - i,
    {
        if found_at(&cs, &ns, i) {
            return true;
        }
        if i == cs.len() {
            return false;
        }
        i = i + 1;
    }
}

/// Whether `s` begins with `prefix`.
pub fn starts_with(s: &str, prefix: &str) -> (r: bool)
    ensures
        r == prefix@.is_prefix_of(s@),
{
    let cs = chars(s);
    let ps = chars(prefix);
    found_at(&cs, &ps, 0)
}

/// `s` and `t` hold the same characters.
pub fn same(s: &str, t: &str) -> (r: bool)
    ensures
        r == (s@ == t@),
{
    let cs = chars(s);
    let ts = chars(t);
    if cs.len() != ts.len() {
        return false;
    }
    assert(cs@.subrange(0, ts@.len() as int) == cs@);
    found_at(&cs, &ts, 0)
}

/// The parts of `s` between the occurrences of `sep`, in order: as many as
/// there are separators, and one more.
pub open spec fn split(s: Seq<char>, sep: char) -> Seq<Seq<char>>
    decreases s.len(),
{
    if s.len() == 0 {
        seq![Seq::<char>::empty()]
    } else {
        let parts = split(s.drop_last(), sep);
        if s.last() == sep {
            parts.push(Seq::<char>::empty())
        } else {
            parts.drop_last().push(parts.last().push(s.last()))
        }
    }
}

/// `parts` one after the other, with `sep` between each two of them.
pub open spec fn join(parts: Seq<Seq<char>>, sep: char) -> Seq<char>
    decreases parts.len(),
{
    if parts.len() == 0 {
        Seq::empty()
    } else if parts.len() == 1 {
        parts[0]
    } else {
        join(parts.drop_last(), sep).push(sep) + parts.last()
    }
}

/// What splitting means: the parts hold no separator, and with a separator
/// between each two of them they are the text again.
pub proof fn split_parts(s: Seq<char>, sep: char)
    ensures
        split(s, sep).len() >= 1,
        join(split(s, sep), sep) == s,
        forall|i: int|
            0 <= i < split(s, sep).len() ==> !(#[trigger] split(s, sep)[i]).contains(sep),
    decreases s.len(),
{
    if s.len() > 0 {
        let before = s.drop_last();
        let parts = split(before, sep);
        let all = split(s, sep);
        split_parts(before, sep);
        assert(before.push(s.last()) == s);
        if s.last() == sep {
            assert(all.drop_last() == parts);
            assert(join(all, sep) == join(parts, sep).push(sep));
        } else {
            assert(all.drop_last() == parts.drop_last());
            assert(!parts.last().contains(sep));
            assert forall|i: int| 0 <= i < all.len() implies !(#[trigger] all[i]).contains(sep) by {
                if i < parts.len() - 1 {
                    assert(all[i] == parts[i]);
                } else {
                    let last = parts.last().push(s.last());
                    if last.contains(sep) {
                        let k = choose|k: int| 0 <= k < last.len() && last[k] == sep;
                        assert(parts.last()[k] == sep);
                    }
                }
            }
            assert(join(all, sep) == join(parts, sep).push(s.last()));
        }
    }
}

/// Characters other than the separator are put behind the last part.
pub(crate) proof fn split_longer_part(s: Seq<char>, more: Seq<char>, sep: char)
    requires
        !more.contains(sep),
    ensures
        split(s + more, sep) == split(s, sep).drop_last().push(split(s, sep).last() + more),
    decreases more.len(),
{
    split_parts(s, sep);
    if more.len() == 0 {
        assert(s + more == s);
        assert(split(s, sep).last() + more == split(s, sep).last());
    } else {
        let front = more.drop_last();
        assert forall|k: int| 0 <= k < front.len() implies front[k] != sep by {
            assert(front[k] == more[k]);
        }
        split_longer_part(s, front, sep);
        assert((s + more).drop_last() == s + front);
        assert((s + more).last() == more.last());
        assert(more.last() == more[more.len() - 1]);
        assert((split(s, sep).last() + front).push(more.last()) == split(s, sep).last() + more);
        assert(split(s + front, sep).drop_last() == split(s, sep).drop_last());
    }
}

/// Parts that hold no separator, joined and split again, are the parts.
pub proof fn split_joined(parts: Seq<Seq<char>>, sep: char)
    requires
        parts.len() > 0,
        forall|i: int| 0 <= i < parts.len() ==> !(#[trigger] parts[i]).contains(sep),
    ensures
        split(join(parts, sep), sep) == parts,
    decreases parts.len(),
{
    let last = parts.last();
    assert(last == parts[parts.len() - 1]);
    if parts.len() == 1 {
        let none = Seq::<char>::empty();
        split_longer_part(none, last, sep);
        assert(none + last == last);
        assert(split(none, sep).drop_last().push(none + last) == parts);
    } else {
        let front = parts.drop_last();
        assert forall|i: int| 0 <= i < front.len() implies !(#[trigger] front[i]).contains(sep) by {
            assert(front[i] == parts[i]);
        }
        split_joined(front, sep);
        let s = join(front, sep).push(sep);
        assert(s.drop_last() == join(front, sep));
        assert(split(s, sep) == front.push(Seq::<char>::empty()));
        split_longer_part(s, last, sep);
        assert(front.push(Seq::<char>::empty()).drop_last() == front);
        assert(Seq::<char>::empty() + last == last);
        assert(front.push(last) == parts);
    }
}

/// The views of a list of strings.
pub open spec fn views(strings: Seq<String>) -> Seq<Seq<char>> {
    strings.map_values(|s: String| s@)
}

/// The parts of `s` between the occurrences of `sep`.
pub fn split_at_each(s: &str, sep: char) -> (r: Vec<String>)
    ensures
        views(r@) == split(s@, sep),
{
    let cs = chars(s);
    let mut r: Vec<String> = Vec::new();
    let mut part = String::new();
    let mut i: usize = 0;
    assert(cs@.take(0) == Seq::<char>::empty());
    while i < cs.len()
        invariant
            i <= cs@.len(),
            views(r@).push(part@) == split(cs@.take(i as int), sep),
        decreases cs@.len() - i,
    {
        let c = cs[i];
        let ghost before = views(r@).push(part@);
        assert(cs@.take(i + 1).drop_last() == cs@.take(i as int));
        assert(before.drop_last() == views(r@));
        if c == sep {
            r.push(part);
            part = String::new();
            assert(views(r@) == before);
        } else {
            part.push(c);
        }
        i = i + 1;
    }
    assert(cs@.take(i as int) == s@);
    let ghost done = views(r@).push(part@);
    r.push(part);
    assert(views(r@) == done);
    r
}

/// `s` without the white space at its beginning.
pub open spec fn trim_start(s: Seq<char>) -> Seq<char>
    decreases s.len(),
{
    if s.len() > 0 && is_white_space(s[0]) {
        trim_start(s.drop_first())
    } else {
        s
    }
}

/// `s` without the white space at its end.
pub open spec fn trim_end(s: Seq<char>) -> Seq<char>
    decreases s.len(),
{
    if s.len() > 0 && is_white_space(s.last()) {
        trim_end(s.drop_last())
    } else {
        s
    }
}

/// `s` without the white space at either end.
pub open spec fn trimmed(s: Seq<char>) -> Seq<char> {
    trim_end(trim_start(s))
}

/// Every character of `s` is white space.
pub open spec fn all_white(s: Seq<char>) -> bool {
    forall|i: int| 0 <= i < s.len() ==> is_white_space(#[trigger] s[i])
}

/// White space at the beginning is taken off.
proof fn trim_start_of_white(white: Seq<char>, s: Seq<char>)
    requires
        all_white(white),
    ensures
        trim_start(white + s) == trim_start(s),
    decreases white.len(),
{
    if white.len() == 0 {
        assert(white + s == s);
    } else {
        assert((white + s)[0] == white[0]);
        assert((white + s).drop_first() == white.drop_first() + s);
        trim_start_of_white(white.drop_first(), s);
    }
}

/// White space at the end is taken off.
proof fn trim_end_of_white(s: Seq<char>, white: Seq<char>)
    requires
        all_white(white),
    ensures
        trim_end(s + white) == trim_end(s),
    decreases white.len(),
{
    if white.len() == 0 {
        assert(s + white == s);
    } else {
        assert((s + white).last() == white[white.len() - 1]);
        assert((s + white).drop_last() == s + white.drop_last());
        trim_end_of_white(s, white.drop_last());
    }
}

/// Trimming takes the white space off that was put around a text.
pub proof fn trimmed_of_white(before: Seq<char>, s: Seq<char>, after: Seq<char>)
    requires
        all_white(before),
        all_white(after),
        s.len() > 0,
        !is_white_space(s[0]),
        !is_white_space(s.last()),
    ensures
        trimmed(before + s + after) == s,
{
    assert(before + s + after == before + (s + after));
    trim_start_of_white(before, s + after);
    assert((s + after)[0] == s[0]);
    trim_end_of_white(s, after);
}

/// `s` without the white space at either end.
pub fn trim(s: &str) -> (r: String)
    ensures
        r@ == trimmed(s@),
{
    let cs = chars(s);
    let mut from: usize = 0;
    assert(cs@.subrange(0, cs@.len() as int) == s@);
    while from < cs.len() && cs[from].is_whitespace()
        invariant
            from <= cs@.len(),
            cs@ == s@,
            trim_start(cs@.subrange(from as int, cs@.len() as int)) == trim_start(s@),
        decreases cs@.len() - from,
    {
        assert(cs@.subrange(from as int, cs@.len() as int).drop_first() == cs@.subrange(
            from + 1,
            cs@.len() as int,
        ));
        from = from + 1;
    }
    let ghost rest = cs@.subrange(from as int, cs@.len() as int);
    assert(trim_start(s@) == rest);
    let mut to: usize = cs.len();
    while to > from && cs[to - 1].is_whitespace()
        invariant
            from <= to <= cs@.len(),
            trim_end(cs@.subrange(from as int, to as int)) == trim_end(rest),
        decreases to,
    {
        assert(cs@.subrange(from as int, to as int).drop_last() == cs@.subrange(
            from as int,
            to - 1,
        ));
        to = to - 1;
    }
    text_of(&cs, from, to)
}

/// What stands between the double quotes that `s` begins and ends with.
pub open spec fn unquoted(s: Seq<char>) -> Option<Seq<char>> {
    if s.len() >= 2 && s[0] == '"' && s.last() == '"' {
        Some(s.subrange(1, s.len() - 1))
    } else {
        None
    }
}

/// The view of an optional string.
pub open spec fn view_of(s: Option<String>) -> Option<Seq<char>> {
    match s {
        Some(s) => Some(s@),
        None => None,
    }
}

/// What stands between the double quotes that `s` begins and ends with.
pub fn unquote(s: &str) -> (r: Option<String>)
    ensures
        view_of(r) == unquoted(s@),
{
    let cs = chars(s);
    if cs.len() >= 2 && cs[0] == '"' && cs[cs.len() - 1] == '"' {
        Some(text_of(&cs, 1, cs.len() - 1))
    } else {
        None
    }
}

/// `s` after its first `n` characters.
pub fn skip(s: &str, n: usize) -> (r: String)
    requires
        n <= s@.len(),
    ensures
        r@ == s@.skip(n as int),
{
    let cs = chars(s);
    text_of(&cs, n, cs.len())
}

/// `c` is a decimal digit.
pub open spec fn is_digit(c: char) -> bool {
    '0' <= c <= '9'
}

/// The number that a sequence of decimal digits stands for.
pub open spec fn digits_value(s: Seq<char>) -> nat
    decreases s.len(),
{
    if s.len() == 0 {
        0
    } else {
        10 * digits_value(s.drop_last()) + (s.last() as nat - '0' as nat) as nat
    }
}

/// `s` without a plus sign at its beginning.
pub open spec fn without_plus(s: Seq<char>) -> Seq<char> {
    if s.len() > 0 && s[0] == '+' {
        s.drop_first()
    } else {
        s
    }
}

/// The number that `s` stands for: an optional plus sign, then decimal digits,
/// at least one, whose value fits.
pub open spec fn number(s: Seq<char>) -> Option<usize> {
    let digits = without_plus(s);
    if digits.len() > 0 && (forall|i: int| 0 <= i < digits.len() ==> is_digit(#[trigger] digits[i]))
        && digits_value(digits) <= usize::MAX {
        Some(digits_value(digits) as usize)
    } else {
        None
    }
}

/// More digits stand for no smaller a number.
proof fn digits_value_grows(s: Seq<char>, n: int)
    requires
        0 <= n <= s.len(),
    ensures
        digits_value(s.take(n)) <= digits_value(s),
    decreases s.len() - n,
{
    if n < s.len() {
        digits_value_grows(s, n + 1);
        assert(s.take(n + 1).drop_last() == s.take(n));
    } else {
        assert(s.take(n) == s);
    }
}

/// The number that `s` stands for, if any.
pub fn parse_number(s: &str) -> (r: Option<usize>)
    ensures
        r == number(s@),
{
    let cs = chars(s);
    let from: usize = if cs.len() > 0 && cs[0] == '+' {
        1
    } else {
        0
    };
    let ghost digits = without_plus(s@);
    assert(digits == cs@.skip(from as int));
    if from == cs.len() {
        return None;
    }
    let mut value: usize = 0;
    let mut i: usize = from;
    assert(digits.take(0) == Seq::<char>::empty());
    while i < cs.len()
        invariant
            from <= i <= cs@.len(),
            digits == cs@.skip(from as int),
            digits == without_plus(s@),
            forall|j: int| 0 <= j < i - from ==> is_digit(#[trigger] digits[j]),
            value == digits_value(digits.take(i - from)),
        decreases cs@.len() - i,
    {
        let c = cs[i];
        let ghost k = i - from;
        assert(digits[k] == c);
        if !('0' <= c && c <= '9') {
            assert(!is_digit(digits[k]));
            return None;
        }
        let d: usize = (c as u32 - '0' as u32) as usize;
        proof {
            assert(digits.take(k + 1).drop_last() == digits.take(k));
            digits_value_grows(digits, k + 1);
        }
        match value.checked_mul(10) {
            Some(tens) => match tens.checked_add(d) {
                Some(sum) => {
                    value = sum;
                },
                None => {
                    return None;
                },
            },
            None => {
                return None;
            },
        }
        i = i + 1;
    }
    assert(digits.take(i - from) == digits);
    Some(value)
}

} // verus!
