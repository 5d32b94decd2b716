//! Laws of text.
use crate::text::{
    all_white, digits_value, is_digit, is_white_space, join, number, occurs, occurs_at, split,
    split_longer_part, split_parts, trim_end, trim_start, trimmed, unquoted, view_of, views,
    without_plus,
};
use vstd::prelude::*;

verus! {

/// A text holds another one exactly where it can be cut into three, with that
/// one in the middle.
pub proof fn occurs_in_the_middle(s: Seq<char>, needle: Seq<char>)
    ensures
        occurs(s, needle) <==> exists|a: Seq<char>, b: Seq<char>|
            s == #[trigger] ((a + needle) + b),
{
    if occurs(s, needle) {
        let i = choose|i: int| occurs_at(s, needle, i);
        let a = s.take(i);
        let b = s.skip(i + needle.len());
        assert(s == (a + needle) + b);
    }
    if exists|a: Seq<char>, b: Seq<char>| s == #[trigger] ((a + needle) + b) {
        let (a, b) = choose|a: Seq<char>, b: Seq<char>| s == #[trigger] ((a + needle) + b);
        assert(s.subrange(a.len() as int, a.len() as int + needle.len()) == needle);
        assert(occurs_at(s, needle, a.len() as int));
    }
}

/// A text without the separator is one part; behind another text and a
/// separator it is one part more.
pub proof fn split_one_more(a: Seq<char>, b: Seq<char>, sep: char)
    requires
        !b.contains(sep),
    ensures
        split(b, sep) == seq![b],
        split(a.push(sep) + b, sep) == split(a, sep).push(b),
{
    let none = Seq::<char>::empty();
    assert(split(none, sep) == seq![none]);
    split_longer_part(none, b, sep);
    assert(none + b == b);
    assert(seq![none].drop_last().push(b) == seq![b]);
    assert(seq![none].last() == none);
    split_parts(a, sep);
    let s = a.push(sep);
    assert(s.drop_last() == a);
    assert(split(s, sep) == split(a, sep).push(none));
    split_longer_part(s, b, sep);
    assert(split(a, sep).push(none).drop_last() == split(a, sep));
}

/// Joining puts the separator between the parts, and nothing else.
pub proof fn join_one_more(parts: Seq<Seq<char>>, part: Seq<char>, sep: char)
    ensures
        join(seq![part], sep) == part,
        parts.len() > 0 ==> join(parts.push(part), sep) == join(parts, sep) + seq![sep] + part,
{
    assert(parts.push(part).drop_last() == parts);
}

/// Nothing is left of white space.
pub proof fn trimmed_white(s: Seq<char>)
    requires
        all_white(s),
    ensures
        trimmed(s) == Seq::<char>::empty(),
    decreases s.len(),
{
    if s.len() > 0 {
        trimmed_white(s.drop_first());
    } else {
        assert(s == Seq::<char>::empty());
    }
}

/// Trimming cuts white space off either end, and leaves none there.
pub proof fn trimmed_is_in_the_middle(s: Seq<char>)
    ensures
        exists|a: Seq<char>, b: Seq<char>|
            s == #[trigger] ((a + trimmed(s)) + b) && all_white(a) && all_white(b),
        trimmed(s).len() > 0 ==> !is_white_space(trimmed(s)[0]) && !is_white_space(
            trimmed(s).last(),
        ),
{
    let a = cut_start(s);
    let t = trim_start(s);
    let b = cut_end(t);
    assert(s == (a + trimmed(s)) + b);
    if trimmed(s).len() > 0 {
        assert(trimmed(s)[0] == t[0]);
    }
}

/// The white space at the beginning of a text.
proof fn cut_start(s: Seq<char>) -> (a: Seq<char>)
    ensures
        s == a + trim_start(s),
        all_white(a),
        trim_start(s).len() > 0 ==> !is_white_space(trim_start(s)[0]),
    decreases s.len(),
{
    if s.len() > 0 && is_white_space(s[0]) {
        let a = cut_start(s.drop_first());
        let all = seq![s[0]] + a;
        assert(s == seq![s[0]] + s.drop_first());
        assert(trim_start(s) == trim_start(s.drop_first()));
        assert(seq![s[0]] + (a + trim_start(s)) == all + trim_start(s));
        all
    } else {
        let none = Seq::<char>::empty();
        assert(s == none + s);
        none
    }
}

/// The white space at the end of a text.
proof fn cut_end(s: Seq<char>) -> (b: Seq<char>)
    ensures
        s == trim_end(s) + b,
        all_white(b),
        trim_end(s).len() > 0 ==> !is_white_space(trim_end(s).last()),
    decreases s.len(),
{
    if s.len() > 0 && is_white_space(s.last()) {
        let b = cut_end(s.drop_last());
        let all = b.push(s.last());
        assert(s == s.drop_last().push(s.last()));
        assert(trim_end(s) == trim_end(s.drop_last()));
        assert((trim_end(s) + b).push(s.last()) == trim_end(s) + all);
        all
    } else {
        let none = Seq::<char>::empty();
        assert(s == s + none);
        none
    }
}

/// What is unquoted stands between two double quotes, which are all that is
/// taken off.
pub proof fn unquoted_and_quoted(s: Seq<char>, v: Seq<char>)
    ensures
        unquoted(s) == Some(v) <==> s == seq!['"'] + v + seq!['"'],
{
    if s == seq!['"'] + v + seq!['"'] {
        assert(s.subrange(1, s.len() - 1) == v);
    }
    if unquoted(s) == Some(v) {
        assert(s == seq!['"'] + v + seq!['"']);
    }
}

/// The decimal digit for a number below ten.
pub open spec fn digit(n: nat) -> char {
    seq!['0', '1', '2', '3', '4', '5', '6', '7', '8', '9'][n as int]
}

/// The decimal writing of a number.
pub open spec fn decimal(n: nat) -> Seq<char>
    decreases n,
{
    if n < 10 {
        seq![digit(n)]
    } else {
        decimal(n / 10).push(digit(n % 10))
    }
}

/// The decimal writing of a number is digits that stand for it.
pub(crate) proof fn decimal_is_digits(n: nat)
    ensures
        decimal(n).len() > 0,
        forall|i: int| 0 <= i < decimal(n).len() ==> is_digit(#[trigger] decimal(n)[i]),
        digits_value(decimal(n)) == n,
        decimal(n)[0] != '+',
    decreases n,
{
    let last = decimal(n).last();
    assert(is_digit(last) && last as nat - '0' as nat == n % 10);
    if n < 10 {
        assert(decimal(n).drop_last() == Seq::<char>::empty());
        assert(digits_value(Seq::<char>::empty()) == 0);
    } else {
        decimal_is_digits(n / 10);
        assert(decimal(n).drop_last() == decimal(n / 10));
        assert forall|i: int| 0 <= i < decimal(n).len() implies is_digit(
            #[trigger] decimal(n)[i],
        ) by {
            if i < decimal(n / 10).len() {
                assert(decimal(n)[i] == decimal(n / 10)[i]);
            }
        }
        assert(decimal(n)[0] == decimal(n / 10)[0]);
    }
}

/// The decimal writing of a number, of however many digits, is read as that
/// number, if it fits.
pub proof fn decimal_is_read(n: nat)
    ensures
        n <= usize::MAX ==> number(decimal(n)) == Some(n as usize),
        n > usize::MAX ==> number(decimal(n)) is None,
{
    decimal_is_digits(n);
}

/// Zeros before the digits, and one plus sign before them, do not count.
pub proof fn zeros_and_plus(s: Seq<char>)
    requires
        s.len() > 0,
        is_digit(s[0]),
    ensures
        number(seq!['0'] + s) == number(s),
        number(seq!['+'] + s) == number(s),
{
    let zero = seq!['0'] + s;
    let plus = seq!['+'] + s;
    assert(without_plus(plus) == s);
    leading_zero(s);
    assert(zero[0] == '0');
    if forall|i: int| 0 <= i < s.len() ==> is_digit(#[trigger] s[i]) {
        assert forall|i: int| 0 <= i < zero.len() implies is_digit(#[trigger] zero[i]) by {
            if i > 0 {
                assert(zero[i] == s[i - 1]);
            }
        }
    } else {
        let i = choose|i: int| 0 <= i < s.len() && !is_digit(#[trigger] s[i]);
        assert(zero[i + 1] == s[i]);
    }
}

proof fn leading_zero(s: Seq<char>)
    ensures
        digits_value(seq!['0'] + s) == digits_value(s),
    decreases s.len(),
{
    let zero = seq!['0'] + s;
    if s.len() == 0 {
        assert(zero.drop_last() == s);
        assert(zero.last() == '0');
    } else {
        assert(zero.drop_last() == seq!['0'] + s.drop_last());
        leading_zero(s.drop_last());
    }
}

/// What holds anything but digits behind its first character, or begins with
/// anything but a digit or a plus sign, or holds no digit, is no number.
pub proof fn only_digits_are_read(s: Seq<char>, i: int)
    requires
        0 <= i < s.len(),
        !('0' <= s[i] <= '9'),
        i > 0 || s[i] != '+' || s.len() == 1,
    ensures
        number(s) is None,
        number(Seq::<char>::empty()) is None,
{
    if s[0] == '+' {
        if i > 0 {
            assert(without_plus(s)[i - 1] == s[i]);
            assert(!is_digit(without_plus(s)[i - 1]));
        }
    } else {
        assert(without_plus(s) == s);
        assert(!is_digit(s[i]));
    }
}

/// The views of strings are those of each of them.
pub proof fn views_are_of_each(strings: Seq<String>, some: Option<String>)
    ensures
        views(strings).len() == strings.len(),
        forall|i: int| 0 <= i < strings.len() ==> #[trigger] views(strings)[i] == strings[i]@,
        some is None <==> view_of(some) is None,
        some matches Some(s) ==> view_of(some) == Some(s@),
{
}

} // verus!
