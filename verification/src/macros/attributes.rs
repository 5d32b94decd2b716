//! The attributes that are given to a macro: `key = "value"`, with commas
//! between them.
use crate::macros::module::Rejection;
use crate::macros::tokens::{print, printed};
use crate::text::{
    all_white, is_white_space, join, same, split, split_at_each, split_joined, split_parts, trim,
    trimmed, trimmed_of_white, unquote, unquoted, view_of, views,
};
use proc_macro2::TokenStream;
use vstd::prelude::*;

verus! {

/// The key of an attribute: what stands before its first equals sign.
pub open spec fn attr_key(arg: Seq<char>) -> Seq<char> {
    trimmed(split(arg, '=').first())
}

/// The value of an attribute: what stands in quotes behind its last equals
/// sign, if it is quoted.
pub open spec fn attr_value(arg: Seq<char>) -> Option<Seq<char>> {
    unquoted(trimmed(split(arg, '=').last()))
}

/// What is wrong with the attributes that are given to a macro.
pub enum Fault {
    /// An attribute that is needed is not given.
    Missing(Seq<char>),
    /// The value of an attribute is not quoted.
    Unquoted(Seq<char>),
}

/// `fault` is what `rejection` says.
pub open spec fn says(rejection: Rejection, fault: Fault) -> bool {
    match (rejection, fault) {
        (Rejection::Missing(key), Fault::Missing(k)) => key@ == k,
        (Rejection::Unquoted(key), Fault::Unquoted(k)) => key@ == k,
        _ => false,
    }
}

/// The value of the last of `args` that has the key `key`. None of those that
/// have it may be without quotes.
pub open spec fn attr_among(args: Seq<Seq<char>>, key: Seq<char>) -> Result<
    Option<Seq<char>>,
    Fault,
>
    decreases args.len(),
{
    if args.len() == 0 {
        Ok(None)
    } else {
        match attr_among(args.drop_last(), key) {
            Err(f) => Err(f),
            Ok(before) => if attr_key(args.last()) != key {
                Ok(before)
            } else if attr_value(args.last()) is None {
                Err(Fault::Unquoted(key))
            } else {
                Ok(attr_value(args.last()))
            },
        }
    }
}

/// The value of the attribute `key` in `text`, where it is given.
pub open spec fn attr(text: Seq<char>, key: Seq<char>) -> Result<Option<Seq<char>>, Fault> {
    attr_among(split(text, ','), key)
}

/// The value of the attribute `key` in `text`, which has to be given.
pub open spec fn needed_attr(text: Seq<char>, key: Seq<char>) -> Result<Seq<char>, Fault> {
    match attr(text, key) {
        Err(f) => Err(f),
        Ok(Some(value)) => Ok(value),
        Ok(None) => Err(Fault::Missing(key)),
    }
}

/// The value of the attribute `key` in `text`.
pub fn attr_in(text: &str, key: &str) -> (r: Result<Option<String>, Rejection>)
    ensures
        match attr(text@, key@) {
            Ok(value) => r matches Ok(v) && view_of(v) == value,
            Err(fault) => r matches Err(e) && says(e, fault),
        },
{
    let args = split_at_each(text, ',');
    let ghost all = views(args@);
    let mut value: Option<String> = None;
    let mut i: usize = 0;
    assert(all.take(0) == Seq::<Seq<char>>::empty());
    while i < args.len()
        invariant
            i <= args@.len(),
            all == views(args@),
            attr_among(all.take(i as int), key@) == Ok::<Option<Seq<char>>, Fault>(view_of(value)),
            all == split(text@, ','),
        decreases args@.len() - i,
    {
        assert(all.take(i + 1).drop_last() == all.take(i as int));
        assert(all[i as int] == args@[i as int]@);
        let parts = split_at_each(args[i].as_str(), '=');
        proof {
            split_parts(args@[i as int]@, '=');
            assert(views(parts@).len() == parts@.len());
            assert(views(parts@).first() == parts@[0]@);
            assert(views(parts@).last() == parts@.last()@);
        }
        let found = trim(parts[0].as_str());
        if same(found.as_str(), key) {
            let written = trim(parts[parts.len() - 1].as_str());
            match unquote(written.as_str()) {
                Some(v) => {
                    value = Some(v);
                },
                None => {
                    proof {
                        unquoted_stays(all, i + 1, key@);
                    }
                    return Err(Rejection::Unquoted(key.to_string()));
                },
            }
        }
        i = i + 1;
    }
    assert(all.take(i as int) == all);
    Ok(value)
}

/// What is wrong among the first attributes is wrong among all of them.
proof fn unquoted_stays(args: Seq<Seq<char>>, n: int, key: Seq<char>)
    requires
        0 <= n <= args.len(),
        attr_among(args.take(n), key) is Err,
    ensures
        attr_among(args, key) == attr_among(args.take(n), key),
    decreases args.len() - n,
{
    if n < args.len() {
        assert(args.take(n + 1).drop_last() == args.take(n));
        unquoted_stays(args, n + 1, key);
    } else {
        assert(args.take(n) == args);
    }
}

/// The value of the attribute `key` among those that are given to a macro.
pub fn get_attr(args: &TokenStream, key: &str) -> (r: Result<Option<String>, Rejection>)
    ensures
        match attr(printed(*args), key@) {
            Ok(value) => r matches Ok(v) && view_of(v) == value,
            Err(fault) => r matches Err(e) && says(e, fault),
        },
{
    let text = print(args);
    attr_in(text.as_str(), key)
}

/// The value of the attribute `key` in `text`, which has to be given.
pub fn needed_attr_in(text: &str, key: &str) -> (r: Result<String, Rejection>)
    ensures
        match needed_attr(text@, key@) {
            Ok(value) => r matches Ok(v) && v@ == value,
            Err(fault) => r matches Err(e) && says(e, fault),
        },
{
    match attr_in(text, key) {
        Ok(Some(value)) => Ok(value),
        Ok(None) => Err(Rejection::Missing(key.to_string())),
        Err(e) => Err(e),
    }
}

/// What an attribute is: it has none where no argument has its key; it has no
/// value where one that has its key is not quoted; else it has the value of the
/// last argument with its key.
pub proof fn last_attr_counts(args: Seq<Seq<char>>, key: Seq<char>)
    ensures
        attr_among(args, key) == Ok::<Option<Seq<char>>, Fault>(None) <==> (forall|i: int|
            0 <= i < args.len() ==> attr_key(#[trigger] args[i]) != key),
        attr_among(args, key) is Err <==> (exists|i: int|
            0 <= i < args.len() && attr_key(#[trigger] args[i]) == key && attr_value(args[i])
                is None),
        attr_among(args, key) is Err ==> attr_among(args, key)->Err_0 == Fault::Unquoted(key),
        forall|i: int|
            #![trigger args[i]]
            0 <= i < args.len() && attr_key(args[i]) == key && attr_among(args, key) is Ok && (
            forall|j: int| i < j < args.len() ==> attr_key(#[trigger] args[j]) != key)
                ==> attr_among(args, key) == Ok::<Option<Seq<char>>, Fault>(attr_value(args[i])),
    decreases args.len(),
{
    if args.len() > 0 {
        let front = args.drop_last();
        last_attr_counts(front, key);
        let n = front.len();
        assert(args[n as int] == args.last());
        assert forall|i: int| 0 <= i < n implies front[i] == #[trigger] args[i] by {}
        if attr_among(front, key) is Err {
            let i = choose|i: int|
                0 <= i < front.len() && attr_key(#[trigger] front[i]) == key && attr_value(
                    front[i],
                ) is None;
            assert(args[i] == front[i]);
        }
        if exists|i: int|
            0 <= i < args.len() && attr_key(#[trigger] args[i]) == key && attr_value(args[i])
                is None {
            let i = choose|i: int|
                0 <= i < args.len() && attr_key(#[trigger] args[i]) == key && attr_value(args[i])
                    is None;
            if i < n {
                assert(front[i] == args[i]);
            }
        }
        assert forall|i: int|
            #![trigger args[i]]
            0 <= i < args.len() && attr_key(args[i]) == key && attr_among(args, key) is Ok && (
            forall|j: int|
                i < j < args.len() ==> attr_key(
                    #[trigger] args[j],
                ) != key) implies attr_among(args, key) == Ok::<Option<Seq<char>>, Fault>(
            attr_value(args[i]),
        ) by {
            if i < n {
                assert(attr_key(args[n as int]) != key);
                assert(front[i] == args[i]);
                assert forall|j: int| i < j < front.len() implies attr_key(#[trigger] front[j])
                    != key by {
                    assert(front[j] == args[j]);
                }
            }
        }
        if attr_among(args, key) == Ok::<Option<Seq<char>>, Fault>(None) {
            assert forall|i: int| 0 <= i < args.len() implies attr_key(#[trigger] args[i]) != key by {
                if i < n {
                    assert(front[i] == args[i]);
                }
            }
        }
        if forall|i: int| 0 <= i < args.len() ==> attr_key(#[trigger] args[i]) != key {
            assert forall|i: int| 0 <= i < front.len() implies attr_key(#[trigger] front[i])
                != key by {
                assert(front[i] == args[i]);
            }
            assert(attr_key(args[n as int]) != key);
        }
    }
}

/// An attribute as it is given: `key = "value"`, with any white space around
/// each of its parts.
pub struct Given {
    pub before: Seq<char>,
    pub key: Seq<char>,
    pub middle: Seq<char>,
    pub behind: Seq<char>,
    pub value: Seq<char>,
    pub after: Seq<char>,
}

impl Given {
    /// The key has no white space around it, and neither the key nor the value
    /// holds a comma or an equals sign.
    pub open spec fn well_formed(self) -> bool {
        &&& all_white(self.before) && all_white(self.middle)
        &&& all_white(self.behind) && all_white(self.after)
        &&& self.key.len() > 0 && !is_white_space(self.key[0]) && !is_white_space(self.key.last())
        &&& !self.key.contains(',') && !self.key.contains('=')
        &&& !self.value.contains(',') && !self.value.contains('=')
    }

    /// What stands before the equals sign.
    pub open spec fn left(self) -> Seq<char> {
        self.before + self.key + self.middle
    }

    /// The value in quotes.
    pub open spec fn quoted(self) -> Seq<char> {
        seq!['"'] + self.value + seq!['"']
    }

    /// What stands behind the equals sign.
    pub open spec fn right(self) -> Seq<char> {
        self.behind + self.quoted() + self.after
    }

    /// The text of the attribute.
    pub open spec fn text(self) -> Seq<char> {
        self.left().push('=') + self.right()
    }
}

/// The texts of attributes.
pub open spec fn given_texts(given: Seq<Given>) -> Seq<Seq<char>> {
    given.map_values(|a: Given| a.text())
}

/// The text of attributes, with commas between them.
pub open spec fn given_text(given: Seq<Given>) -> Seq<char> {
    join(given_texts(given), ',')
}

/// No character of a text is `c` where none of its three parts holds it.
proof fn none_in_parts(a: Seq<char>, b: Seq<char>, d: Seq<char>, c: char)
    requires
        !a.contains(c),
        !b.contains(c),
        !d.contains(c),
    ensures
        !(a + b + d).contains(c),
{
    let all = a + b + d;
    if all.contains(c) {
        let k = choose|k: int| 0 <= k < all.len() && all[k] == c;
        if k < a.len() {
            assert(a[k] == c);
        } else if k < a.len() + b.len() {
            assert(b[k - a.len()] == c);
        } else {
            assert(d[k - a.len() - b.len()] == c);
        }
    }
}

/// White space is neither a comma nor an equals sign.
proof fn white_separates_nothing(s: Seq<char>)
    requires
        all_white(s),
    ensures
        !s.contains(','),
        !s.contains('='),
{
}

/// A given attribute has its key and its value, and holds no comma.
pub(crate) proof fn given_is_read(a: Given)
    requires
        a.well_formed(),
    ensures
        attr_key(a.text()) == a.key,
        attr_value(a.text()) == Some(a.value),
        !a.text().contains(','),
{
    white_separates_nothing(a.before);
    white_separates_nothing(a.middle);
    white_separates_nothing(a.behind);
    white_separates_nothing(a.after);
    let quote = seq!['"'];
    none_in_parts(quote, a.value, quote, '=');
    none_in_parts(quote, a.value, quote, ',');
    none_in_parts(a.before, a.key, a.middle, '=');
    none_in_parts(a.before, a.key, a.middle, ',');
    none_in_parts(a.behind, a.quoted(), a.after, '=');
    none_in_parts(a.behind, a.quoted(), a.after, ',');
    none_in_parts(a.left(), seq!['='], a.right(), ',');
    assert(a.text() == a.left() + seq!['='] + a.right());
    let parts = seq![a.left(), a.right()];
    assert(parts.drop_last() == seq![a.left()]);
    assert(join(parts.drop_last(), '=') == a.left());
    assert(join(parts, '=') == a.text());
    split_joined(parts, '=');
    trimmed_of_white(a.before, a.key, a.middle);
    trimmed_of_white(a.behind, a.quoted(), a.after);
    assert(a.quoted().subrange(1, a.quoted().len() - 1) == a.value);
}

/// `given` are attributes that can be told apart.
pub open spec fn distinct_given(given: Seq<Given>) -> bool {
    &&& forall|i: int| 0 <= i < given.len() ==> (#[trigger] given[i]).well_formed()
    &&& forall|i: int, j: int|
        0 <= i < j < given.len() ==> (#[trigger] given[i]).key != (#[trigger] given[j]).key
}

/// Each of several distinct attributes has the value that it is given.
pub proof fn each_attr_has_its_value(given: Seq<Given>, i: int)
    requires
        distinct_given(given),
        0 <= i < given.len(),
    ensures
        attr(given_text(given), given[i].key) == Ok::<Option<Seq<char>>, Fault>(
            Some(given[i].value),
        ),
{
    let args = given_texts(given);
    assert forall|j: int| 0 <= j < args.len() implies !(#[trigger] args[j]).contains(',')
        && attr_key(args[j]) == given[j].key && attr_value(args[j]) == Some(given[j].value) by {
        given_is_read(given[j]);
    }
    split_joined(args, ',');
    let key = given[i].key;
    last_attr_counts(args, key);
    assert(attr_key(args[i]) == key);
    assert forall|j: int| i < j < args.len() implies attr_key(#[trigger] args[j]) != key by {
        assert(given[j].key != given[i].key);
    }
}

/// An attribute that is not among those that are given has no value.
pub proof fn no_attr_no_value(given: Seq<Given>, key: Seq<char>)
    requires
        distinct_given(given),
        given.len() > 0 || key.len() > 0,
        forall|i: int| 0 <= i < given.len() ==> (#[trigger] given[i]).key != key,
    ensures
        attr(given_text(given), key) == Ok::<Option<Seq<char>>, Fault>(None),
{
    if given.len() == 0 {
        let none = Seq::<char>::empty();
        assert(split(none, ',') == seq![none]);
        assert(attr_key(none) == none);
        last_attr_counts(seq![none], key);
    } else {
        let args = given_texts(given);
        assert forall|j: int| 0 <= j < args.len() implies !(#[trigger] args[j]).contains(',')
            && attr_key(args[j]) == given[j].key by {
            given_is_read(given[j]);
        }
        split_joined(args, ',');
        last_attr_counts(args, key);
    }
}

/// The keys and values of attributes.
pub open spec fn given_values(given: Seq<Given>) -> Seq<(Seq<char>, Seq<char>)> {
    given.map_values(|a: Given| (a.key, a.value))
}

/// Where the same keys and values are given in another order, no two of them
/// have the same key either, and each of them is still there.
proof fn still_distinct(given: Seq<Given>, again: Seq<Given>)
    requires
        distinct_given(given),
        forall|i: int| 0 <= i < again.len() ==> (#[trigger] again[i]).well_formed(),
        given_values(given).to_multiset() == given_values(again).to_multiset(),
    ensures
        distinct_given(again),
        again.len() == given.len(),
        forall|a: (Seq<char>, Seq<char>)| #[trigger]
            given_values(given).contains(a) <==> given_values(again).contains(a),
{
    let first = given_values(given);
    let second = given_values(again);
    first.to_multiset_ensures();
    second.to_multiset_ensures();
    assert forall|a: (Seq<char>, Seq<char>)| #[trigger] first.contains(a) <==> second.contains(a) by {
        assert(first.contains(a) <==> first.to_multiset().count(a) > 0);
        assert(second.contains(a) <==> second.to_multiset().count(a) > 0);
    }
    assert forall|i: int, j: int| 0 <= i < j < first.len() implies first[i] != first[j] by {
        assert(given[i].key != given[j].key);
    }
    first.lemma_multiset_has_no_duplicates();
    second.lemma_multiset_has_no_duplicates_conv();
    assert forall|i: int, j: int| 0 <= i < j < again.len() implies (#[trigger] again[i]).key != (
    #[trigger] again[j]).key by {
        assert(second.contains(second[i]) && first.contains(second[i]));
        assert(second.contains(second[j]) && first.contains(second[j]));
        let p = choose|p: int| 0 <= p < first.len() && first[p] == second[i];
        let q = choose|q: int| 0 <= q < first.len() && first[q] == second[j];
        assert(second[i] != second[j]);
        assert(given[p].key == again[i].key);
        assert(given[q].key == again[j].key);
        if p < q {
            assert(given[p].key != given[q].key);
        } else {
            assert(given[q].key != given[p].key);
        }
    }
}

/// The order in which distinct attributes are given does not count, nor does
/// the white space around their parts.
pub proof fn order_does_not_count(given: Seq<Given>, again: Seq<Given>, key: Seq<char>)
    requires
        distinct_given(given),
        forall|i: int| 0 <= i < again.len() ==> (#[trigger] again[i]).well_formed(),
        given_values(given).to_multiset() == given_values(again).to_multiset(),
    ensures
        attr(given_text(again), key) == attr(given_text(given), key),
{
    still_distinct(given, again);
    let first = given_values(given);
    let second = given_values(again);
    if given.len() == 0 {
        assert(given_texts(again) == given_texts(given));
    } else if exists|i: int| 0 <= i < given.len() && (#[trigger] given[i]).key == key {
        let i = choose|i: int| 0 <= i < given.len() && (#[trigger] given[i]).key == key;
        each_attr_has_its_value(given, i);
        assert(first[i] == (key, given[i].value));
        assert(first.contains(first[i]));
        assert(second.contains(first[i]));
        let j = choose|j: int| 0 <= j < second.len() && second[j] == first[i];
        each_attr_has_its_value(again, j);
        assert(second[j] == (again[j].key, again[j].value));
    } else {
        assert forall|j: int| 0 <= j < again.len() implies (#[trigger] again[j]).key != key by {
            assert(second.contains(second[j]) && first.contains(second[j]));
            let i = choose|i: int| 0 <= i < first.len() && first[i] == second[j];
            assert(given[i].key == again[j].key);
        }
        no_attr_no_value(given, key);
        no_attr_no_value(again, key);
    }
}

} // verus!
