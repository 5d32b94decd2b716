//! Laws of queries: what a running QEMU instance is sent.
use crate::instances::query::{arguments, distinct_keys, last_value_counts, query_text, QueryView};
use crate::instances::value::{all_escaped, has_key, json_quoted, json_text, object_text};
use crate::text::join;
use json::JsonValue;
use vstd::prelude::*;

verus! {

/// No name is given twice.
pub open spec fn distinct_names(args: Seq<(Seq<char>, JsonValue)>) -> bool {
    forall|i: int, j: int|
        0 <= i < j < args.len() ==> (#[trigger] args[i]).0 != (#[trigger] args[j]).0
}

/// Each name as it was given, with the text of its value.
pub open spec fn as_given(args: Seq<(Seq<char>, JsonValue)>) -> Seq<(Seq<char>, Seq<char>)> {
    args.map_values(|a: (Seq<char>, JsonValue)| (a.0, json_text(a.1)))
}

/// The text of a command and of the object of its arguments, in that order and
/// with nothing else.
pub open spec fn command_text(command: Seq<char>, object: Seq<char>) -> Seq<char> {
    "{\"execute\":"@ + json_quoted(command) + ",\"arguments\":"@ + object + "}"@
}

/// Text that needs no escape stands in a JSON string as it is.
proof fn plain_text(s: Seq<char>)
    requires
        forall|i: int| 0 <= i < s.len() ==> 'a' <= #[trigger] s[i] <= 'z',
    ensures
        all_escaped(s) == s,
    decreases s.len(),
{
    if s.len() > 0 {
        let front = s.drop_last();
        assert forall|i: int| 0 <= i < front.len() implies 'a' <= #[trigger] front[i] <= 'z' by {
            assert(front[i] == s[i]);
        }
        plain_text(front);
        assert(s.last() == s[s.len() - 1]);
        assert(front + seq![s.last()] == s);
    }
}

/// An object of two members.
proof fn text_of_two(command: Seq<char>, object: Seq<char>)
    ensures
        object_text(seq![("execute"@, json_quoted(command)), ("arguments"@, object)])
            == command_text(command, object),
{
    reveal_strlit("execute");
    reveal_strlit("arguments");
    reveal_strlit("{\"execute\":");
    reveal_strlit(",\"arguments\":");
    reveal_strlit("}");
    plain_text("execute"@);
    plain_text("arguments"@);
    let members = seq![("execute"@, json_quoted(command)), ("arguments"@, object)];
    let first = json_quoted("execute"@).push(':') + json_quoted(command);
    let second = json_quoted("arguments"@).push(':') + object;
    let parts = members.map_values(
        |m: (Seq<char>, Seq<char>)| json_quoted(m.0).push(':') + m.1,
    );
    assert(parts == seq![first, second]);
    assert(parts.drop_last() == seq![first]);
    assert(join(seq![first], ',') == first);
    assert(join(parts, ',') == first.push(',') + second);
    assert(seq!['{'] + (first.push(',') + second) + seq!['}'] == command_text(command, object));
}

/// The arguments of distinct names are themselves, in order.
proof fn distinct_arguments(args: Seq<(Seq<char>, JsonValue)>)
    requires
        distinct_names(args),
    ensures
        arguments(args) == as_given(args),
    decreases args.len(),
{
    if args.len() == 0 {
        assert(as_given(args) == Seq::<(Seq<char>, Seq<char>)>::empty());
    } else {
        let front = args.drop_last();
        assert forall|i: int, j: int| 0 <= i < j < front.len() implies (#[trigger] front[i]).0 != (
        #[trigger] front[j]).0 by {
            assert(args[i].0 != args[j].0);
        }
        distinct_arguments(front);
        let before = arguments(front);
        if has_key(before, args.last().0) {
            let k = choose|k: int|
                0 <= k < before.len() && (#[trigger] before[k]).0 == args.last().0;
            assert(before[k].0 == args[k].0);
            assert(args[k].0 != args[args.len() - 1].0);
        }
        assert(before.push((args.last().0, json_text(args.last().1))) == as_given(args));
    }
}

/// A query whose arguments have distinct names is sent as its command and the
/// object of its arguments: each name as it was given, with its value, in order.
pub proof fn query_of_distinct_names(query: QueryView)
    requires
        distinct_names(query.args),
    ensures
        query_text(query) == command_text(query.command, object_text(as_given(query.args))),
{
    distinct_arguments(query.args);
    text_of_two(query.command, object_text(as_given(query.args)));
}

/// `members` are what `args` make: each name that was given stands once, in the
/// order in which the names were first given, with the value given to it last;
/// no other name stands there.
pub open spec fn made_of(
    members: Seq<(Seq<char>, Seq<char>)>,
    args: Seq<(Seq<char>, JsonValue)>,
) -> bool {
    &&& distinct_keys(members)
    &&& forall|i: int|
        #![trigger args[i]]
        0 <= i < args.len() && (forall|j: int|
            i < j < args.len() ==> (#[trigger] args[j]).0 != args[i].0) ==> members.contains(
            (args[i].0, json_text(args[i].1)),
        )
    &&& forall|k: int|
        0 <= k < members.len() ==> exists|i: int|
            0 <= i < args.len() && (#[trigger] args[i]).0 == (#[trigger] members[k]).0
    &&& forall|k: int, l: int|
        0 <= k < l < members.len() ==> #[trigger] comes_first(args, members[k].0, members[l].0)
}

/// The name `a` was given before the name `b` was.
pub open spec fn comes_first(
    args: Seq<(Seq<char>, JsonValue)>,
    a: Seq<char>,
    b: Seq<char>,
) -> bool {
    exists|i: int| #[trigger] given_before(args, a, b, i)
}

/// The name `a` was given at `i`, and `b` not up to there.
pub open spec fn given_before(
    args: Seq<(Seq<char>, JsonValue)>,
    a: Seq<char>,
    b: Seq<char>,
    i: int,
) -> bool {
    &&& 0 <= i < args.len()
    &&& args[i].0 == a
    &&& forall|j: int| 0 <= j <= i ==> (#[trigger] args[j]).0 != b
}

/// A query is sent as its command and an object that its arguments make.
pub proof fn query_of_any_names(query: QueryView)
    ensures
        exists|members: Seq<(Seq<char>, Seq<char>)>|
            query_text(query) == command_text(query.command, #[trigger] object_text(members))
                && made_of(members, query.args),
{
    let members = arguments(query.args);
    last_value_counts(query.args);
    first_given_first(query.args);
    text_of_two(query.command, object_text(members));
    assert(made_of(members, query.args));
}

/// The names stand in the order in which they were first given.
proof fn first_given_first(args: Seq<(Seq<char>, JsonValue)>)
    ensures
        forall|k: int, l: int|
            0 <= k < l < arguments(args).len() ==> #[trigger] comes_first(
                args,
                arguments(args)[k].0,
                arguments(args)[l].0,
            ),
    decreases args.len(),
{
    if args.len() > 0 {
        let front = args.drop_last();
        first_given_first(front);
        last_value_counts(front);
        let before = arguments(front);
        let all = arguments(args);
        let key = args.last().0;
        assert forall|k: int, l: int| 0 <= k < l < all.len() implies #[trigger] comes_first(
            args,
            all[k].0,
            all[l].0,
        ) by {
            assert(k < before.len() && all[k].0 == before[k].0);
            if l < before.len() {
                assert(all[l].0 == before[l].0);
                assert(comes_first(front, before[k].0, before[l].0));
                let i = choose|i: int| given_before(front, before[k].0, before[l].0, i);
                assert forall|j: int| 0 <= j <= i implies (#[trigger] args[j]).0 != all[l].0 by {
                    assert(front[j] == args[j]);
                }
                assert(given_before(args, all[k].0, all[l].0, i));
            } else {
                assert(!has_key(before, key));
                let i = choose|i: int|
                    0 <= i < front.len() && (#[trigger] front[i]).0 == before[k].0;
                assert forall|j: int| 0 <= j <= i implies (#[trigger] args[j]).0 != key by {
                    assert(front[j] == args[j]);
                    if args[j].0 == key {
                        given_is_there(front, j);
                    }
                }
                assert(given_before(args, all[k].0, all[l].0, i));
            }
        }
    }
}

/// A name that was given stands among the members.
proof fn given_is_there(args: Seq<(Seq<char>, JsonValue)>, i: int)
    requires
        0 <= i < args.len(),
    ensures
        has_key(arguments(args), args[i].0),
    decreases args.len(),
{
    let front = args.drop_last();
    let before = arguments(front);
    let all = arguments(args);
    let key = args[i].0;
    if i < front.len() {
        given_is_there(front, i);
        assert(front[i] == args[i]);
        let k = choose|k: int| 0 <= k < before.len() && (#[trigger] before[k]).0 == key;
        assert(all[k].0 == key);
    } else if has_key(before, key) {
        let k = choose|k: int| 0 <= k < before.len() && (#[trigger] before[k]).0 == key;
        assert(all[k].0 == key);
    } else {
        assert(all[before.len() as int].0 == key);
    }
}

} // verus!
