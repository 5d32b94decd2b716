//! Queries: what a running QEMU instance is asked over its QMP socket.
use crate::instances::value::{
    copy, from_string, has_key, json_quoted, json_text, members, new_object, object_text,
    print_object, set_member, with_member,
};
use json::JsonValue;
use vstd::prelude::*;

verus! {

/// The kind of a query.
#[derive(Copy, Clone)]
pub enum QueryType {
    COMMAND,
}

/// A query: a command and its arguments.
#[derive(Clone)]
pub struct Query {
    query_type: QueryType,
    command: String,
    args: Vec<(String, JsonValue)>,
}

/// A query: a command and its arguments in the order in which they were given.
pub struct QueryView {
    pub query_type: QueryType,
    pub command: Seq<char>,
    pub args: Seq<(Seq<char>, JsonValue)>,
}

impl View for Query {
    type V = QueryView;

    closed spec fn view(&self) -> QueryView {
        QueryView {
            query_type: self.query_type,
            command: self.command@,
            args: self.args@.map_values(|a: (String, JsonValue)| (a.0@, a.1)),
        }
    }
}

/// The members of the object that the arguments make: each key once, where it
/// was given first, with the text of the value that it was given last.
pub open spec fn arguments(args: Seq<(Seq<char>, JsonValue)>) -> Seq<(Seq<char>, Seq<char>)>
    decreases args.len(),
{
    if args.len() == 0 {
        Seq::empty()
    } else {
        with_member(arguments(args.drop_last()), args.last().0, json_text(args.last().1))
    }
}

/// The text of a query, as QEMU is sent it.
pub open spec fn query_text(query: QueryView) -> Seq<char> {
    object_text(
        seq![
            ("execute"@, json_quoted(query.command)),
            ("arguments"@, object_text(arguments(query.args))),
        ],
    )
}

impl Query {
    /// A query without arguments.
    pub fn new(query_type: QueryType, command: &str) -> (r: Self)
        ensures
            r@ == (QueryView { query_type, command: command@, args: Seq::empty() }),
    {
        let r = Query { query_type, command: command.to_string(), args: Vec::new() };
        assert(r@.args == Seq::<(Seq<char>, JsonValue)>::empty());
        r
    }

    /// The query with one more argument.
    pub fn arg<T: Into<JsonValue>>(self, arg: &str, value: T) -> (r: Self)
        ensures
            exists|v: JsonValue|
                #![trigger self@.args.push((arg@, v))]
                call_ensures(<T as Into<JsonValue>>::into, (value,), v) && r@ == (QueryView {
                    args: self@.args.push((arg@, v)),
                    ..self@
                }),
    {
        let mut r = self;
        let v: JsonValue = value.into();
        r.args.push((arg.to_string(), v));
        assert(r@.args == self@.args.push((arg@, v)));
        r
    }
}

/// What can be sent to a QMP socket.
pub trait Queriable {
    /// The text that is sent.
    fn compute(&self) -> (r: String);
}

impl Queriable for Query {
    /// The query as JSON: the command and an object of its arguments.
    fn compute(&self) -> (r: String)
        ensures
            r@ == query_text(self@),
    {
        match self.query_type {
            QueryType::COMMAND => {
                let mut args = new_object();
                let ghost given = self@.args;
                let mut i: usize = 0;
                assert(given.take(0) == Seq::<(Seq<char>, JsonValue)>::empty());
                while i < self.args.len()
                    invariant
                        i <= self.args@.len() == given.len(),
                        given == self@.args,
                        members(args) == arguments(given.take(i as int)),
                        json_text(args) == object_text(members(args)),
                    decreases self.args@.len() - i,
                {
                    assert(given.take(i + 1).drop_last() == given.take(i as int));
                    assert(given[i as int] == (self.args@[i as int].0@, self.args@[i as int].1));
                    let value = copy(&self.args[i].1);
                    set_member(&mut args, self.args[i].0.as_str(), value);
                    i = i + 1;
                }
                assert(given.take(i as int) == given);
                let mut query = new_object();
                set_member(&mut query, "execute", from_string(self.command.clone()));
                assert(members(query) == seq![("execute"@, json_quoted(self@.command))]);
                proof {
                    reveal_strlit("execute");
                    reveal_strlit("arguments");
                }
                set_member(&mut query, "arguments", args);
                assert(members(query) == seq![
                    ("execute"@, json_quoted(self@.command)),
                    ("arguments"@, object_text(arguments(self@.args))),
                ]);
                print_object(&query)
            },
        }
    }
}

/// No two of the members have the same key.
pub open spec fn distinct_keys(members: Seq<(Seq<char>, Seq<char>)>) -> bool {
    forall|i: int, j: int|
        0 <= i < j < members.len() ==> (#[trigger] members[i]).0 != (#[trigger] members[j]).0
}

/// The arguments of a query are an object in which each name stands once, with
/// the value that it was given last; every name that was given stands in it.
pub proof fn last_value_counts(args: Seq<(Seq<char>, JsonValue)>)
    ensures
        distinct_keys(arguments(args)),
        forall|i: int|
            #![trigger args[i]]
            0 <= i < args.len() && (forall|j: int|
                i < j < args.len() ==> (#[trigger] args[j]).0 != args[i].0) ==> arguments(
                args,
            ).contains((args[i].0, json_text(args[i].1))),
        forall|k: int|
            0 <= k < arguments(args).len() ==> exists|i: int|
                0 <= i < args.len() && (#[trigger] args[i]).0 == (#[trigger] arguments(args)[k]).0,
    decreases args.len(),
{
    if args.len() > 0 {
        let front = args.drop_last();
        last_value_counts(front);
        let before = arguments(front);
        let all = arguments(args);
        let key = args.last().0;
        let text = json_text(args.last().1);
        let n = front.len() as int;
        assert(args[n] == args.last());
        assert forall|i: int| 0 <= i < n implies front[i] == #[trigger] args[i] by {}
        // The last argument is there, and the others are where they were.
        if has_key(before, key) {
            let k = choose|k: int| 0 <= k < before.len() && (#[trigger] before[k]).0 == key;
            assert(all[k] == (key, text));
        } else {
            assert(all[before.len() as int] == (key, text));
        }
        assert(all.contains((key, text)));
        assert forall|m: int| 0 <= m < before.len() implies (#[trigger] all[m]).0 == before[m].0
            && (before[m].0 != key ==> all[m] == before[m]) by {}
        assert forall|i: int, j: int| 0 <= i < j < all.len() implies (#[trigger] all[i]).0 != (
        #[trigger] all[j]).0 by {
            if j < before.len() {
                assert(before[i].0 != before[j].0);
            } else {
                assert(before[i].0 == all[i].0);
            }
        }
        assert forall|i: int|
            #![trigger args[i]]
            0 <= i < args.len() && (forall|j: int|
                i < j < args.len() ==> (#[trigger] args[j]).0 != args[i].0) implies all.contains(
            (args[i].0, json_text(args[i].1)),
        ) by {
            if i < n {
                assert(args[n].0 != args[i].0);
                assert(front[i] == args[i]);
                assert forall|j: int| i < j < front.len() implies (#[trigger] front[j]).0
                    != front[i].0 by {
                    assert(front[j] == args[j]);
                }
                let m = (front[i].0, json_text(front[i].1));
                assert(before.contains(m));
                let k = choose|k: int| 0 <= k < before.len() && before[k] == m;
                assert(all[k] == m);
            }
        }
        assert forall|k: int| 0 <= k < all.len() implies exists|i: int|
            0 <= i < args.len() && (#[trigger] args[i]).0 == (#[trigger] all[k]).0 by {
            if k < before.len() {
                let i = choose|i: int|
                    0 <= i < front.len() && (#[trigger] front[i]).0 == before[k].0;
                assert(args[i].0 == all[k].0);
            } else {
                assert(args[n].0 == all[k].0);
            }
        }
    }
}

} // verus!
