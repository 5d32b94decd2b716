//! Laws of the macro `main`: what its attributes tell it, and the test that it
//! writes.
use crate::laws::modules::concatenated;
use crate::laws::texts::split_one_more;
use crate::macros::attributes::{
    attr, attr_among, attr_key, attr_value, distinct_given, each_attr_has_its_value,
    given_is_read, given_text, given_texts, last_attr_counts, needed_attr, no_attr_no_value, says,
    Fault, Given,
};
use crate::macros::module::Rejection;
use crate::macros::runner::{
    first_commands, order, orders, runner_body, runner_test, setup, Setup, SetupShape,
};
use crate::macros::tokens::{Enclosure, Token};
use crate::text::{join, split, split_joined, split_parts, trimmed, unquoted};
use vstd::prelude::*;

verus! {

/// The value that is given to `key`, if any is.
pub open spec fn value_given(given: Seq<Given>, key: Seq<char>) -> Option<Seq<char>> {
    if exists|i: int| 0 <= i < given.len() && (#[trigger] given[i]).key == key {
        let i = choose|i: int| 0 <= i < given.len() && (#[trigger] given[i]).key == key;
        Some(given[i].value)
    } else {
        None
    }
}

/// The value that is read is the one that is given.
proof fn given_value_is_read(given: Seq<Given>, key: Seq<char>)
    requires
        distinct_given(given),
        given.len() > 0 || key.len() > 0,
    ensures
        attr(given_text(given), key) == Ok::<Option<Seq<char>>, Fault>(value_given(given, key)),
{
    if exists|i: int| 0 <= i < given.len() && (#[trigger] given[i]).key == key {
        let i = choose|i: int| 0 <= i < given.len() && (#[trigger] given[i]).key == key;
        each_attr_has_its_value(given, i);
    } else {
        no_attr_no_value(given, key);
    }
}

/// Given distinct attributes, the macro `main` is told the debugger by `gdb`, the
/// architecture by `arch`, where the virtual machine is by `port`, each of which
/// may be missing, and by `symfile`, `bootfile` and `path` the symbol file, the
/// bootable file and the register. The first of these three that is missing is
/// what is wrong.
pub proof fn setup_is_as_given(given: Seq<Given>)
    requires
        distinct_given(given),
    ensures
        ({
            let text = given_text(given);
            match (
                value_given(given, "symfile"@),
                value_given(given, "bootfile"@),
                value_given(given, "path"@),
            ) {
                (Some(symbols), Some(boot), Some(path)) => {
                    &&& setup(text) matches Ok(s)
                    &&& s.symbol_file == symbols
                    &&& s.bootable_file == boot
                    &&& s.register == path
                    &&& s.debugger == value_given(given, "gdb"@)
                    &&& s.arch == value_given(given, "arch"@)
                    &&& s.port == value_given(given, "port"@)
                },
                (None, _, _) => setup(text) == Err::<SetupShape, Fault>(
                    Fault::Missing("symfile"@),
                ),
                (_, None, _) => setup(text) == Err::<SetupShape, Fault>(
                    Fault::Missing("bootfile"@),
                ),
                (_, _, None) => setup(text) == Err::<SetupShape, Fault>(Fault::Missing("path"@)),
            }
        }),
{
    reveal_strlit("symfile");
    reveal_strlit("bootfile");
    reveal_strlit("path");
    reveal_strlit("gdb");
    reveal_strlit("arch");
    reveal_strlit("port");
    given_value_is_read(given, "symfile"@);
    given_value_is_read(given, "bootfile"@);
    given_value_is_read(given, "path"@);
    given_value_is_read(given, "gdb"@);
    given_value_is_read(given, "arch"@);
    given_value_is_read(given, "port"@);
}

/// The value that is given to a key is the one of an attribute with that key.
pub proof fn value_is_given(given: Seq<Given>, i: int)
    requires
        distinct_given(given),
        0 <= i < given.len(),
    ensures
        value_given(given, given[i].key) == Some(given[i].value),
{
    let key = given[i].key;
    let k = choose|k: int| 0 <= k < given.len() && (#[trigger] given[k]).key == key;
    if k < i {
        assert(given[k].key != given[i].key);
    } else if i < k {
        assert(given[i].key != given[k].key);
    }
}

/// Where a key is given more than once, its last value counts.
pub proof fn last_value_given_counts(given: Seq<Given>, i: int)
    requires
        0 <= i < given.len(),
        forall|j: int| 0 <= j < given.len() ==> (#[trigger] given[j]).well_formed(),
        forall|j: int| i < j < given.len() ==> (#[trigger] given[j]).key != given[i].key,
    ensures
        attr(given_text(given), given[i].key) == Ok::<Option<Seq<char>>, Fault>(
            Some(given[i].value),
        ),
{
    let args = given_texts(given);
    assert forall|j: int| 0 <= j < args.len() implies !(#[trigger] args[j]).contains(',')
        && attr_key(args[j]) == given[j].key && attr_value(args[j]) == Some(given[j].value) by {
        given_is_read(given[j]);
    }
    split_joined(args, ',');
    let key = given[i].key;
    last_attr_counts(args, key);
    assert(attr_key(args[i]) == key);
    assert forall|j: int| i < j < args.len() implies attr_key(#[trigger] args[j]) != key by {
        assert(given[j].key != key);
    }
}

/// The key of an attribute is what stands before its first equals sign, without
/// the white space around it; its value is what stands in quotes behind its last
/// one. Without an equals sign both are the same text.
pub proof fn key_and_value(key: Seq<char>, rest: Seq<char>, right: Seq<char>)
    requires
        !key.contains('='),
        !right.contains('='),
    ensures
        attr_key(key.push('=') + rest) == trimmed(key),
        attr_value(rest.push('=') + right) == unquoted(trimmed(right)),
        attr_key(key) == trimmed(key),
        attr_value(right) == unquoted(trimmed(right)),
{
    split_one_more(rest, right, '=');
    split_parts(rest, '=');
    split_one_more(key, key, '=');
    first_part(key, rest);
}

/// What stands before a separator stays the first part.
proof fn first_part(key: Seq<char>, rest: Seq<char>)
    requires
        !key.contains('='),
    ensures
        split(key.push('=') + rest, '=').len() >= 2,
        split(key.push('=') + rest, '=').first() == key,
    decreases rest.len(),
{
    let all = key.push('=') + rest;
    split_one_more(key, key, '=');
    if rest.len() == 0 {
        let none = Seq::<char>::empty();
        split_one_more(key, none, '=');
        assert(all == key.push('=') + none);
    } else {
        first_part(key, rest.drop_last());
        assert(all.drop_last() == key.push('=') + rest.drop_last());
    }
}

/// An attribute whose value is not quoted is refused, whatever else is given.
pub proof fn unquoted_is_refused(args: Seq<Seq<char>>, i: int, key: Seq<char>)
    requires
        0 <= i < args.len(),
        forall|j: int| 0 <= j < args.len() ==> !(#[trigger] args[j]).contains(','),
        attr_key(args[i]) == key,
        attr_value(args[i]) is None,
    ensures
        attr(join(args, ','), key) == Err::<Option<Seq<char>>, Fault>(Fault::Unquoted(key)),
        needed_attr(join(args, ','), key) == Err::<Seq<char>, Fault>(Fault::Unquoted(key)),
{
    split_joined(args, ',');
    last_attr_counts(args, key);
}

/// Attributes stand between commas; one that is needed and not given is missing.
pub proof fn attributes_between_commas(args: Seq<Seq<char>>, key: Seq<char>)
    requires
        args.len() > 0,
        forall|j: int| 0 <= j < args.len() ==> !(#[trigger] args[j]).contains(','),
    ensures
        attr(join(args, ','), key) == attr_among(args, key),
        match attr_among(args, key) {
            Ok(Some(value)) => needed_attr(join(args, ','), key) == Ok::<Seq<char>, Fault>(value),
            Ok(None) => needed_attr(join(args, ','), key) == Err::<Seq<char>, Fault>(
                Fault::Missing(key),
            ),
            Err(f) => needed_attr(join(args, ','), key) == Err::<Seq<char>, Fault>(f),
        },
{
    split_joined(args, ',');
}

/// Whatever text is given, a setup that is read holds the values of its
/// attributes; what is wrong with an attribute is told only where nothing is
/// wrong with those that are read before it.
pub proof fn setup_reads_each(text: Seq<char>)
    ensures
        setup(text) matches Ok(s) ==> {
            &&& attr(text, "symfile"@) == Ok::<Option<Seq<char>>, Fault>(Some(s.symbol_file))
            &&& attr(text, "bootfile"@) == Ok::<Option<Seq<char>>, Fault>(Some(s.bootable_file))
            &&& attr(text, "gdb"@) == Ok::<Option<Seq<char>>, Fault>(s.debugger)
            &&& attr(text, "arch"@) == Ok::<Option<Seq<char>>, Fault>(s.arch)
            &&& attr(text, "port"@) == Ok::<Option<Seq<char>>, Fault>(s.port)
            &&& attr(text, "path"@) == Ok::<Option<Seq<char>>, Fault>(Some(s.register))
        },
        setup(text) matches Err(f) ==> {
            let symbols = needed_attr(text, "symfile"@);
            let boot = needed_attr(text, "bootfile"@);
            let path = needed_attr(text, "path"@);
            let (gdb, arch) = (attr(text, "gdb"@), attr(text, "arch"@));
            let port = attr(text, "port"@);
            ||| symbols == Err::<Seq<char>, Fault>(f)
            ||| symbols is Ok && boot == Err::<Seq<char>, Fault>(f)
            ||| symbols is Ok && boot is Ok && gdb == Err::<Option<Seq<char>>, Fault>(f)
            ||| symbols is Ok && boot is Ok && gdb is Ok && arch == Err::<
                Option<Seq<char>>,
                Fault,
            >(f)
            ||| symbols is Ok && boot is Ok && gdb is Ok && arch is Ok && port == Err::<
                Option<Seq<char>>,
                Fault,
            >(f)
            ||| symbols is Ok && boot is Ok && gdb is Ok && arch is Ok && port is Ok && path
                == Err::<Seq<char>, Fault>(f)
        },
{
}

/// What a setup tells is what its shape says.
pub proof fn setup_shape(s: Setup)
    ensures
        s.shape().symbol_file == s.symbol_file@,
        s.shape().bootable_file == s.bootable_file@,
        s.shape().register == s.register@,
        s.shape().debugger == match s.debugger {
            Some(debugger) => Some(debugger@),
            None => None,
        },
        s.shape().arch == match s.arch {
            Some(arch) => Some(arch@),
            None => None,
        },
        s.shape().port == match s.port {
            Some(port) => Some(port@),
            None => None,
        },
{
}

/// What is wrong with the attributes is said with the key that it is about.
pub proof fn faults_are_said(key: String, fault: Seq<char>)
    ensures
        says(Rejection::Missing(key), Fault::Missing(fault)) <==> key@ == fault,
        says(Rejection::Unquoted(key), Fault::Unquoted(fault)) <==> key@ == fault,
        !says(Rejection::Missing(key), Fault::Unquoted(fault)),
        !says(Rejection::Unquoted(key), Fault::Missing(fault)),
{
}

/// `runner.name(text);`
pub open spec fn statement(name: Seq<char>, text: Seq<char>) -> Seq<Token> {
    seq![
        Token::Word("runner"@),
        Token::Mark('.', false),
        Token::Word(name),
        Token::Group(Enclosure::Parenthesis, seq![Token::Text(text)]),
        Token::Mark(';', false),
    ]
}

/// `let mut runner = instances::Debugger::new(debugger, vec![symbols.to_string()], boot);`
pub open spec fn made_runner(debugger: Seq<char>, symbols: Seq<char>, boot: Seq<char>) -> Seq<
    Token,
> {
    seq![
        Token::Word("let"@),
        Token::Word("mut"@),
        Token::Word("runner"@),
        Token::Mark('=', false),
        Token::Word("instances"@),
        Token::Mark(':', true),
        Token::Mark(':', false),
        Token::Word("Debugger"@),
        Token::Mark(':', true),
        Token::Mark(':', false),
        Token::Word("new"@),
        Token::Group(
            Enclosure::Parenthesis,
            seq![
                Token::Text(debugger),
                Token::Mark(',', false),
                Token::Word("vec"@),
                Token::Mark('!', false),
                Token::Group(
                    Enclosure::Bracket,
                    seq![
                        Token::Text(symbols),
                        Token::Mark('.', false),
                        Token::Word("to_string"@),
                        Token::Group(Enclosure::Parenthesis, Seq::empty()),
                    ],
                ),
                Token::Mark(',', false),
                Token::Text(boot),
            ],
        ),
        Token::Mark(';', false),
    ]
}

/// `env_logger::init(); use external_tests::instances;`
pub open spec fn prelude_of_test() -> Seq<Token> {
    seq![
        Token::Word("env_logger"@),
        Token::Mark(':', true),
        Token::Mark(':', false),
        Token::Word("init"@),
        Token::Group(Enclosure::Parenthesis, Seq::empty()),
        Token::Mark(';', false),
        Token::Word("use"@),
        Token::Word("external_tests"@),
        Token::Mark(':', true),
        Token::Mark(':', false),
        Token::Word("instances"@),
        Token::Mark(';', false),
    ]
}

/// `let recap = runner.test().await.unwrap().unwrap(); dbg!(recap);`
pub open spec fn end_of_test() -> Seq<Token> {
    let nothing = Token::Group(Enclosure::Parenthesis, Seq::empty());
    seq![
        Token::Word("let"@),
        Token::Word("recap"@),
        Token::Mark('=', false),
        Token::Word("runner"@),
        Token::Mark('.', false),
        Token::Word("test"@),
        nothing,
        Token::Mark('.', false),
        Token::Word("await"@),
        Token::Mark('.', false),
        Token::Word("unwrap"@),
        nothing,
        Token::Mark('.', false),
        Token::Word("unwrap"@),
        nothing,
        Token::Mark(';', false),
        Token::Word("dbg"@),
        Token::Mark('!', false),
        Token::Group(Enclosure::Parenthesis, seq![Token::Word("recap"@)]),
        Token::Mark(';', false),
    ]
}

/// `runner.before("set architecture arch");`, where an architecture is given.
pub open spec fn set_architecture(s: SetupShape) -> Seq<Token> {
    match s.arch {
        Some(arch) => statement("before"@, "set architecture "@ + arch),
        None => Seq::empty(),
    }
}

/// `use external_tests::tokio; #[external_tests::tokio::test] async fn gdb_runner() { body }`
pub open spec fn async_test(body: Seq<Token>) -> Seq<Token> {
    seq![
        Token::Word("use"@),
        Token::Word("external_tests"@),
        Token::Mark(':', true),
        Token::Mark(':', false),
        Token::Word("tokio"@),
        Token::Mark(';', false),
        Token::Mark('#', false),
        Token::Group(
            Enclosure::Bracket,
            seq![
                Token::Word("external_tests"@),
                Token::Mark(':', true),
                Token::Mark(':', false),
                Token::Word("tokio"@),
                Token::Mark(':', true),
                Token::Mark(':', false),
                Token::Word("test"@),
            ],
        ),
        Token::Word("async"@),
        Token::Word("fn"@),
        Token::Word("gdb_runner"@),
        Token::Group(Enclosure::Parenthesis, Seq::empty()),
        Token::Group(Enclosure::Brace, body),
    ]
}

/// One statement.
proof fn order_is_statement(name: Seq<char>, text: Seq<char>)
    ensures
        order(name, text) == statement(name, text),
{
    assert(order(name, text) == statement(name, text));
}

/// Statements, one after the other.
proof fn orders_are_statements(name: Seq<char>, texts: Seq<Seq<char>>)
    ensures
        orders(name, texts) == concatenated(texts.map_values(|t: Seq<char>| statement(name, t))),
    decreases texts.len(),
{
    let parts = texts.map_values(|t: Seq<char>| statement(name, t));
    if texts.len() > 0 {
        let front = texts.drop_last();
        orders_are_statements(name, front);
        assert(parts.drop_last() == front.map_values(|t: Seq<char>| statement(name, t)));
        order_is_statement(name, texts.last());
    }
}

/// The commands that are run first, as statements.
proof fn first_statements(s: SetupShape, connect: Seq<char>)
    requires
        connect == "target remote "@ + match s.port {
            Some(port) => port,
            None => "localhost:1234"@,
        },
    ensures
        orders("before"@, first_commands(s)) == set_architecture(s) + statement(
            "before"@,
            connect,
        ),
{
    let name = "before"@;
    let none = Seq::<Seq<char>>::empty();
    order_is_statement(name, connect);
    assert(orders(name, none) == Seq::<Token>::empty());
    match s.arch {
        Some(arch) => {
            let set = "set architecture "@ + arch;
            order_is_statement(name, set);
            let both = seq![set, connect];
            assert(first_commands(s) == both);
            assert(both.drop_last() == seq![set]);
            assert(seq![set].drop_last() == none);
            assert(orders(name, seq![set]) == statement(name, set));
            assert(orders(name, both) == statement(name, set) + statement(name, connect));
        },
        None => {
            assert(first_commands(s) == seq![connect]);
            assert(seq![connect].drop_last() == none);
            assert(orders(name, seq![connect]) == statement(name, connect));
            assert(Seq::<Token>::empty() + statement(name, connect) == statement(name, connect));
        },
    }
}

/// The test that the macro `main` writes: it makes the debugger that is given,
/// or `gdb`, with the symbol file and the bootable file; has the architecture
/// set, where one is given; has the debugger connect to where the virtual machine
/// is, or to `localhost:1234`; registers the gateway and the panic handler, and
/// each of the tests under its whole name, in order; then it runs them.
pub proof fn test_is_written_from_setup(s: SetupShape, tests: Seq<Seq<char>>)
    ensures
        runner_test(s, tests) == async_test(
            prelude_of_test() + made_runner(
                match s.debugger {
                    Some(debugger) => debugger,
                    None => "gdb"@,
                },
                s.symbol_file,
                s.bootable_file,
            ) + set_architecture(s) + statement(
                "before"@,
                "target remote "@ + match s.port {
                    Some(port) => port,
                    None => "localhost:1234"@,
                },
            ) + statement("register_gateway"@, "gateway"@) + statement(
                "register_panic"@,
                "main::panic"@,
            ) + concatenated(
                tests.map_values(|t: Seq<char>| statement("register_test"@, t)),
            ) + end_of_test(),
        ),
{
    let debugger = match s.debugger {
        Some(debugger) => debugger,
        None => "gdb"@,
    };
    let connect = "target remote "@ + match s.port {
        Some(port) => port,
        None => "localhost:1234"@,
    };
    first_statements(s, connect);
    order_is_statement("register_gateway"@, "gateway"@);
    order_is_statement("register_panic"@, "main::panic"@);
    orders_are_statements("register_test"@, tests);
    assert(crate::macros::runner::start_logger() + crate::macros::code::import(
        "external_tests"@,
        "instances"@,
    ) == prelude_of_test());
    runner_is_made(debugger, s.symbol_file, s.bootable_file);
    assert(crate::macros::runner::run_and_report() == end_of_test());
    let registered = concatenated(
        tests.map_values(|t: Seq<char>| statement("register_test"@, t)),
    );
    let body = prelude_of_test() + made_runner(debugger, s.symbol_file, s.bootable_file)
        + set_architecture(s) + statement("before"@, connect) + statement(
        "register_gateway"@,
        "gateway"@,
    ) + statement("register_panic"@, "main::panic"@) + registered + end_of_test();
    assert(runner_body(s, tests) == body);
    test_of_body(s, tests);
}

/// The statement that makes the debugger.
proof fn runner_is_made(debugger: Seq<char>, symbols: Seq<char>, boot: Seq<char>)
    ensures
        crate::macros::runner::new_runner(debugger, symbols, boot) == made_runner(
            debugger,
            symbols,
            boot,
        ),
{
    let elements = seq![Token::Text(symbols)] + crate::macros::code::method(
        "to_string"@,
        Seq::empty(),
    );
    assert(elements == seq![
        Token::Text(symbols),
        Token::Mark('.', false),
        Token::Word("to_string"@),
        Token::Group(Enclosure::Parenthesis, Seq::empty()),
    ]);
    assert(crate::macros::runner::new_runner(debugger, symbols, boot) == made_runner(
        debugger,
        symbols,
        boot,
    ));
}

/// The test around its body.
proof fn test_of_body(s: SetupShape, tests: Seq<Seq<char>>)
    ensures
        runner_test(s, tests) == async_test(runner_body(s, tests)),
{
    let path = seq![Token::Word("external_tests"@)] + crate::macros::code::member("tokio"@)
        + crate::macros::code::member("test"@);
    assert(path == seq![
        Token::Word("external_tests"@),
        Token::Mark(':', true),
        Token::Mark(':', false),
        Token::Word("tokio"@),
        Token::Mark(':', true),
        Token::Mark(':', false),
        Token::Word("test"@),
    ]);
    assert(runner_test(s, tests) == async_test(runner_body(s, tests)));
}

} // verus!
