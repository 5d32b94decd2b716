//! `main`: the test that drives a debugger through the registered tests.
use crate::macros::attributes::{attr, attr_in, needed_attr, needed_attr_in, says, Fault};
use crate::macros::code::{
    attribute, call, import, member, method, write_attribute, write_call, write_import,
    write_member, write_method,
};
use crate::macros::module::{expands_to, functions, names, registered, Expansion, Rejection};
use crate::macros::register::{lines, register_names};
use crate::macros::tokens::{
    empty, is_word, print, printed, push_group, push_mark, push_text, push_word, tokens, Enclosure,
    Token,
};
use crate::text::{view_of, views};
use proc_macro2::TokenStream;
use vstd::prelude::*;
use vstd::string::*;

verus! {

/// What the macro `main` is told.
pub struct Setup {
    /// The file with the symbols of the kernel.
    pub symbol_file: String,
    /// The image that is booted.
    pub bootable_file: String,
    /// The debugger.
    pub debugger: Option<String>,
    /// The architecture that the debugger is set to.
    pub arch: Option<String>,
    /// Where the debugger finds the virtual machine.
    pub port: Option<String>,
    /// The path of the register of tests.
    pub register: String,
}

/// What the macro `main` is told.
pub struct SetupShape {
    pub symbol_file: Seq<char>,
    pub bootable_file: Seq<char>,
    pub debugger: Option<Seq<char>>,
    pub arch: Option<Seq<char>>,
    pub port: Option<Seq<char>>,
    pub register: Seq<char>,
}

impl Setup {
    /// The texts of the parts.
    pub open spec fn shape(&self) -> SetupShape {
        SetupShape {
            symbol_file: self.symbol_file@,
            bootable_file: self.bootable_file@,
            debugger: view_of(self.debugger),
            arch: view_of(self.arch),
            port: view_of(self.port),
            register: self.register@,
        }
    }
}

/// What the attributes in `text` tell the macro `main`, or the first thing
/// that is wrong with them.
pub open spec fn setup(text: Seq<char>) -> Result<SetupShape, Fault> {
    match needed_attr(text, "symfile"@) {
        Err(f) => Err(f),
        Ok(symbol_file) => match needed_attr(text, "bootfile"@) {
            Err(f) => Err(f),
            Ok(bootable_file) => match attr(text, "gdb"@) {
                Err(f) => Err(f),
                Ok(debugger) => match attr(text, "arch"@) {
                    Err(f) => Err(f),
                    Ok(arch) => match attr(text, "port"@) {
                        Err(f) => Err(f),
                        Ok(port) => match needed_attr(text, "path"@) {
                            Err(f) => Err(f),
                            Ok(register) => Ok(
                                SetupShape {
                                    symbol_file,
                                    bootable_file,
                                    debugger,
                                    arch,
                                    port,
                                    register,
                                },
                            ),
                        },
                    },
                },
            },
        },
    }
}

/// What the attributes in `text` tell the macro `main`.
pub fn setup_in(text: &str) -> (r: Result<Setup, Rejection>)
    ensures
        match setup(text@) {
            Ok(shape) => r matches Ok(s) && s.shape() == shape,
            Err(fault) => r matches Err(e) && says(e, fault),
        },
{
    let symbol_file = match needed_attr_in(text, "symfile") {
        Ok(value) => value,
        Err(e) => {
            return Err(e);
        },
    };
    let bootable_file = match needed_attr_in(text, "bootfile") {
        Ok(value) => value,
        Err(e) => {
            return Err(e);
        },
    };
    let debugger = match attr_in(text, "gdb") {
        Ok(value) => value,
        Err(e) => {
            return Err(e);
        },
    };
    let arch = match attr_in(text, "arch") {
        Ok(value) => value,
        Err(e) => {
            return Err(e);
        },
    };
    let port = match attr_in(text, "port") {
        Ok(value) => value,
        Err(e) => {
            return Err(e);
        },
    };
    let register = match needed_attr_in(text, "path") {
        Ok(value) => value,
        Err(e) => {
            return Err(e);
        },
    };
    Ok(Setup { symbol_file, bootable_file, debugger, arch, port, register })
}

/// What the attributes that are given to the macro `main` tell it.
pub fn main_setup(args: &TokenStream) -> (r: Result<Setup, Rejection>)
    ensures
        match setup(printed(*args)) {
            Ok(shape) => r matches Ok(s) && s.shape() == shape,
            Err(fault) => r matches Err(e) && says(e, fault),
        },
{
    let text = print(args);
    setup_in(text.as_str())
}

/// `runner.name(text);`
pub open spec fn order(name: Seq<char>, text: Seq<char>) -> Seq<Token> {
    seq![Token::Word("runner"@)] + method(name, seq![Token::Text(text)]).push(Token::Mark(';', false))
}

/// Writes `runner.name(text);`.
fn write_order(out: &mut TokenStream, name: &str, text: &str)
    requires
        is_word(name@),
    ensures
        tokens(*final(out)) == tokens(*old(out)) + order(name@, text@),
{
    proof {
        reveal_strlit("runner");
    }
    let mut args = empty();
    push_text(&mut args, text);
    assert(tokens(args) == seq![Token::Text(text@)]);
    push_word(out, "runner");
    write_method(out, name, args);
    push_mark(out, ';', false);
}

/// `let mut runner = instances::Debugger::new(debugger, vec![symbol_file.to_string()], bootable_file);`
pub open spec fn new_runner(
    debugger: Seq<char>,
    symbol_file: Seq<char>,
    bootable_file: Seq<char>,
) -> Seq<Token> {
    seq![
        Token::Word("let"@),
        Token::Word("mut"@),
        Token::Word("runner"@),
        Token::Mark('=', false),
        Token::Word("instances"@),
    ] + member("Debugger"@) + member("new"@) + seq![
        Token::Group(
            Enclosure::Parenthesis,
            seq![
                Token::Text(debugger),
                Token::Mark(',', false),
                Token::Word("vec"@),
                Token::Mark('!', false),
                Token::Group(
                    Enclosure::Bracket,
                    seq![Token::Text(symbol_file)] + method("to_string"@, Seq::empty()),
                ),
                Token::Mark(',', false),
                Token::Text(bootable_file),
            ],
        ),
        Token::Mark(';', false),
    ]
}

/// Writes the statement that makes the debugger.
fn write_new_runner(out: &mut TokenStream, debugger: &str, symbol_file: &str, bootable_file: &str)
    ensures
        tokens(*final(out)) == tokens(*old(out)) + new_runner(
            debugger@,
            symbol_file@,
            bootable_file@,
        ),
{
    proof {
        reveal_strlit("let");
        reveal_strlit("mut");
        reveal_strlit("runner");
        reveal_strlit("instances");
        reveal_strlit("Debugger");
        reveal_strlit("new");
        reveal_strlit("vec");
        reveal_strlit("to_string");
    }
    let ghost start = tokens(*out);
    let mut elements = empty();
    push_text(&mut elements, symbol_file);
    write_method(&mut elements, "to_string", empty());
    assert(tokens(elements) == seq![Token::Text(symbol_file@)] + method(
        "to_string"@,
        Seq::empty(),
    ));
    let mut args = empty();
    push_text(&mut args, debugger);
    push_mark(&mut args, ',', false);
    push_word(&mut args, "vec");
    push_mark(&mut args, '!', false);
    push_group(&mut args, Enclosure::Bracket, elements);
    push_mark(&mut args, ',', false);
    push_text(&mut args, bootable_file);
    assert(tokens(args) == seq![
        Token::Text(debugger@),
        Token::Mark(',', false),
        Token::Word("vec"@),
        Token::Mark('!', false),
        Token::Group(Enclosure::Bracket, tokens(elements)),
        Token::Mark(',', false),
        Token::Text(bootable_file@),
    ]);
    push_word(out, "let");
    push_word(out, "mut");
    push_word(out, "runner");
    push_mark(out, '=', false);
    push_word(out, "instances");
    write_member(out, "Debugger");
    write_member(out, "new");
    push_group(out, Enclosure::Parenthesis, args);
    push_mark(out, ';', false);
    assert(tokens(*out) == start + new_runner(debugger@, symbol_file@, bootable_file@));
}

/// The commands that the debugger runs before the tests: the architecture is
/// set, where one is given, and the virtual machine is connected to.
pub open spec fn first_commands(s: SetupShape) -> Seq<Seq<char>> {
    let connect = "target remote "@ + match s.port {
        Some(port) => port,
        None => "localhost:1234"@,
    };
    match s.arch {
        Some(arch) => seq!["set architecture "@ + arch, connect],
        None => seq![connect],
    }
}

/// `runner.name(text);` for each of `texts`, in order.
pub open spec fn orders(name: Seq<char>, texts: Seq<Seq<char>>) -> Seq<Token>
    decreases texts.len(),
{
    if texts.len() == 0 {
        Seq::empty()
    } else {
        orders(name, texts.drop_last()) + order(name, texts.last())
    }
}

/// Writes `runner.name(text);` for each of `texts`.
fn write_orders(out: &mut TokenStream, name: &str, texts: &Vec<String>)
    requires
        is_word(name@),
    ensures
        tokens(*final(out)) == tokens(*old(out)) + orders(name@, views(texts@)),
{
    let ghost start = tokens(*out);
    let ghost all = views(texts@);
    let mut i: usize = 0;
    assert(all.take(0) == Seq::<Seq<char>>::empty());
    while i < texts.len()
        invariant
            i <= texts@.len(),
            all == views(texts@),
            is_word(name@),
            tokens(*out) == start + orders(name@, all.take(i as int)),
        decreases texts@.len() - i,
    {
        assert(all.take(i + 1).drop_last() == all.take(i as int));
        assert(all[i as int] == texts@[i as int]@);
        write_order(out, name, texts[i].as_str());
        assert(tokens(*out) == start + orders(name@, all.take(i + 1)));
        i = i + 1;
    }
    assert(all.take(i as int) == all);
}

/// `let recap = runner.test().await.unwrap().unwrap(); dbg!(recap);`
pub open spec fn run_and_report() -> Seq<Token> {
    seq![
        Token::Word("let"@),
        Token::Word("recap"@),
        Token::Mark('=', false),
        Token::Word("runner"@),
    ] + method("test"@, Seq::empty()) + seq![Token::Mark('.', false), Token::Word("await"@)] + method(
        "unwrap"@,
        Seq::empty(),
    ) + method("unwrap"@, Seq::empty()) + seq![
        Token::Mark(';', false),
        Token::Word("dbg"@),
        Token::Mark('!', false),
        Token::Group(Enclosure::Parenthesis, seq![Token::Word("recap"@)]),
        Token::Mark(';', false),
    ]
}

/// Writes the statements that run the tests and show the recap.
fn write_run_and_report(out: &mut TokenStream)
    ensures
        tokens(*final(out)) == tokens(*old(out)) + run_and_report(),
{
    proof {
        reveal_strlit("let");
        reveal_strlit("recap");
        reveal_strlit("runner");
        reveal_strlit("test");
        reveal_strlit("await");
        reveal_strlit("unwrap");
        reveal_strlit("dbg");
    }
    let ghost start = tokens(*out);
    let mut shown = empty();
    push_word(&mut shown, "recap");
    assert(tokens(shown) == seq![Token::Word("recap"@)]);
    push_word(out, "let");
    push_word(out, "recap");
    push_mark(out, '=', false);
    push_word(out, "runner");
    write_method(out, "test", empty());
    push_mark(out, '.', false);
    push_word(out, "await");
    write_method(out, "unwrap", empty());
    write_method(out, "unwrap", empty());
    push_mark(out, ';', false);
    push_word(out, "dbg");
    push_mark(out, '!', false);
    push_group(out, Enclosure::Parenthesis, shown);
    push_mark(out, ';', false);
    assert(tokens(*out) == start + run_and_report());
}

/// `env_logger::init();`
pub open spec fn start_logger() -> Seq<Token> {
    seq![Token::Word("env_logger"@)] + member("init"@) + seq![
        Token::Group(Enclosure::Parenthesis, Seq::empty()),
        Token::Mark(';', false),
    ]
}

/// The body of the test: the logger is started, a debugger is made, told what
/// to do first, where the tests end and what a panic is, and given each of
/// `tests`; then it runs them.
pub open spec fn runner_body(s: SetupShape, tests: Seq<Seq<char>>) -> Seq<Token> {
    start_logger() + import("external_tests"@, "instances"@) + new_runner(
        match s.debugger {
            Some(path) => path,
            None => "gdb"@,
        },
        s.symbol_file,
        s.bootable_file,
    ) + orders("before"@, first_commands(s)) + order("register_gateway"@, "gateway"@) + order(
        "register_panic"@,
        "main::panic"@,
    ) + orders("register_test"@, tests) + run_and_report()
}

/// Writes the body of the test.
fn write_runner_body(out: &mut TokenStream, s: &Setup, tests: &Vec<String>)
    ensures
        tokens(*final(out)) == tokens(*old(out)) + runner_body(s.shape(), views(tests@)),
{
    proof {
        reveal_strlit("env_logger");
        reveal_strlit("init");
        reveal_strlit("external_tests");
        reveal_strlit("instances");
        reveal_strlit("before");
        reveal_strlit("register_gateway");
        reveal_strlit("register_panic");
        reveal_strlit("register_test");
    }
    let ghost start = tokens(*out);
    push_word(out, "env_logger");
    write_member(out, "init");
    push_group(out, Enclosure::Parenthesis, empty());
    push_mark(out, ';', false);
    assert(tokens(*out) == start + start_logger());
    write_import(out, "external_tests", "instances");
    let debugger = match &s.debugger {
        Some(path) => path.as_str(),
        None => "gdb",
    };
    write_new_runner(out, debugger, s.symbol_file.as_str(), s.bootable_file.as_str());
    let mut commands: Vec<String> = Vec::new();
    if let Some(arch) = &s.arch {
        let mut set = "set architecture ".to_string();
        set.append(arch.as_str());
        commands.push(set);
    }
    let mut connect = "target remote ".to_string();
    match &s.port {
        Some(port) => {
            connect.append(port.as_str());
        },
        None => {
            connect.append("localhost:1234");
        },
    }
    commands.push(connect);
    assert(views(commands@) == first_commands(s.shape()));
    write_orders(out, "before", &commands);
    write_order(out, "register_gateway", "gateway");
    write_order(out, "register_panic", "main::panic");
    write_orders(out, "register_test", tests);
    write_run_and_report(out);
    assert(tokens(*out) == start + runner_body(s.shape(), views(tests@)));
}

/// The test that the macro `main` writes:
/// `use external_tests::tokio; #[external_tests::tokio::test] async fn gdb_runner() { body }`
pub open spec fn runner_test(s: SetupShape, tests: Seq<Seq<char>>) -> Seq<Token> {
    import("external_tests"@, "tokio"@) + attribute(
        seq![Token::Word("external_tests"@)] + member("tokio"@) + member("test"@),
    ) + seq![Token::Word("async"@), Token::Word("fn"@)] + call("gdb_runner"@, Seq::empty()).push(
        Token::Group(Enclosure::Brace, runner_body(s, tests)),
    )
}

/// The macro `main`, told `s`: the test that makes a debugger, registers the
/// gateway, the panic handler and each test that the register names, and runs
/// them.
pub fn main(s: &Setup, register: &str) -> (r: TokenStream)
    ensures
        tokens(r) == runner_test(s.shape(), lines(register@)),
{
    proof {
        reveal_strlit("external_tests");
        reveal_strlit("tokio");
        reveal_strlit("test");
        reveal_strlit("async");
        reveal_strlit("fn");
        reveal_strlit("gdb_runner");
    }
    let tests = register_names(register);
    let mut path = empty();
    push_word(&mut path, "external_tests");
    write_member(&mut path, "tokio");
    write_member(&mut path, "test");
    assert(tokens(path) == seq![Token::Word("external_tests"@)] + member("tokio"@) + member(
        "test"@,
    ));
    let mut body = empty();
    write_runner_body(&mut body, s, &tests);
    assert(tokens(body) == runner_body(s.shape(), lines(register@)));
    let mut output = empty();
    write_import(&mut output, "external_tests", "tokio");
    write_attribute(&mut output, path);
    push_word(&mut output, "async");
    push_word(&mut output, "fn");
    write_call(&mut output, "gdb_runner", empty());
    push_group(&mut output, Enclosure::Brace, body);
    assert(tokens(output) == runner_test(s.shape(), lines(register@)));
    output
}

/// The test that the macro `main` writes from the register of a module gives
/// the debugger the functions of the module, in order, but for the gateway.
pub proof fn register_reaches_runner(items: Seq<Seq<Token>>, x: Expansion, s: SetupShape)
    requires
        expands_to(items, x),
    ensures
        runner_test(s, lines(x.register@)) == runner_test(s, registered(names(functions(items)))),
{
}

} // verus!
