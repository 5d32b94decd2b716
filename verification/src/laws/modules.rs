//! Laws of `test_module` and `test_gateway`: the tokens that they write, and the
//! register.
use crate::macros::code::{attribute, call, exported, import, member, method};
use crate::macros::module::{
    call_statements, expands_to, functions, gateway, imports, names, register_path, registered,
    section, test_fns, Expansion,
};
use crate::macros::register::{ended_lines, lines, register_text, without_return};
use crate::macros::syntax::{
    each, fn_shape, shape_of, use_shape, FnParts, FnShape, Module, ModuleShape,
};
use crate::macros::tokens::{tokens, Enclosure, Token};
use proc_macro2::TokenStream;
use vstd::prelude::*;

verus! {

/// Sequences, one after the other.
pub open spec fn concatenated<A>(parts: Seq<Seq<A>>) -> Seq<A>
    decreases parts.len(),
{
    if parts.len() == 0 {
        Seq::empty()
    } else {
        concatenated(parts.drop_last()) + parts.last()
    }
}

/// The section of a function is `.test_` and all of its name: functions of
/// different names have different sections.
pub proof fn section_is_of_one_name(a: Seq<char>, b: Seq<char>)
    ensures
        section(a).take(6) == ".test_"@,
        section(a).skip(6) == a,
        section(a) == section(b) ==> a == b,
{
    reveal_strlit(".test_");
    assert(section(a).take(6) == ".test_"@);
    assert(section(a).skip(6) == a);
    assert(section(b).skip(6) == b);
}

/// `#[no_mangle] #[inline(never)] #[link_section = section]`
pub open spec fn export_attributes(section: Seq<char>) -> Seq<Token> {
    seq![
        Token::Mark('#', false),
        Token::Group(Enclosure::Bracket, seq![Token::Word("no_mangle"@)]),
        Token::Mark('#', false),
        Token::Group(
            Enclosure::Bracket,
            seq![
                Token::Word("inline"@),
                Token::Group(Enclosure::Parenthesis, seq![Token::Word("never"@)]),
            ],
        ),
        Token::Mark('#', false),
        Token::Group(
            Enclosure::Bracket,
            seq![Token::Word("link_section"@), Token::Mark('=', false), Token::Text(section)],
        ),
    ]
}

/// A test as it is written: exported under its own name, in the section that is
/// made of all of it, with its attributes, visibility, signature and body.
pub open spec fn test_as_written(f: FnShape) -> Seq<Token> {
    export_attributes(".test_"@ + f.name) + f.attrs + f.vis + f.sig + seq![
        Token::Group(Enclosure::Brace, f.body),
    ]
}

/// `name();`
pub open spec fn call_as_written(name: Seq<char>) -> Seq<Token> {
    seq![
        Token::Word(name),
        Token::Group(Enclosure::Parenthesis, Seq::empty()),
        Token::Mark(';', false),
    ]
}

/// The functions among items, in order.
pub open spec fn all_functions(items: Seq<Seq<Token>>) -> Seq<FnShape> {
    items.filter(|item: Seq<Token>| fn_shape(item) is Ok).map_values(
        |item: Seq<Token>| fn_shape(item)->Ok_0,
    )
}

/// The imports among items, in order.
pub open spec fn all_imports(items: Seq<Seq<Token>>) -> Seq<Seq<Token>> {
    items.filter(
        |item: Seq<Token>| fn_shape(item) is Err && use_shape(item) is Some,
    ).map_values(|item: Seq<Token>| use_shape(item)->0)
}

/// The names of functions that are no gateway, in order.
pub open spec fn names_of_tests(fns: Seq<FnShape>) -> Seq<Seq<char>> {
    fns.map_values(|f: FnShape| f.name).filter(|name: Seq<char>| name != "gateway"@)
}

/// The functions are those among the items.
proof fn functions_are_all(items: Seq<Seq<Token>>)
    ensures
        functions(items) == all_functions(items),
    decreases items.len(),
{
    reveal(Seq::filter);
    let pred = |item: Seq<Token>| fn_shape(item) is Ok;
    if items.len() == 0 {
        assert(all_functions(items) == Seq::<FnShape>::empty());
    } else {
        functions_are_all(items.drop_last());
        let before = items.drop_last().filter(pred);
        if fn_shape(items.last()) is Ok {
            assert(items.filter(pred) == before.push(items.last()));
            assert(all_functions(items) == all_functions(items.drop_last()).push(
                fn_shape(items.last())->Ok_0,
            ));
        } else {
            assert(items.filter(pred) == before);
        }
    }
}

/// The imports are those among the items.
proof fn imports_are_all(items: Seq<Seq<Token>>)
    ensures
        imports(items) == concatenated(all_imports(items)),
    decreases items.len(),
{
    reveal(Seq::filter);
    let pred = |item: Seq<Token>| fn_shape(item) is Err && use_shape(item) is Some;
    if items.len() == 0 {
        assert(all_imports(items) == Seq::<Seq<Token>>::empty());
    } else {
        imports_are_all(items.drop_last());
        let before = items.drop_last().filter(pred);
        if pred(items.last()) {
            assert(items.filter(pred) == before.push(items.last()));
            let front = all_imports(items.drop_last());
            assert(all_imports(items) == front.push(use_shape(items.last())->0));
            assert(all_imports(items).drop_last() == front);
        } else {
            assert(items.filter(pred) == before);
        }
    }
}

/// The functions are written one after the other.
proof fn functions_are_written(fns: Seq<FnShape>)
    ensures
        test_fns(fns) == concatenated(fns.map_values(|f: FnShape| test_as_written(f))),
    decreases fns.len(),
{
    let parts = fns.map_values(|f: FnShape| test_as_written(f));
    if fns.len() > 0 {
        let front = fns.drop_last();
        functions_are_written(front);
        assert(parts.drop_last() == front.map_values(|f: FnShape| test_as_written(f)));
        test_is_written(fns.last());
    }
}

/// A function is written with its section.
proof fn test_is_written(f: FnShape)
    ensures
        crate::macros::module::test_fn(f) == test_as_written(f),
{
    assert(crate::macros::module::test_fn(f) == test_as_written(f));
}

/// The calls are written one after the other.
proof fn calls_are_written(all: Seq<Seq<char>>)
    ensures
        call_statements(all) == concatenated(all.map_values(|n: Seq<char>| call_as_written(n))),
    decreases all.len(),
{
    let parts = all.map_values(|n: Seq<char>| call_as_written(n));
    if all.len() > 0 {
        let front = all.drop_last();
        calls_are_written(front);
        assert(parts.drop_last() == front.map_values(|n: Seq<char>| call_as_written(n)));
        assert(crate::macros::module::call_statement(all.last()) == call_as_written(all.last()));
    }
}

/// The register names all but the gateway.
proof fn registered_are_tests(all: Seq<Seq<char>>)
    ensures
        registered(all) == all.filter(|name: Seq<char>| name != "gateway"@),
    decreases all.len(),
{
    reveal(Seq::filter);
    if all.len() > 0 {
        registered_are_tests(all.drop_last());
    }
}

/// The register is one line for each name.
proof fn register_is_lines(all: Seq<Seq<char>>)
    ensures
        register_text(all) == concatenated(all.map_values(|n: Seq<char>| n + seq!['\n'])),
    decreases all.len(),
{
    let parts = all.map_values(|n: Seq<char>| n + seq!['\n']);
    if all.len() > 0 {
        let front = all.drop_last();
        register_is_lines(front);
        assert(parts.drop_last() == front.map_values(|n: Seq<char>| n + seq!['\n']));
        assert(all.last().push('\n') == all.last() + seq!['\n']);
    }
}

/// What `test_module` writes for the items of a module: a module `test` with its
/// imports, each of its functions exported in the section of its whole name, and
/// a `runner` that calls each of them, all in order. The register gets a line
/// with the whole name of each function but the gateway, in order.
pub proof fn module_is_written(items: Seq<Seq<Token>>, x: Expansion)
    requires
        expands_to(items, x),
    ensures
        ({
            let fns = all_functions(items);
            let tests = concatenated(fns.map_values(|f: FnShape| test_as_written(f)));
            let calls = concatenated(fns.map_values(|f: FnShape| call_as_written(f.name)));
            &&& tokens(x.output) == seq![
                Token::Word("mod"@),
                Token::Word("test"@),
                Token::Group(
                    Enclosure::Brace,
                    concatenated(all_imports(items)) + tests + seq![
                        Token::Word("pub"@),
                        Token::Word("fn"@),
                        Token::Word("runner"@),
                        Token::Group(Enclosure::Parenthesis, Seq::empty()),
                        Token::Group(Enclosure::Brace, calls),
                    ],
                ),
            ]
            &&& x.register@ == concatenated(
                names_of_tests(fns).map_values(|n: Seq<char>| n + seq!['\n']),
            )
            &&& lines(x.register@) == names_of_tests(fns)
        }),
{
    let fns = all_functions(items);
    functions_are_all(items);
    imports_are_all(items);
    functions_are_written(fns);
    let all = names(fns);
    calls_are_written(all);
    assert(all.map_values(|n: Seq<char>| call_as_written(n)) == fns.map_values(
        |f: FnShape| call_as_written(f.name),
    ));
    registered_are_tests(all);
    assert(all == fns.map_values(|f: FnShape| f.name));
    register_is_lines(registered(all));
    let tests = concatenated(fns.map_values(|f: FnShape| test_as_written(f)));
    let calls = concatenated(fns.map_values(|f: FnShape| call_as_written(f.name)));
    let inner = concatenated(all_imports(items)) + tests + seq![
        Token::Word("pub"@),
        Token::Word("fn"@),
        Token::Word("runner"@),
        Token::Group(Enclosure::Parenthesis, Seq::empty()),
        Token::Group(Enclosure::Brace, calls),
    ];
    let runner = call("runner"@, Seq::empty());
    assert(concatenated(all_imports(items)) + tests + seq![Token::Word("pub"@), Token::Word("fn"@)]
        + runner.push(Token::Group(Enclosure::Brace, calls)) == inner);
}

/// What `test_gateway` writes: the function without the attributes it had,
/// exported in the section of a gateway. It is for a function named `gateway`
/// alone.
pub proof fn gateway_is_written(f: FnShape)
    ensures
        f.name == "gateway"@ ==> gateway(f) == Some(
            export_attributes(".test_gateway"@) + f.vis + f.sig + seq![
                Token::Group(Enclosure::Brace, f.body),
            ],
        ),
        f.name != "gateway"@ ==> gateway(f) is None,
{
    if f.name == "gateway"@ {
        assert(gateway(f)->0 == export_attributes(".test_gateway"@) + f.vis + f.sig + seq![
            Token::Group(Enclosure::Brace, f.body),
        ]);
    }
}

/// The path of the register is what stands in quotes; there is none without an
/// argument, and an argument without quotes is refused.
pub proof fn path_of_register(text: Seq<char>, path: Seq<char>)
    ensures
        register_path(Seq::empty()) == Ok::<Option<Seq<char>>, ()>(None),
        register_path(seq!['"'] + path + seq!['"']) == Ok::<Option<Seq<char>>, ()>(Some(path)),
        text.len() == 1 || text.len() > 0 && (text[0] != '"' || text.last() != '"')
            ==> register_path(text) is Err,
{
    let quoted = seq!['"'] + path + seq!['"'];
    assert(quoted.subrange(1, quoted.len() - 1) == path);
}

/// Behind lines that are ended, what stands behind them is the line that is
/// being read.
proof fn ended_then(text: Seq<char>, line: Seq<char>)
    requires
        text.len() == 0 || text.last() == '\n',
        !line.contains('\n'),
    ensures
        ended_lines(text + line) == (ended_lines(text).0, line),
        lines(text) == ended_lines(text).0,
    decreases line.len(),
{
    if line.len() == 0 {
        assert(text + line == text);
        assert(line == Seq::<char>::empty());
    } else {
        let front = line.drop_last();
        assert forall|i: int| 0 <= i < front.len() implies front[i] != '\n' by {
            assert(front[i] == line[i]);
        }
        ended_then(text, front);
        assert((text + line).drop_last() == text + front);
        assert((text + line).last() == line.last());
        assert(line.last() == line[line.len() - 1]);
        assert(front.push(line.last()) == line);
    }
}

/// How a register is read: behind lines that are ended, another line is one more,
/// whether it ends in a line feed, in a carriage return and a line feed, or with
/// the text.
pub proof fn one_more_line(text: Seq<char>, line: Seq<char>)
    requires
        text.len() == 0 || text.last() == '\n',
        !line.contains('\n'),
    ensures
        lines(Seq::empty()) == Seq::<Seq<char>>::empty(),
        line.len() == 0 || line.last() != '\r' ==> lines(text + line + seq!['\n']) == lines(
            text,
        ).push(line),
        lines(text + line + seq!['\r', '\n']) == lines(text).push(line),
        line.len() > 0 ==> lines(text + line) == lines(text).push(line),
{
    ended_then(text, line);
    let fed = text + line + seq!['\n'];
    assert(fed.drop_last() == text + line);
    assert(fed.last() == '\n');
    let returned = line.push('\r');
    if returned.contains('\n') {
        let i = choose|i: int| 0 <= i < returned.len() && returned[i] == '\n';
        assert(line[i] == '\n');
    }
    ended_then(text, returned);
    let both = text + line + seq!['\r', '\n'];
    assert(both.drop_last() == text + returned);
    assert(both.last() == '\n');
    assert(without_return(returned) == line);
}

/// The parts of a function and of a module are those of their shapes.
pub proof fn shapes(f: FnParts, e: TokenStream, items: Vec<TokenStream>)
    ensures
        f.shape().name == f.name@,
        f.shape().attrs == tokens(f.attrs),
        f.shape().vis == tokens(f.vis),
        f.shape().sig == tokens(f.sig),
        f.shape().body == tokens(f.body),
        shape_of(Ok(f)) == Ok::<FnShape, Seq<Token>>(f.shape()),
        shape_of(Err(e)) == Err::<FnShape, Seq<Token>>(tokens(e)),
        Module::Malformed(e).shape() == ModuleShape::Malformed(tokens(e)),
        Module::Declared.shape() == ModuleShape::Declared,
        Module::Inline(items).shape() == ModuleShape::Inline(
            items@.map_values(|s: TokenStream| tokens(s)),
        ),
{
    assert(each(items@) == items@.map_values(|s: TokenStream| tokens(s)));
}

/// The pieces of code that the macros write, token by token.
pub proof fn pieces_of_code(
    inner: Seq<Token>,
    name: Seq<char>,
    krate: Seq<char>,
    section: Seq<char>,
    f: FnShape,
)
    ensures
        attribute(inner) == seq![
            Token::Mark('#', false),
            Token::Group(Enclosure::Bracket, inner),
        ],
        member(name) == seq![
            Token::Mark(':', true),
            Token::Mark(':', false),
            Token::Word(name),
        ],
        call(name, inner) == seq![
            Token::Word(name),
            Token::Group(Enclosure::Parenthesis, inner),
        ],
        method(name, inner) == seq![
            Token::Mark('.', false),
            Token::Word(name),
            Token::Group(Enclosure::Parenthesis, inner),
        ],
        import(krate, name) == seq![
            Token::Word("use"@),
            Token::Word(krate),
            Token::Mark(':', true),
            Token::Mark(':', false),
            Token::Word(name),
            Token::Mark(';', false),
        ],
        exported(section, f.attrs, f.vis, f.sig, f.body) == export_attributes(section) + f.attrs
            + f.vis + f.sig + seq![Token::Group(Enclosure::Brace, f.body)],
{
    assert(exported(section, f.attrs, f.vis, f.sig, f.body) == export_attributes(section) + f.attrs
        + f.vis + f.sig + seq![Token::Group(Enclosure::Brace, f.body)]);
}

} // verus!
