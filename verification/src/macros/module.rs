//! `test_module` and `test_gateway`: the module of tests that a kernel is
//! linked with, and the function that its tests end in.
use crate::macros::code::{attribute, call, exported, write_exported};
use crate::macros::register::{lines, one_line_each, register_round_trip, register_text};
use crate::macros::syntax::{
    each, fn_shape, module_shape, parse_fn, parse_module, parse_use, use_shape, FnParts, FnShape,
    Module, ModuleShape,
};
use crate::macros::tokens::{
    append, empty, print, printed, push_group, push_mark, push_word, tokens, Enclosure, Token,
};
use crate::text::{same, unquote, unquoted, view_of};
use proc_macro2::TokenStream;
use vstd::prelude::*;
use vstd::string::*;

verus! {

/// Why a macro writes no code.
pub enum Rejection {
    /// The tokens are not the item that the macro is for; the macro writes this
    /// call of `compile_error!` instead.
    Syntax(TokenStream),
    /// `test_module` is given an argument that is not a quoted path.
    UnquotedPath,
    /// The contents of the module stand in another file.
    NoBody,
    /// The gateway is not named `gateway`.
    Misnamed,
    /// An attribute that is needed is not given.
    Missing(String),
    /// The value of an attribute is not quoted.
    Unquoted(String),
}

/// The link section of the function `name`.
pub open spec fn section(name: Seq<char>) -> Seq<char> {
    ".test_"@ + name
}

/// The functions among the items of a module, in order.
pub open spec fn functions(items: Seq<Seq<Token>>) -> Seq<FnShape>
    decreases items.len(),
{
    if items.len() == 0 {
        Seq::empty()
    } else {
        let before = functions(items.drop_last());
        match fn_shape(items.last()) {
            Ok(f) => before.push(f),
            Err(_) => before,
        }
    }
}

/// The imports among the items of a module, one after the other.
pub open spec fn imports(items: Seq<Seq<Token>>) -> Seq<Token>
    decreases items.len(),
{
    if items.len() == 0 {
        Seq::empty()
    } else {
        let before = imports(items.drop_last());
        match (fn_shape(items.last()), use_shape(items.last())) {
            (Err(_), Some(u)) => before + u,
            _ => before,
        }
    }
}

/// The names of functions.
pub open spec fn names(fns: Seq<FnShape>) -> Seq<Seq<char>> {
    fns.map_values(|f: FnShape| f.name)
}

/// A function of the module, which the linker finds in its own section.
pub open spec fn test_fn(f: FnShape) -> Seq<Token> {
    exported(section(f.name), f.attrs, f.vis, f.sig, f.body)
}

/// The functions of the module, one after the other.
pub open spec fn test_fns(fns: Seq<FnShape>) -> Seq<Token>
    decreases fns.len(),
{
    if fns.len() == 0 {
        Seq::empty()
    } else {
        test_fns(fns.drop_last()) + test_fn(fns.last())
    }
}

/// `name();`
pub open spec fn call_statement(name: Seq<char>) -> Seq<Token> {
    call(name, Seq::empty()).push(Token::Mark(';', false))
}

/// `name();` for each of `names`, in order.
pub open spec fn call_statements(names: Seq<Seq<char>>) -> Seq<Token>
    decreases names.len(),
{
    if names.len() == 0 {
        Seq::empty()
    } else {
        call_statements(names.drop_last()) + call_statement(names.last())
    }
}

/// `mod test { imports tests pub fn runner() { calls } }`
pub open spec fn test_mod(imports: Seq<Token>, tests: Seq<Token>, calls: Seq<Token>) -> Seq<Token> {
    seq![
        Token::Word("mod"@),
        Token::Word("test"@),
        Token::Group(
            Enclosure::Brace,
            imports + tests + seq![Token::Word("pub"@), Token::Word("fn"@)] + call(
                "runner"@,
                Seq::empty(),
            ).push(Token::Group(Enclosure::Brace, calls)),
        ),
    ]
}

/// The names that go into the register of tests: all but that of the gateway.
pub open spec fn registered(names: Seq<Seq<char>>) -> Seq<Seq<char>>
    decreases names.len(),
{
    if names.len() == 0 {
        Seq::empty()
    } else {
        let before = registered(names.drop_last());
        if names.last() == "gateway"@ {
            before
        } else {
            before.push(names.last())
        }
    }
}

/// An item of a module of tests.
pub enum Item {
    Function(FnParts),
    Import(TokenStream),
    Other,
}

/// A module of tests while its items are read.
pub struct Draft {
    /// The imports.
    pub imports: TokenStream,
    /// The functions.
    pub tests: TokenStream,
    /// A call of each function.
    pub calls: TokenStream,
    /// The register of tests.
    pub register: String,
}

/// What `test_module` writes for a module.
pub struct Expansion {
    /// The text of the register of tests.
    pub register: String,
    /// The module.
    pub output: TokenStream,
}

impl Draft {
    /// A module without items.
    pub fn new() -> (r: Draft)
        ensures
            tokens(r.imports) == Seq::<Token>::empty(),
            tokens(r.tests) == Seq::<Token>::empty(),
            tokens(r.calls) == Seq::<Token>::empty(),
            r.register@ == Seq::<char>::empty(),
    {
        Draft { imports: empty(), tests: empty(), calls: empty(), register: String::new() }
    }

    /// Takes the next item in: a function is exported, called by the runner
    /// and, unless it is the gateway, registered; an import is kept; any other
    /// item is left out.
    pub fn add(&mut self, item: Item)
        ensures
            tokens(final(self).imports) == match item {
                Item::Import(u) => tokens(old(self).imports) + tokens(u),
                _ => tokens(old(self).imports),
            },
            tokens(final(self).tests) == match item {
                Item::Function(f) => tokens(old(self).tests) + test_fn(f.shape()),
                _ => tokens(old(self).tests),
            },
            tokens(final(self).calls) == match item {
                Item::Function(f) => tokens(old(self).calls) + tokens(f.ident) + seq![
                    Token::Group(Enclosure::Parenthesis, Seq::empty()),
                    Token::Mark(';', false),
                ],
                _ => tokens(old(self).calls),
            },
            final(self).register@ == match item {
                Item::Function(f) => if f.name@ == "gateway"@ {
                    old(self).register@
                } else {
                    old(self).register@ + f.name@.push('\n')
                },
                _ => old(self).register@,
            },
    {
        match item {
            Item::Function(f) => {
                let FnParts { name, ident, attrs, vis, sig, body } = f;
                let mut section = ".test_".to_string();
                section.append(name.as_str());
                write_exported(&mut self.tests, section.as_str(), attrs, vis, sig, body);
                append(&mut self.calls, ident);
                push_group(&mut self.calls, Enclosure::Parenthesis, empty());
                push_mark(&mut self.calls, ';', false);
                if !same(name.as_str(), "gateway") {
                    self.register.append(name.as_str());
                    self.register.push('\n');
                }
            },
            Item::Import(u) => {
                append(&mut self.imports, u);
            },
            Item::Other => {},
        }
    }

    /// The module of the items that were taken in, with a runner that calls
    /// each of its functions.
    pub fn finish(self) -> (r: Expansion)
        ensures
            r.register@ == self.register@,
            tokens(r.output) == test_mod(
                tokens(self.imports),
                tokens(self.tests),
                tokens(self.calls),
            ),
    {
        proof {
            reveal_strlit("mod");
            reveal_strlit("test");
            reveal_strlit("pub");
            reveal_strlit("fn");
            reveal_strlit("runner");
        }
        let mut body = self.imports;
        append(&mut body, self.tests);
        push_word(&mut body, "pub");
        push_word(&mut body, "fn");
        push_word(&mut body, "runner");
        push_group(&mut body, Enclosure::Parenthesis, empty());
        push_group(&mut body, Enclosure::Brace, self.calls);
        assert(tokens(body) == tokens(self.imports) + tokens(self.tests) + seq![
            Token::Word("pub"@),
            Token::Word("fn"@),
        ] + call("runner"@, Seq::empty()).push(
            Token::Group(Enclosure::Brace, tokens(self.calls)),
        ));
        let mut output = empty();
        push_word(&mut output, "mod");
        push_word(&mut output, "test");
        push_group(&mut output, Enclosure::Brace, body);
        Expansion { register: self.register, output }
    }
}

/// What `test_module` writes for a module with the items `items`.
pub open spec fn expands_to(items: Seq<Seq<Token>>, x: Expansion) -> bool {
    let all = names(functions(items));
    &&& tokens(x.output) == test_mod(
        imports(items),
        test_fns(functions(items)),
        call_statements(all),
    )
    &&& x.register@ == register_text(registered(all))
    &&& lines(x.register@) == registered(all)
}

/// One item of a module of tests: a function, else an import, else neither.
fn read_item(item: &TokenStream) -> (r: Item)
    ensures
        match r {
            Item::Function(f) => {
                &&& fn_shape(tokens(*item)) == Ok::<FnShape, Seq<Token>>(f.shape())
                &&& tokens(f.ident) == seq![Token::Word(f.name@)]
                &&& !f.name@.contains('\n')
                &&& !f.name@.contains('\r')
            },
            Item::Import(u) => fn_shape(tokens(*item)) is Err && use_shape(tokens(*item)) == Some(
                tokens(u),
            ),
            Item::Other => fn_shape(tokens(*item)) is Err && use_shape(tokens(*item)) is None,
        },
{
    match parse_fn(item) {
        Ok(f) => Item::Function(f),
        Err(_) => match parse_use(item) {
            Some(u) => Item::Import(u),
            None => Item::Other,
        },
    }
}

/// What `test_module` writes for a module that was read.
pub fn expand_module(module: Module) -> (r: Result<Expansion, Rejection>)
    ensures
        match module.shape() {
            ModuleShape::Malformed(e) => r matches Err(Rejection::Syntax(t)) && tokens(t) == e,
            ModuleShape::Declared => r matches Err(Rejection::NoBody),
            ModuleShape::Inline(items) => r matches Ok(x) && expands_to(items, x),
        },
{
    let items = match module {
        Module::Malformed(e) => {
            return Err(Rejection::Syntax(e));
        },
        Module::Declared => {
            return Err(Rejection::NoBody);
        },
        Module::Inline(items) => items,
    };
    let mut draft = Draft::new();
    let mut i: usize = 0;
    let ghost all = each(items@);
    assert(all.take(0) == Seq::<Seq<Token>>::empty());
    assert(names(functions(all.take(0))) == Seq::<Seq<char>>::empty());
    while i < items.len()
        invariant
            i <= items@.len(),
            all == each(items@),
            tokens(draft.imports) == imports(all.take(i as int)),
            tokens(draft.tests) == test_fns(functions(all.take(i as int))),
            tokens(draft.calls) == call_statements(names(functions(all.take(i as int)))),
            draft.register@ == register_text(registered(names(functions(all.take(i as int))))),
            one_line_each(registered(names(functions(all.take(i as int))))),
        decreases items@.len() - i,
    {
        let ghost fns = functions(all.take(i as int));
        let ghost old_registered = registered(names(fns));
        assert(all.take(i + 1).drop_last() == all.take(i as int));
        assert(all[i as int] == tokens(items@[i as int]));
        let item = read_item(&items[i]);
        proof {
            if let Item::Function(f) = &item {
                let more = fns.push(f.shape());
                assert(functions(all.take(i + 1)) == more);
                assert(more.drop_last() == fns);
                assert(names(more) == names(fns).push(f.name@));
                assert(names(more).drop_last() == names(fns));
                assert(tokens(f.ident) + seq![
                    Token::Group(Enclosure::Parenthesis, Seq::empty()),
                    Token::Mark(';', false),
                ] == call_statement(f.name@));
                if f.name@ != "gateway"@ {
                    let now = old_registered.push(f.name@);
                    assert(registered(names(more)) == now);
                    assert(now.drop_last() == old_registered);
                    assert forall|k: int| 0 <= k < now.len() implies !(#[trigger] now[k]).contains(
                        '\n',
                    ) && !(now[k].len() > 0 && now[k].last() == '\r') by {
                        if k < old_registered.len() {
                            assert(now[k] == old_registered[k]);
                        }
                    }
                }
            }
        }
        draft.add(item);
        i = i + 1;
    }
    assert(all.take(i as int) == all);
    proof {
        register_round_trip(registered(names(functions(all))));
    }
    Ok(draft.finish())
}

/// What `test_module` does: the file that it writes the register to, and what
/// it writes for the module.
pub struct TestModule {
    /// The path of the register of tests, where one is kept.
    pub path: Option<String>,
    /// The register and the module. The file of the register is there, empty,
    /// even where there are none.
    pub expansion: Result<Expansion, Rejection>,
}

/// The path of the register that the argument of `test_module` names: none
/// where it is given no argument. Any other argument has to be quoted.
pub open spec fn register_path(text: Seq<char>) -> Result<Option<Seq<char>>, ()> {
    if text.len() == 0 {
        Ok(None)
    } else {
        match unquoted(text) {
            Some(path) => Ok(Some(path)),
            None => Err(()),
        }
    }
}

/// The attribute `test_module`, put on a module of tests.
///
/// The module is written anew under the name `test`, with its imports, with
/// each of its functions in a link section of its own, and with a function
/// `runner` that calls each of them in order. The register at the quoted path
/// that `args` are, if they are given, gets the name of each function but that
/// of the gateway.
pub fn test_module(args: &TokenStream, item: TokenStream) -> (r: Result<TestModule, Rejection>)
    ensures
        match register_path(printed(*args)) {
            Err(_) => r matches Err(Rejection::UnquotedPath),
            Ok(path) => r matches Ok(m) && view_of(m.path) == path && match module_shape(tokens(item)) {
                ModuleShape::Malformed(e) => m.expansion matches Err(Rejection::Syntax(t))
                    && tokens(t) == e,
                ModuleShape::Declared => m.expansion matches Err(Rejection::NoBody),
                ModuleShape::Inline(items) => m.expansion matches Ok(x) && expands_to(items, x),
            },
        },
{
    let text = print(args);
    let path = if text.as_str().is_empty() {
        None
    } else {
        match unquote(text.as_str()) {
            Some(path) => Some(path),
            None => {
                return Err(Rejection::UnquotedPath);
            },
        }
    };
    let module = parse_module(item);
    Ok(TestModule { path, expansion: expand_module(module) })
}

/// What `test_gateway` writes for a function, which has to be named `gateway`:
/// it is exported without its attributes.
pub open spec fn gateway(f: FnShape) -> Option<Seq<Token>> {
    if f.name == "gateway"@ {
        Some(exported(".test_gateway"@, Seq::empty(), f.vis, f.sig, f.body))
    } else {
        None
    }
}

/// What `test_gateway` writes for a function that was read.
pub fn expand_gateway(f: FnParts) -> (r: Result<TokenStream, Rejection>)
    ensures
        match gateway(f.shape()) {
            Some(written) => r matches Ok(t) && tokens(t) == written,
            None => r matches Err(Rejection::Misnamed),
        },
{
    if !same(f.name.as_str(), "gateway") {
        return Err(Rejection::Misnamed);
    }
    let mut output = empty();
    write_exported(&mut output, ".test_gateway", empty(), f.vis, f.sig, f.body);
    Ok(output)
}

/// The attribute `test_gateway`, put on the function that is reached when the
/// last test was successful. It has to be named `gateway`; its attributes are
/// left out.
pub fn test_gateway(item: &TokenStream) -> (r: Result<TokenStream, Rejection>)
    ensures
        match fn_shape(tokens(*item)) {
            Err(e) => r matches Err(Rejection::Syntax(t)) && tokens(t) == e,
            Ok(f) => match gateway(f) {
                Some(written) => r matches Ok(t) && tokens(t) == written,
                None => r matches Err(Rejection::Misnamed),
            },
        },
{
    match parse_fn(item) {
        Ok(f) => expand_gateway(f),
        Err(e) => Err(Rejection::Syntax(e)),
    }
}

/// Two functions are the same but for their attributes.
pub open spec fn same_but_attributes(f: FnShape, g: FnShape) -> bool {
    f.name == g.name && f.vis == g.vis && f.sig == g.sig && f.body == g.body
}

/// The attributes of a function have no influence on what `test_gateway` writes
/// for it.
pub proof fn gateway_ignores_attributes(f: FnShape, g: FnShape)
    requires
        same_but_attributes(f, g),
    ensures
        gateway(f) == gateway(g),
{
}

/// The attributes that `test_gateway` gives a function.
pub open spec fn gateway_attributes() -> Seq<Token> {
    attribute(seq![Token::Word("no_mangle"@)]) + attribute(
        call("inline"@, seq![Token::Word("never"@)]),
    ) + attribute(
        seq![
            Token::Word("link_section"@),
            Token::Mark('=', false),
            Token::Text(".test_gateway"@),
        ],
    )
}

/// What `test_gateway` writes for a function, and what it writes for the
/// function that is read out of that, has the attributes of a gateway once, and
/// no others.
pub proof fn gateway_attributes_once(f: FnShape, g: FnShape)
    requires
        gateway(f) is Some,
        fn_shape(gateway(f)->0) == Ok::<FnShape, Seq<Token>>(g),
    ensures
        gateway(f) == Some(
            gateway_attributes() + f.vis + f.sig + seq![Token::Group(Enclosure::Brace, f.body)],
        ),
        gateway(g) matches Some(again) ==> again == gateway_attributes() + g.vis + g.sig + seq![
            Token::Group(Enclosure::Brace, g.body),
        ],
{
    let none = Seq::<Token>::empty();
    assert(gateway_attributes() + none == gateway_attributes());
}

/// Where the function that `test_gateway` writes is read back as it was written,
/// but for the attributes that it was given, `test_gateway` writes the same for
/// it once more: no attribute is added twice.
pub proof fn gateway_twice(f: FnShape, g: FnShape)
    requires
        gateway(f) is Some,
        fn_shape(gateway(f)->0) == Ok::<FnShape, Seq<Token>>(g),
        same_but_attributes(f, g),
    ensures
        gateway(g) == gateway(f),
{
    gateway_ignores_attributes(f, g);
}

/// The functions of a module stay in order, and none is left out: a function
/// comes behind as many functions as there are before it in the module.
pub proof fn functions_in_order(items: Seq<Seq<Token>>, i: int)
    requires
        0 <= i < items.len(),
        fn_shape(items[i]) is Ok,
    ensures
        functions(items.take(i)).len() < functions(items).len(),
        functions(items)[functions(items.take(i)).len() as int] == fn_shape(items[i])->Ok_0,
    decreases items.len(),
{
    let front = items.drop_last();
    if i < front.len() {
        functions_in_order(front, i);
        assert(front.take(i) == items.take(i));
    } else {
        assert(front == items.take(i));
    }
}

/// The runner calls each of the functions, once, in order.
pub proof fn runner_calls_each(names: Seq<Seq<char>>)
    ensures
        call_statements(names).len() == 3 * names.len(),
        forall|i: int|
            0 <= i < names.len() ==> call_statements(names).subrange(3 * i, 3 * i + 3)
                == call_statement(#[trigger] names[i]),
    decreases names.len(),
{
    if names.len() > 0 {
        let front = names.drop_last();
        runner_calls_each(front);
        assert forall|i: int| 0 <= i < names.len() implies call_statements(names).subrange(
            3 * i,
            3 * i + 3,
        ) == call_statement(#[trigger] names[i]) by {
            if i < front.len() {
                assert(front[i] == names[i]);
                assert(call_statements(names).subrange(3 * i, 3 * i + 3) == call_statements(
                    front,
                ).subrange(3 * i, 3 * i + 3));
            } else {
                assert(call_statements(names).subrange(3 * i, 3 * i + 3) == call_statement(
                    names[i],
                ));
            }
        }
    }
}

/// The register names every function of the module but the gateway, and
/// nothing else.
pub proof fn registers_all_but_gateway(names: Seq<Seq<char>>, name: Seq<char>)
    ensures
        registered(names).contains(name) <==> names.contains(name) && name != "gateway"@,
    decreases names.len(),
{
    if names.len() > 0 {
        let front = names.drop_last();
        registers_all_but_gateway(front, name);
        let before = registered(front);
        assert(front.push(names.last()) == names);
        if names.contains(name) {
            let k = choose|k: int| 0 <= k < names.len() && names[k] == name;
            if k < front.len() {
                assert(front[k] == name);
            }
        }
        if front.contains(name) {
            let k = choose|k: int| 0 <= k < front.len() && front[k] == name;
            assert(names[k] == name);
        }
        if names.last() != "gateway"@ {
            let now = before.push(names.last());
            assert(now.last() == names.last());
            assert(now[now.len() - 1] == names.last());
            if now.contains(name) {
                let k = choose|k: int| 0 <= k < now.len() && now[k] == name;
                if k < before.len() {
                    assert(before[k] == name);
                } else {
                    assert(names[names.len() - 1] == name);
                }
            }
            if before.contains(name) {
                let k = choose|k: int| 0 <= k < before.len() && before[k] == name;
                assert(now[k] == name);
            }
        }
    }
}

} // verus!
