//! Rust code, written token by token.
use crate::macros::tokens::{
    append, empty, is_word, push_group, push_mark, push_text, push_word, tokens, Enclosure, Token,
};
use proc_macro2::TokenStream;
use vstd::prelude::*;

verus! {

/// `#[inner]`
pub open spec fn attribute(inner: Seq<Token>) -> Seq<Token> {
    seq![Token::Mark('#', false), Token::Group(Enclosure::Bracket, inner)]
}

/// Writes `#[inner]`.
pub fn write_attribute(out: &mut TokenStream, inner: TokenStream)
    ensures
        tokens(*final(out)) == tokens(*old(out)) + attribute(tokens(inner)),
{
    push_mark(out, '#', false);
    push_group(out, Enclosure::Bracket, inner);
}

/// `::name`
pub open spec fn member(name: Seq<char>) -> Seq<Token> {
    seq![Token::Mark(':', true), Token::Mark(':', false), Token::Word(name)]
}

/// Writes `::name`.
pub fn write_member(out: &mut TokenStream, name: &str)
    requires
        is_word(name@),
    ensures
        tokens(*final(out)) == tokens(*old(out)) + member(name@),
{
    push_mark(out, ':', true);
    push_mark(out, ':', false);
    push_word(out, name);
}

/// `name(args)`
pub open spec fn call(name: Seq<char>, args: Seq<Token>) -> Seq<Token> {
    seq![Token::Word(name), Token::Group(Enclosure::Parenthesis, args)]
}

/// Writes `name(args)`.
pub fn write_call(out: &mut TokenStream, name: &str, args: TokenStream)
    requires
        is_word(name@),
    ensures
        tokens(*final(out)) == tokens(*old(out)) + call(name@, tokens(args)),
{
    push_word(out, name);
    push_group(out, Enclosure::Parenthesis, args);
}

/// `.name(args)`
pub open spec fn method(name: Seq<char>, args: Seq<Token>) -> Seq<Token> {
    seq![Token::Mark('.', false)] + call(name, args)
}

/// Writes `.name(args)`.
pub fn write_method(out: &mut TokenStream, name: &str, args: TokenStream)
    requires
        is_word(name@),
    ensures
        tokens(*final(out)) == tokens(*old(out)) + method(name@, tokens(args)),
{
    push_mark(out, '.', false);
    write_call(out, name, args);
}

/// `use krate::name;`
pub open spec fn import(krate: Seq<char>, name: Seq<char>) -> Seq<Token> {
    seq![Token::Word("use"@), Token::Word(krate)] + member(name) + seq![Token::Mark(';', false)]
}

/// Writes `use krate::name;`.
pub fn write_import(out: &mut TokenStream, krate: &str, name: &str)
    requires
        is_word(krate@),
        is_word(name@),
    ensures
        tokens(*final(out)) == tokens(*old(out)) + import(krate@, name@),
{
    proof {
        reveal_strlit("use");
    }
    push_word(out, "use");
    push_word(out, krate);
    write_member(out, name);
    push_mark(out, ';', false);
}

/// A function that the linker finds under its own name, in the section
/// `section`, and that is not inlined:
/// `#[no_mangle] #[inline(never)] #[link_section = section] attrs vis sig { body }`
pub open spec fn exported(
    section: Seq<char>,
    attrs: Seq<Token>,
    vis: Seq<Token>,
    sig: Seq<Token>,
    body: Seq<Token>,
) -> Seq<Token> {
    attribute(seq![Token::Word("no_mangle"@)]) + attribute(
        call("inline"@, seq![Token::Word("never"@)]),
    ) + attribute(
        seq![Token::Word("link_section"@), Token::Mark('=', false), Token::Text(section)],
    ) + attrs + vis + sig + seq![Token::Group(Enclosure::Brace, body)]
}

/// Writes a function that the linker finds in the section `section`.
pub fn write_exported(
    out: &mut TokenStream,
    section: &str,
    attrs: TokenStream,
    vis: TokenStream,
    sig: TokenStream,
    body: TokenStream,
)
    ensures
        tokens(*final(out)) == tokens(*old(out)) + exported(
            section@,
            tokens(attrs),
            tokens(vis),
            tokens(sig),
            tokens(body),
        ),
{
    proof {
        reveal_strlit("no_mangle");
        reveal_strlit("inline");
        reveal_strlit("never");
        reveal_strlit("link_section");
    }
    let ghost start = tokens(*out);
    let mut no_mangle = empty();
    push_word(&mut no_mangle, "no_mangle");
    assert(tokens(no_mangle) == seq![Token::Word("no_mangle"@)]);
    write_attribute(out, no_mangle);

    let mut never = empty();
    push_word(&mut never, "never");
    assert(tokens(never) == seq![Token::Word("never"@)]);
    let mut inline = empty();
    write_call(&mut inline, "inline", never);
    assert(tokens(inline) == call("inline"@, seq![Token::Word("never"@)]));
    write_attribute(out, inline);

    let mut link_section = empty();
    push_word(&mut link_section, "link_section");
    push_mark(&mut link_section, '=', false);
    push_text(&mut link_section, section);
    assert(tokens(link_section) == seq![
        Token::Word("link_section"@),
        Token::Mark('=', false),
        Token::Text(section@),
    ]);
    write_attribute(out, link_section);

    append(out, attrs);
    append(out, vis);
    append(out, sig);
    push_group(out, Enclosure::Brace, body);
    assert(tokens(*out) == start + exported(
        section@,
        tokens(attrs),
        tokens(vis),
        tokens(sig),
        tokens(body),
    ));
}

} // verus!
