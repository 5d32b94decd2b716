//! Token streams: what the attribute macros read and write.
use proc_macro2::{Group, Ident, Literal, Punct, Spacing, Span, TokenStream};
use quote::TokenStreamExt;
use vstd::prelude::*;

verus! {

/// A stream of Rust tokens.
///
/// Inside the compiler `proc_macro2` makes all streams out of the compiler's
/// own, elsewhere it makes all of them itself; the two sorts do not meet in one
/// process.
#[verifier::external_type_specification]
#[verifier::external_body]
pub struct ExTokenStream(TokenStream);

/// What encloses the tokens of a group.
#[derive(Clone, Copy)]
pub enum Enclosure {
    Parenthesis,
    Brace,
    Bracket,
    Nothing,
}

/// One token of a stream, without its place in the source.
pub enum Token {
    /// A keyword or an identifier.
    Word(Seq<char>),
    /// One character of punctuation, and whether it forms one operator with
    /// the punctuation after it.
    Mark(char, bool),
    /// A string literal without a suffix, by the text that it stands for.
    Text(Seq<char>),
    /// Another literal, as it is written.
    Literal(Seq<char>),
    /// The tokens between two delimiters.
    Group(Enclosure, Seq<Token>),
}

/// The tokens that a stream holds, in order.
pub uninterp spec fn tokens(stream: TokenStream) -> Seq<Token>;

/// The text that a stream prints as.
pub uninterp spec fn printed(stream: TokenStream) -> Seq<char>;

/// Prints a stream, by its `to_string`.
#[verifier::external_body]
pub(crate) fn print(stream: &TokenStream) -> (r: String)
    ensures
        r@ == printed(*stream),
{
    stream.to_string()
}

/// `TokenStream::new` makes a stream that holds no token.
#[verifier::external_body]
pub(crate) fn empty() -> (r: TokenStream)
    ensures
        tokens(r) == Seq::<Token>::empty(),
{
    TokenStream::new()
}

/// `TokenStream::extend` puts the tokens of another stream behind those that
/// the stream holds.
#[verifier::external_body]
pub(crate) fn append(stream: &mut TokenStream, more: TokenStream)
    ensures
        tokens(*final(stream)) == tokens(*old(stream)) + tokens(more),
{
    stream.extend(more);
}

/// `c` is a letter of the Latin alphabet.
pub open spec fn is_letter(c: char) -> bool {
    'a' <= c <= 'z' || 'A' <= c <= 'Z'
}

/// `s` is made of letters and underscores and begins with a letter.
pub open spec fn is_word(s: Seq<char>) -> bool {
    &&& s.len() > 0
    &&& is_letter(s[0])
    &&& forall|i: int| 0 <= i < s.len() ==> is_letter(#[trigger] s[i]) || s[i] == '_'
}

/// `Ident::new` makes an identifier or a keyword of a word; it is put behind
/// the tokens of the stream.
#[verifier::external_body]
pub(crate) fn push_word(stream: &mut TokenStream, word: &str)
    requires
        is_word(word@),
    ensures
        tokens(*final(stream)) == tokens(*old(stream)).push(Token::Word(word@)),
{
    stream.append(Ident::new(word, Span::call_site()));
}

/// The punctuation that the macros write.
pub open spec fn is_mark(c: char) -> bool {
    c == '#' || c == '=' || c == ':' || c == ';' || c == '.' || c == ',' || c == '!'
}

/// `Punct::new` makes a punctuation character, which is put behind the tokens
/// of the stream.
#[verifier::external_body]
pub(crate) fn push_mark(stream: &mut TokenStream, mark: char, joint: bool)
    requires
        is_mark(mark),
    ensures
        tokens(*final(stream)) == tokens(*old(stream)).push(Token::Mark(mark, joint)),
{
    let spacing = match joint {
        true => Spacing::Joint,
        false => Spacing::Alone,
    };
    stream.append(Punct::new(mark, spacing));
}

/// `Literal::string` makes a string literal that stands for `text`; it is put
/// behind the tokens of the stream.
#[verifier::external_body]
pub(crate) fn push_text(stream: &mut TokenStream, text: &str)
    ensures
        tokens(*final(stream)) == tokens(*old(stream)).push(Token::Text(text@)),
{
    stream.append(Literal::string(text));
}

/// `Group::new` encloses the tokens of `inner`; the group is put behind the
/// tokens of the stream.
#[verifier::external_body]
pub(crate) fn push_group(stream: &mut TokenStream, enclosure: Enclosure, inner: TokenStream)
    ensures
        tokens(*final(stream)) == tokens(*old(stream)).push(
            Token::Group(enclosure, tokens(inner)),
        ),
{
    let delimiter = match enclosure {
        Enclosure::Parenthesis => proc_macro2::Delimiter::Parenthesis,
        Enclosure::Brace => proc_macro2::Delimiter::Brace,
        Enclosure::Bracket => proc_macro2::Delimiter::Bracket,
        Enclosure::Nothing => proc_macro2::Delimiter::None,
    };
    stream.append(Group::new(delimiter, inner));
}

} // verus!
