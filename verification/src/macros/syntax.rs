//! Items of Rust code, read out of token streams.
use crate::macros::tokens::{tokens, Token};
use proc_macro2::TokenStream;
use quote::{ToTokens, TokenStreamExt};
use syn::{ItemFn, ItemMod, ItemUse};
use vstd::prelude::*;

verus! {

/// A function, as the macros take it apart.
pub struct FnShape {
    /// The function's name.
    pub name: Seq<char>,
    /// The attributes, one after the other: those before the function, then
    /// those at the beginning of its body.
    pub attrs: Seq<Token>,
    /// The visibility.
    pub vis: Seq<Token>,
    /// The signature, from its first keyword up to the body.
    pub sig: Seq<Token>,
    /// The statements of the body, one after the other.
    pub body: Seq<Token>,
}

/// A function, as the macros take it apart.
pub struct FnParts {
    pub name: String,
    /// The name as the one token of a stream.
    pub ident: TokenStream,
    pub attrs: TokenStream,
    pub vis: TokenStream,
    pub sig: TokenStream,
    pub body: TokenStream,
}

impl FnParts {
    /// The tokens of the parts.
    pub open spec fn shape(&self) -> FnShape {
        FnShape {
            name: self.name@,
            attrs: tokens(self.attrs),
            vis: tokens(self.vis),
            sig: tokens(self.sig),
            body: tokens(self.body),
        }
    }
}

/// The tokens of the parts of a function, or of what stands in its place.
pub open spec fn shape_of(f: Result<FnParts, TokenStream>) -> Result<FnShape, Seq<Token>> {
    match f {
        Ok(f) => Ok(f.shape()),
        Err(e) => Err(tokens(e)),
    }
}

/// The function that tokens are, or the call of `compile_error!` that says why
/// they are none.
pub uninterp spec fn fn_shape(item: Seq<Token>) -> Result<FnShape, Seq<Token>>;

/// Reads a function with `syn::parse2::<ItemFn>` and prints each of its parts
/// with `quote::ToTokens`.
///
/// What is read depends on the tokens alone. The name is an identifier: it is
/// one token, and no line ends in it.
#[verifier::external_body]
pub(crate) fn parse_fn(item: &TokenStream) -> (r: Result<FnParts, TokenStream>)
    ensures
        shape_of(r) == fn_shape(tokens(*item)),
        r matches Ok(f) ==> tokens(f.ident) == seq![Token::Word(f.name@)],
        r matches Ok(f) ==> !f.name@.contains('\n') && !f.name@.contains('\r'),
{
    match syn::parse2::<ItemFn>(item.clone()) {
        Ok(f) => {
            let (mut attrs, mut body) = (TokenStream::new(), TokenStream::new());
            attrs.append_all(&f.attrs);
            body.append_all(&f.block.stmts);
            let name = f.sig.ident.to_string();
            let ident = f.sig.ident.to_token_stream();
            let (vis, sig) = (f.vis.to_token_stream(), f.sig.to_token_stream());
            Ok(FnParts { name, ident, attrs, vis, sig, body })
        },
        Err(e) => Err(e.to_compile_error()),
    }
}

/// The tokens of the import that tokens are, if they are one.
pub uninterp spec fn use_shape(item: Seq<Token>) -> Option<Seq<Token>>;

/// Reads an import with `syn::parse2::<ItemUse>` and prints it with
/// `quote::ToTokens`. What is read depends on the tokens alone.
#[verifier::external_body]
pub(crate) fn parse_use(item: &TokenStream) -> (r: Option<TokenStream>)
    ensures
        r matches Some(u) ==> use_shape(tokens(*item)) == Some(tokens(u)),
        r is None ==> use_shape(tokens(*item)) is None,
{
    match syn::parse2::<ItemUse>(item.clone()) {
        Ok(u) => Some(u.to_token_stream()),
        Err(_) => None,
    }
}

/// A module, as the macros take it apart.
pub enum ModuleShape {
    /// No module: the call of `compile_error!` that says why.
    Malformed(Seq<Token>),
    /// A module whose contents stand in another file.
    Declared,
    /// The tokens of each item of a module, in order.
    Inline(Seq<Seq<Token>>),
}

/// A module, as the macros take it apart.
pub enum Module {
    Malformed(TokenStream),
    Declared,
    Inline(Vec<TokenStream>),
}

/// The tokens of each of some streams.
pub open spec fn each(streams: Seq<TokenStream>) -> Seq<Seq<Token>> {
    streams.map_values(|s: TokenStream| tokens(s))
}

impl Module {
    /// The tokens of the parts.
    pub open spec fn shape(&self) -> ModuleShape {
        match self {
            Module::Malformed(e) => ModuleShape::Malformed(tokens(*e)),
            Module::Declared => ModuleShape::Declared,
            Module::Inline(items) => ModuleShape::Inline(each(items@)),
        }
    }
}

/// The module that tokens are.
pub uninterp spec fn module_shape(item: Seq<Token>) -> ModuleShape;

/// Reads a module with `syn::parse2::<ItemMod>` and prints each of its items
/// with `quote::ToTokens`. What is read depends on the tokens alone.
#[verifier::external_body]
pub(crate) fn parse_module(item: TokenStream) -> (r: Module)
    ensures
        r.shape() == module_shape(tokens(item)),
{
    match syn::parse2::<ItemMod>(item) {
        Ok(m) => match m.content {
            Some((_, items)) => Module::Inline(items.iter().map(ToTokens::to_token_stream).collect()),
            None => Module::Declared,
        },
        Err(e) => Module::Malformed(e.to_compile_error()),
    }
}

} // verus!
