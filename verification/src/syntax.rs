//! What the macros ask of `syn`, and the answer of the crate-name lookup.
//!
//! The macros' own grammars (`proxy!`, `#[drive(..)]`, `#[oper(..)]`) are
//! parsed in this crate. Rust's own syntax (types, expressions, generic
//! parameter lists, trait items) is `syn`'s business: each item here hands
//! a source text to one `syn` parser and reports whether it accepted the
//! whole text, or the message of its error, or the token trees it gives
//! back. These depend on the text alone and are named by uninterpreted
//! functions of it. Token trees come back as `proc_macro2` streams and are
//! read as this crate's [`Tok`] trees, never printed by the toolchain.
use vstd::prelude::*;
use quote::ToTokens;
use proc_macro2::{Delimiter, Spacing, TokenTree};
use crate::token::{Delim, Tok};

verus! {

/// The token streams that `syn` hands back.
#[verifier::external_type_specification]
#[verifier::external_body]
pub struct ExTokenStream(proc_macro2::TokenStream);

/// Parsing the whole text as a `Type`: `None` when `syn` accepts it, else
/// the message of `syn`'s error.
pub uninterp spec fn type_error(text: Seq<char>) -> Option<Seq<char>>;

/// Parsing the whole text as an `Expr`: `None` when `syn` accepts it, else
/// the message of `syn`'s error.
pub uninterp spec fn expr_error(text: Seq<char>) -> Option<Seq<char>>;

/// Parsing the whole text as an `Ident` (keywords are refused): `None`
/// when `syn` accepts it, else the message of `syn`'s error.
pub uninterp spec fn ident_error(text: Seq<char>) -> Option<Seq<char>>;

/// Parsing the whole text as a `BoundLifetimes` (`for<...>`): `None` when
/// `syn` accepts it, else the message of `syn`'s error.
pub uninterp spec fn binder_error(text: Seq<char>) -> Option<Seq<char>>;

/// Parsing the whole text as a `GenericParam`: `None` when `syn` accepts
/// it, else the message of `syn`'s error.
pub uninterp spec fn generic_param_error(text: Seq<char>) -> Option<Seq<char>>;

pub open spec fn parses_as_binder(text: Seq<char>) -> bool {
    binder_error(text) is None
}

/// Parsing the whole text as a `WherePredicate`: `None` when `syn` accepts
/// it, else the message of `syn`'s error.
pub uninterp spec fn where_predicate_error(text: Seq<char>) -> Option<Seq<char>>;

/// Parsing the whole text as a `TypeParamBound`: `None` when `syn` accepts
/// it, else the message of `syn`'s error.
pub uninterp spec fn bound_error(text: Seq<char>) -> Option<Seq<char>>;

/// Parsing the whole text as an `ItemTrait`: `None` when `syn` accepts it,
/// else the message of `syn`'s error.
pub uninterp spec fn trait_error(text: Seq<char>) -> Option<Seq<char>>;

/// The token trees that a `proc_macro2` token stream holds, as this
/// crate's [`Tok`] trees.
pub uninterp spec fn stream_trees(stream: proc_macro2::TokenStream) -> Seq<Tok>;

/// When `syn` parses the whole text as `Generics`: the token trees of the
/// impl generics and of the type generics that `split_for_impl` gives.
pub uninterp spec fn generics_split(text: Seq<char>) -> Option<(Seq<Tok>, Seq<Tok>)>;

/// Parsing the whole text as a `DeriveInput`: when `syn` accepts it, the
/// identifier of the type and the token trees of the impl generics, type
/// generics and where clause that `split_for_impl` gives for its generics;
/// else the message of `syn`'s error.
pub uninterp spec fn derive_split(text: Seq<char>) -> Result<
    (Seq<char>, Seq<Tok>, Seq<Tok>, Seq<Tok>),
    Seq<char>,
>;

/// `syn` parses the whole text as `Generics`.
pub open spec fn parses_as_generics(text: Seq<char>) -> bool {
    generics_split(text) is Some
}

pub open spec fn parses_as_type(text: Seq<char>) -> bool {
    type_error(text) is None
}

pub open spec fn parses_as_ident(text: Seq<char>) -> bool {
    ident_error(text) is None
}

pub open spec fn parses_as_bound(text: Seq<char>) -> bool {
    bound_error(text) is None
}

pub open spec fn opt_text(r: Option<String>) -> Option<Seq<char>> {
    match r {
        Some(m) => Some(m@),
        None => None,
    }
}

/// `syn::parse_str::<syn::Type>`: `None` when it accepts `text`, else its
/// error's message.
#[verifier::external_body]
pub(crate) fn type_check(text: &str) -> (r: Option<String>)
    ensures
        opt_text(r) == type_error(text@),
{
    match syn::parse_str::<syn::Type>(text) {
        Ok(_) => None,
        Err(error) => Some(error.to_string()),
    }
}

/// `syn::parse_str::<syn::Expr>`: `None` when it accepts `text`, else its
/// error's message.
#[verifier::external_body]
pub(crate) fn expr_check(text: &str) -> (r: Option<String>)
    ensures
        opt_text(r) == expr_error(text@),
{
    match syn::parse_str::<syn::Expr>(text) {
        Ok(_) => None,
        Err(error) => Some(error.to_string()),
    }
}

/// `syn::parse_str::<syn::Ident>`: `None` when it accepts `text`, else its
/// error's message.
#[verifier::external_body]
pub(crate) fn ident_check(text: &str) -> (r: Option<String>)
    ensures
        opt_text(r) == ident_error(text@),
{
    match syn::parse_str::<syn::Ident>(text) {
        Ok(_) => None,
        Err(error) => Some(error.to_string()),
    }
}

/// `syn::parse_str::<syn::BoundLifetimes>`: `None` when it accepts `text`,
/// else its error's message.
#[verifier::external_body]
pub(crate) fn binder_check(text: &str) -> (r: Option<String>)
    ensures
        opt_text(r) == binder_error(text@),
{
    match syn::parse_str::<syn::BoundLifetimes>(text) {
        Ok(_) => None,
        Err(error) => Some(error.to_string()),
    }
}

/// `syn::parse_str::<syn::GenericParam>`: `None` when it accepts `text`,
/// else its error's message.
#[verifier::external_body]
pub(crate) fn generic_param_check(text: &str) -> (r: Option<String>)
    ensures
        opt_text(r) == generic_param_error(text@),
{
    match syn::parse_str::<syn::GenericParam>(text) {
        Ok(_) => None,
        Err(error) => Some(error.to_string()),
    }
}

/// `syn::parse_str::<syn::WherePredicate>`: `None` when it accepts
/// `text`, else its error's message.
#[verifier::external_body]
pub(crate) fn where_predicate_check(text: &str) -> (r: Option<String>)
    ensures
        opt_text(r) == where_predicate_error(text@),
{
    match syn::parse_str::<syn::WherePredicate>(text) {
        Ok(_) => None,
        Err(error) => Some(error.to_string()),
    }
}

/// `syn::parse_str::<syn::TypeParamBound>`: `None` when it accepts `text`,
/// else its error's message.
#[verifier::external_body]
pub(crate) fn bound_check(text: &str) -> (r: Option<String>)
    ensures
        opt_text(r) == bound_error(text@),
{
    match syn::parse_str::<syn::TypeParamBound>(text) {
        Ok(_) => None,
        Err(error) => Some(error.to_string()),
    }
}

/// `syn::parse_str::<syn::ItemTrait>`: `None` when it accepts `text`, else
/// its error's message.
#[verifier::external_body]
pub(crate) fn trait_check(text: &str) -> (r: Option<String>)
    ensures
        opt_text(r) == trait_error(text@),
{
    match syn::parse_str::<syn::ItemTrait>(text) {
        Ok(_) => None,
        Err(error) => Some(error.to_string()),
    }
}

/// Reads a `proc_macro2` token stream as this crate's token trees: an
/// identifier, a literal and a punctuation character (joint or alone) as
/// it is, a group with its delimiter and its contents.
#[verifier::external_body]
pub(crate) fn stream_tokens(stream: proc_macro2::TokenStream) -> (r: Vec<Tok>)
    ensures
        r@ == stream_trees(stream),
{
    stream.into_iter().map(|tree| match tree {
        TokenTree::Ident(ident) => Tok::Ident(ident.to_string()),
        TokenTree::Punct(punct) => Tok::Punct(punct.as_char(), matches!(punct.spacing(), Spacing::Joint)),
        TokenTree::Literal(literal) => Tok::Lit(literal.to_string()),
        TokenTree::Group(group) => Tok::Group(match group.delimiter() {
            Delimiter::Parenthesis => Delim::Paren,
            Delimiter::Brace => Delim::Brace,
            Delimiter::Bracket => Delim::Bracket,
            Delimiter::None => Delim::Invisible,
        }, stream_tokens(group.stream())),
    }).collect()
}

/// `syn::parse_str::<syn::Generics>` followed by `Generics::split_for_impl`:
/// the impl generics and the type generics as token streams.
#[verifier::external_body]
pub(crate) fn split_generics(text: &str) -> (r: Option<(proc_macro2::TokenStream, proc_macro2::TokenStream)>)
    ensures
        match r {
            Some((i, t)) => generics_split(text@) == Some((stream_trees(i), stream_trees(t))),
            None => generics_split(text@) is None,
        },
{
    let generics = syn::parse_str::<syn::Generics>(text).ok()?;
    let (impl_generics, type_generics, _) = generics.split_for_impl();
    Some((impl_generics.to_token_stream(), type_generics.to_token_stream()))
}

/// `syn::parse_str::<syn::DeriveInput>` followed by
/// `Generics::split_for_impl`: the identifier, and the impl generics, the
/// type generics and the where clause as token streams; or the error's
/// message.
#[verifier::external_body]
pub(crate) fn split_derive_input(text: &str) -> (r: Result<
    (String, proc_macro2::TokenStream, proc_macro2::TokenStream, proc_macro2::TokenStream),
    String,
>)
    ensures
        match r {
            Ok((n, i, t, w)) => derive_split(text@) == Ok::<_, Seq<char>>(
                (n@, stream_trees(i), stream_trees(t), stream_trees(w)),
            ),
            Err(m) => derive_split(text@) == Err::<(Seq<char>, Seq<Tok>, Seq<Tok>, Seq<Tok>), _>(m@),
        },
{
    let input = match syn::parse_str::<syn::DeriveInput>(text) {
        Ok(input) => input,
        Err(error) => return Err(error.to_string()),
    };
    let (impl_generics, type_generics, where_clause) = input.generics.split_for_impl();
    Ok((
        input.ident.to_string(),
        impl_generics.to_token_stream(),
        type_generics.to_token_stream(),
        where_clause.to_token_stream(),
    ))
}

/// How the crate being compiled names `poprako-orchestra`, as
/// `proc_macro_crate::crate_name` answers (the lookup reads the
/// environment and the manifests on disk, so the caller makes it).
pub enum CrateLookup {
    /// The searched crate is the crate being compiled.
    Itself,
    /// The searched crate is a dependency known under this name.
    Name(String),
    /// The lookup failed, with this message.
    Failed(String),
}

pub enum CrateLookupV {
    Itself,
    Name(Seq<char>),
    Failed(Seq<char>),
}

impl View for CrateLookup {
    type V = CrateLookupV;

    open spec fn view(&self) -> CrateLookupV {
        match self {
            CrateLookup::Itself => CrateLookupV::Itself,
            CrateLookup::Name(n) => CrateLookupV::Name(n@),
            CrateLookup::Failed(m) => CrateLookupV::Failed(m@),
        }
    }
}

} // verus!
