use poprako_orchestra::drive_macro::drive;
use poprako_orchestra::error::{MacroError, Site};
use poprako_orchestra::syntax::CrateLookup;
use poprako_orchestra::token::{Delim, Tok};
use proc_macro2::{Delimiter, Spacing, TokenStream, TokenTree};

fn convert(stream: TokenStream) -> Vec<Tok> {
    stream
        .into_iter()
        .map(|tree| match tree {
            TokenTree::Ident(ident) => Tok::Ident(ident.to_string()),
            TokenTree::Punct(punct) => Tok::Punct(punct.as_char(), punct.spacing() == Spacing::Joint),
            TokenTree::Literal(literal) => Tok::Lit(literal.to_string()),
            TokenTree::Group(group) => {
                let delim = match group.delimiter() {
                    Delimiter::Parenthesis => Delim::Paren,
                    Delimiter::Brace => Delim::Brace,
                    Delimiter::Bracket => Delim::Bracket,
                    Delimiter::None => Delim::Invisible,
                };
                Tok::Group(delim, convert(group.stream()))
            }
        })
        .collect()
}

fn toks(source: &str) -> Vec<Tok> {
    convert(source.parse::<TokenStream>().unwrap())
}

// The token trees of `source`, each followed by one space, whatever the
// spacing of its punctuation.
fn shape_of(stream: TokenStream, out: &mut String) {
    for tree in stream {
        match tree {
            TokenTree::Group(group) => {
                let (open, close) = match group.delimiter() {
                    Delimiter::Parenthesis => ("(", ")"),
                    Delimiter::Brace => ("{", "}"),
                    Delimiter::Bracket => ("[", "]"),
                    Delimiter::None => ("", ""),
                };
                out.push_str(open);
                out.push(' ');
                shape_of(group.stream(), out);
                out.push_str(close);
            }
            other => out.push_str(&other.to_string()),
        }
        out.push(' ');
    }
}

fn normalized(source: &str) -> String {
    let mut out = String::new();
    shape_of(source.parse::<TokenStream>().unwrap(), &mut out);
    out
}

fn expand(args: &str, item: &str) -> Result<String, MacroError> {
    drive(&toks(args), &toks(item), CrateLookup::Itself)
}

fn expect_error(args: &str, item: &str, message: &str) -> MacroError {
    match expand(args, item) {
        Ok(text) => panic!("expected an error, got {text}"),
        Err(error) => {
            assert_eq!(error.message, message);
            error
        }
    }
}

#[test]
fn drive_propagates_per_step_levels() {
    let text = expand("context = C, error = (), step(CreateUser, DeleteUser)", "trait UserRepo<C> {}").unwrap();
    let step = |oper: &str| format!("crate::Step<{oper}, C, Error = ()>");
    let level = |oper: &str, who: &str| {
        format!("crate::LevelGuard< <C as crate::Context>::Level, <{who} as crate::Step<{oper}, C> >::Level>")
    };
    let trait_bounds = format!(
        "{} + {} + {} + {}",
        step("CreateUser"),
        level("CreateUser", "Self"),
        step("DeleteUser"),
        level("DeleteUser", "Self")
    );
    let impl_bounds = format!(
        "{} + {} + {} + {}",
        step("CreateUser"),
        level("CreateUser", "__DriveImpl"),
        step("DeleteUser"),
        level("DeleteUser", "__DriveImpl")
    );
    let expected = format!(
        "trait UserRepo<C>: {trait_bounds} where C: crate::Context {{}} \
         impl<__DriveImpl, C> UserRepo<C> for __DriveImpl where C: crate::Context, \
         __DriveImpl: {impl_bounds} + {trait_bounds} {{}}"
    );
    assert_eq!(normalized(&text), normalized(&expected));
}

#[test]
fn run_bounds_keep_binders_and_existing_supertraits() {
    let text = expand(
        "error = BaseError, run(for<'a> FindMemberInfo<'a>)",
        "pub trait Repo: Send + where Self: Sync {}",
    )
    .unwrap();
    let run = "for<'a> crate::Run<FindMemberInfo<'a>, Error = BaseError>";
    let expected = format!(
        "pub trait Repo: Send + {run} where Self: Sync {{}} \
         impl<__DriveImpl> Repo for __DriveImpl where Self: Sync, __DriveImpl: {run} + Send + {run} {{}}"
    );
    assert_eq!(normalized(&text), normalized(&expected));
}

#[test]
fn lifetimes_come_first_in_the_impl_generics() {
    let text = expand("error = (), run(Read)", "trait Repo<'a, T> {}").unwrap();
    assert!(normalized(&text).contains(&normalized("impl<'a, __DriveImpl, T> Repo<'a, T> for __DriveImpl")));
}

#[test]
fn a_dependency_is_named_by_its_path() {
    let text = drive(
        &toks("error = (), run(Read)"),
        &toks("trait Repo {}"),
        CrateLookup::Name("poprako_orchestra".to_string()),
    )
    .unwrap();
    assert!(normalized(&text).contains(&normalized("::poprako_orchestra::Run<Read, Error = ()>")));
}

#[test]
fn requires_an_error_type() {
    let error = expect_error("run(Read)", "trait Repo {}", "missing `error = Type` argument");
    assert!(matches!(error.site, Site::CallSite));
}

#[test]
fn rejects_a_proxy_argument() {
    expect_error("error = (), proxy = ReadProxy, run(Read)", "trait Repo {}", "unsupported `drive` argument");
}

#[test]
fn rejects_a_duplicate_context() {
    expect_error("context = C, context = C, error = ()", "trait Repo {}", "duplicate `context` argument");
}

#[test]
fn rejects_a_duplicate_error() {
    expect_error("error = (), error = ()", "trait Repo {}", "duplicate `error` argument");
}

#[test]
fn rejects_a_missing_equals() {
    expect_error("error ()", "trait Repo {}", "expected `=`");
}

#[test]
fn rejects_a_missing_comma() {
    let error = expect_error("error = () run(Read)", "trait Repo {}", "expected `,`");
    assert!(matches!(&error.site, Site::Input(path) if path == &vec![3]));
}

#[test]
fn rejects_a_list_without_parentheses() {
    expect_error("error = (), run Read", "trait Repo {}", "expected parentheses");
}

#[test]
fn requires_an_operation() {
    let error = expect_error("error = ()", "trait Repo {}", "`#[drive]` requires at least one operation");
    assert!(matches!(error.site, Site::Item(ref path) if path == &vec![1]));
}

#[test]
fn steps_require_a_context() {
    expect_error("error = (), step(Write)", "trait Repo {}", "`context = ...` is required for `step(...)`");
}

#[test]
fn only_empty_traits() {
    expect_error("error = (), run(Read)", "trait Repo { fn f(); }", "`#[drive]` only supports empty aggregate traits");
}

#[test]
fn inner_attributes_are_not_items() {
    assert!(expand("error = (), run(Read)", "trait Repo { #![allow(dead_code)] }").is_ok());
}

#[test]
fn only_traits() {
    expect_error("error = (), run(Read)", "struct Repo;", "expected `trait`");
}

#[test]
fn a_trailing_comma_is_allowed() {
    assert!(expand("error = (), run(Read, Write,),", "trait Repo {}").is_ok());
}

#[test]
fn a_binder_error_is_syns() {
    let error = expect_error("error = (), run(for<'a A)", "trait Repo {}", "expected `,`");
    assert!(matches!(&error.site, Site::Input(path) if path == &vec![5, 0]));
}
