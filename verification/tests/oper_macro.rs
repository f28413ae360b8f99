use poprako_orchestra::derive_oper;
use poprako_orchestra::error::{MacroError, Site};
use poprako_orchestra::token::{Delim, Tok};
use proc_macro2::{Delimiter, Spacing, TokenStream, TokenTree};

fn convert(stream: TokenStream) -> Vec<Tok> {
    stream
        .into_iter()
        .map(|tree| match tree {
            TokenTree::Ident(ident) => Tok::Ident(ident.to_string()),
            TokenTree::Punct(punct) => Tok::Punct(punct.as_char(), punct.spacing() == Spacing::Joint),
            TokenTree::Literal(literal) => Tok::Lit(literal.to_string()),
            TokenTree::Group(group) => {
                let delim = match group.delimiter() {
                    Delimiter::Parenthesis => Delim::Paren,
                    Delimiter::Brace => Delim::Brace,
                    Delimiter::Bracket => Delim::Bracket,
                    Delimiter::None => Delim::Invisible,
                };
                Tok::Group(delim, convert(group.stream()))
            }
        })
        .collect()
}

fn toks(source: &str) -> Vec<Tok> {
    convert(source.parse::<TokenStream>().unwrap())
}

// The token trees of `source`, each followed by one space, whatever the
// spacing of its punctuation.
fn shape_of(stream: TokenStream, out: &mut String) {
    for tree in stream {
        match tree {
            TokenTree::Group(group) => {
                let (open, close) = match group.delimiter() {
                    Delimiter::Parenthesis => ("(", ")"),
                    Delimiter::Brace => ("{", "}"),
                    Delimiter::Bracket => ("[", "]"),
                    Delimiter::None => ("", ""),
                };
                out.push_str(open);
                out.push(' ');
                shape_of(group.stream(), out);
                out.push_str(close);
            }
            other => out.push_str(&other.to_string()),
        }
        out.push(' ');
    }
}

fn normalized(source: &str) -> String {
    let mut out = String::new();
    shape_of(source.parse::<TokenStream>().unwrap(), &mut out);
    out
}

fn expect_error(input: &str, message: &str) -> MacroError {
    match derive_oper(&toks(input)) {
        Ok(text) => panic!("expected an error, got {text}"),
        Err(error) => {
            assert_eq!(error.message, message);
            error
        }
    }
}

#[test]
fn derives_for_a_plain_struct() {
    let text = derive_oper(&toks("#[oper(output = ())] pub struct CreateUser { pub name: String }")).unwrap();
    assert_eq!(normalized(&text), normalized("impl Oper for CreateUser { type Output = (); }"));
}

#[test]
fn derives_for_a_generic_struct() {
    let text = derive_oper(&toks(
        "#[derive(Debug)] #[oper(output = Vec<T>)] struct Find<'a, T: Clone, const N: usize> where T: Send { value: &'a T }",
    ))
    .unwrap();
    assert_eq!(
        normalized(&text),
        normalized("impl<'a, T: Clone, const N: usize> Oper for Find<'a, T, N> where T: Send { type Output = Vec<T>; }")
    );
}

#[test]
fn derives_for_an_enum() {
    let text = derive_oper(&toks("#[oper(output = usize,)] enum Pick { A, B }")).unwrap();
    assert_eq!(normalized(&text), normalized("impl Oper for Pick { type Output = usize; }"));
}

#[test]
fn output_may_come_from_a_later_attribute() {
    let text = derive_oper(&toks("#[oper()] #[oper(output = u8)] struct S;")).unwrap();
    assert_eq!(normalized(&text), normalized("impl Oper for S { type Output = u8; }"));
}

#[test]
fn requires_output() {
    let error = expect_error("struct S;", "missing `output` in `#[oper(output = Type)]`");
    assert!(matches!(error.site, Site::CallSite));
}

#[test]
fn rejects_a_duplicate_output() {
    expect_error("#[oper(output = u8, output = u16)] struct S;", "duplicate `output` attribute");
}

#[test]
fn rejects_a_duplicate_output_across_attributes() {
    expect_error("#[oper(output = u8)] #[oper(output = u8)] struct S;", "duplicate `output` attribute");
}

#[test]
fn rejects_an_unknown_key() {
    expect_error("#[oper(output = (), level = Transactional)] struct S;", "unsupported oper attribute; expected `output`");
}

#[test]
fn rejects_a_bare_attribute() {
    expect_error("#[oper] struct S;", "expected attribute arguments in parentheses: #[oper(...)]");
}

#[test]
fn rejects_a_name_value_attribute() {
    expect_error("#[oper = 1] struct S;", "expected parentheses: #[oper(...)]");
}

#[test]
fn rejects_a_missing_value() {
    expect_error("#[oper(output)] struct S;", "expected `=`");
}

#[test]
fn rejects_a_literal_key() {
    expect_error("#[oper(\"output\" = u8)] struct S;", "unexpected literal in nested attribute, expected ident");
}

#[test]
fn rejects_what_is_not_a_type_definition() {
    expect_error("fn f() {}", "expected one of: `struct`, `enum`, `union`");
}

#[test]
fn other_attributes_are_ignored() {
    let text = derive_oper(&toks("#[oper::other] #[other(output = x)] #[oper(output = bool)] struct S;")).unwrap();
    assert_eq!(normalized(&text), normalized("impl Oper for S { type Output = bool; }"));
}
