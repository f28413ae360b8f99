use poprako_orchestra::error::{MacroError, Site};
use poprako_orchestra::proxy_macro::proxy;
use poprako_orchestra::syntax::CrateLookup;
use poprako_orchestra::token::{Delim, Tok};
use proc_macro2::{Delimiter, Spacing, TokenStream, TokenTree};

fn convert(stream: TokenStream) -> Vec<Tok> {
    stream
        .into_iter()
        .map(|tree| match tree {
            TokenTree::Ident(ident) => Tok::Ident(ident.to_string()),
            TokenTree::Punct(punct) => Tok::Punct(punct.as_char(), punct.spacing() == Spacing::Joint),
            TokenTree::Literal(literal) => Tok::Lit(literal.to_string()),
            TokenTree::Group(group) => {
                let delim = match group.delimiter() {
                    Delimiter::Parenthesis => Delim::Paren,
                    Delimiter::Brace => Delim::Brace,
                    Delimiter::Bracket => Delim::Bracket,
                    Delimiter::None => Delim::Invisible,
                };
                Tok::Group(delim, convert(group.stream()))
            }
        })
        .collect()
}

fn toks(source: &str) -> Vec<Tok> {
    convert(source.parse::<TokenStream>().unwrap())
}

// The token trees of `source`, each followed by one space, whatever the
// spacing of its punctuation.
fn shape_of(stream: TokenStream, out: &mut String) {
    for tree in stream {
        match tree {
            TokenTree::Group(group) => {
                let (open, close) = match group.delimiter() {
                    Delimiter::Parenthesis => ("(", ")"),
                    Delimiter::Brace => ("{", "}"),
                    Delimiter::Bracket => ("[", "]"),
                    Delimiter::None => ("", ""),
                };
                out.push_str(open);
                out.push(' ');
                shape_of(group.stream(), out);
                out.push_str(close);
            }
            other => out.push_str(&other.to_string()),
        }
        out.push(' ');
    }
}

fn normalized(source: &str) -> String {
    let mut out = String::new();
    shape_of(source.parse::<TokenStream>().unwrap(), &mut out);
    out
}

fn expand(source: &str) -> Result<String, MacroError> {
    proxy(&toks(source), CrateLookup::Itself)
}

fn expect_error(source: &str, message: &str) -> MacroError {
    match expand(source) {
        Ok(text) => panic!("expected an error, got {text}"),
        Err(error) => {
            assert_eq!(error.message, message);
            error
        }
    }
}

fn site_path(error: &MacroError) -> Vec<usize> {
    match &error.site {
        Site::Input(path) => path.clone(),
        Site::Item(path) => path.clone(),
        Site::CallSite => Vec::new(),
    }
}

#[test]
fn run_proxy_expansion_is_exact() {
    let text = expand("run { repo => PlainOper; }").unwrap();
    let expected = "{ #[allow(non_camel_case_types)] struct ProxyImpl<'proxy, repo> { repo: &'proxy repo, } \
        #[allow(non_camel_case_types)] impl<'proxy, repo> crate::Proxy<PlainOper> for ProxyImpl<'proxy, repo> \
        where repo: crate::Run<PlainOper>, { type Error = <repo as crate::Run<PlainOper> >::Error; \
        type Fut<'proxy_exec> = <repo as crate::Run<PlainOper> >::Fut<'proxy_exec> where Self: 'proxy_exec, PlainOper: 'proxy_exec; \
        fn exec<'proxy_exec>(&'proxy_exec mut self, oper: &'proxy_exec PlainOper) -> Self::Fut<'proxy_exec> \
        { <repo as crate::Run<PlainOper> >::run(self.repo, oper) } } ProxyImpl { repo, } }";
    assert_eq!(normalized(&text), normalized(expected));
}

#[test]
fn step_proxy_expansion_is_exact() {
    let text = proxy(
        &toks("step(cx) { repo => for<const N: usize> Write<N>; }"),
        CrateLookup::Name("orchestra".to_string()),
    )
    .unwrap();
    let expected = "{ #[allow(non_camel_case_types)] struct ProxyImpl<'proxy, repo, ProxyContext> \
        { repo: &'proxy repo, context: &'proxy mut ProxyContext, } \
        #[allow(non_camel_case_types)] impl<'proxy, const N: usize, repo, ProxyContext> ::orchestra::Proxy<Write<N> > \
        for ProxyImpl<'proxy, repo, ProxyContext> where ProxyContext: ::orchestra::Context, \
        repo: ::orchestra::Step<Write<N>, ProxyContext>, \
        repo: ::orchestra::LevelGuard< <ProxyContext as ::orchestra::Context>::Level, <repo as ::orchestra::Step<Write<N>, ProxyContext> >::Level>, \
        { type Error = <repo as ::orchestra::Step<Write<N>, ProxyContext> >::Error; \
        type Fut<'proxy_exec> = <repo as ::orchestra::Step<Write<N>, ProxyContext> >::Fut<'proxy_exec> where Self: 'proxy_exec, Write<N>: 'proxy_exec; \
        fn exec<'proxy_exec>(&'proxy_exec mut self, oper: &'proxy_exec Write<N>) -> Self::Fut<'proxy_exec> \
        { <repo as ::orchestra::Step<Write<N>, ProxyContext> >::step(self.repo, &mut *self.context, oper) } } \
        ProxyImpl { context: &mut *cx, repo, } }";
    assert_eq!(normalized(&text), normalized(expected));
}

#[test]
fn one_impl_per_operation_and_one_field_per_provider() {
    let text = expand(
        "run { repo => for<'a> FindMemberInfo<'a>, for<'a> UpdateMember<'a>, ; prom => Record; }",
    )
    .unwrap();
    assert_eq!(text.matches("impl<").count(), 3);
    assert!(text.contains("struct ProxyImpl<'proxy, repo, prom>"));
    assert!(text.contains("impl<'proxy, 'a , repo, prom>"));
    assert!(text.contains("ProxyImpl { repo, prom, }"));
}

#[test]
fn generic_arguments_with_commas_stay_in_one_type() {
    let text = expand("run { repo => for<T: Send, const N: usize> FindUser<T, N>; }").unwrap();
    assert_eq!(text.matches("impl<").count(), 1);
    let text = normalized(&text);
    let wanted = normalized("crate::Proxy<FindUser<T, N> >");
    assert!(text.contains(&wanted), "{text} lacks {wanted}");
}

#[test]
fn a_failed_lookup_is_reported() {
    let error = proxy(
        &toks("run { repo => PlainOper; }"),
        CrateLookup::Failed("no manifest".to_string()),
    )
    .unwrap_err();
    assert_eq!(error.message, "no manifest");
    assert!(matches!(error.site, Site::CallSite));
}

#[test]
fn rejects_an_unknown_mode() {
    expect_error("walk { repo => PlainOper; }", "expected `run` or `step`");
}

#[test]
fn rejects_a_keyword_as_mode() {
    let error = expect_error("for { repo => PlainOper; }", "expected identifier, found keyword `for`");
    assert_eq!(site_path(&error), vec![0]);
}

#[test]
fn step_needs_a_context() {
    expect_error("step { repo => PlainOper; }", "expected parentheses");
}

#[test]
fn tokens_after_the_context_are_reported_after_the_rows() {
    expect_error("step(cx extra) { }", "`proxy!` requires at least one provider");
    let error = expect_error("step(cx extra) { repo => A; }", "unexpected token");
    assert_eq!(site_path(&error), vec![1, 1]);
}

#[test]
fn step_context_must_be_an_expression() {
    expect_error("step(=) { repo => PlainOper; }", "expected an expression");
}

#[test]
fn rows_must_be_braced() {
    expect_error("run ( repo => PlainOper; )", "expected curly braces");
}

#[test]
fn requires_a_provider() {
    let error = expect_error("run { }", "`proxy!` requires at least one provider");
    assert!(matches!(error.site, Site::CallSite));
}

#[test]
fn rejects_a_duplicate_provider() {
    let error = expect_error("run { repo => A; repo => B; }", "duplicate provider");
    assert_eq!(site_path(&error), vec![1, 5]);
}

#[test]
fn rejects_a_duplicate_operation_across_rows() {
    let error = expect_error("run { repo => A; other => A; }", "duplicate operation");
    assert_eq!(site_path(&error), vec![1, 8]);
}

#[test]
fn rejects_a_duplicate_operation_in_a_row() {
    expect_error("run { repo => for<'a> A<'a>, for<'a> A<'a>; }", "duplicate operation");
}

#[test]
fn whitespace_does_not_tell_operations_apart() {
    expect_error("run { a => Vec<u8>; b => Vec<u8> ; }", "duplicate operation");
    expect_error("run { a => Vec<Vec<u8>>; b => Vec<Vec<u8> >; }", "duplicate operation");
}

#[test]
fn the_same_type_under_another_binder_is_another_operation() {
    assert!(expand("run { repo => for<'a> A<'a>, for<'b> A<'b>; }").is_ok());
}

#[test]
fn rejects_a_missing_arrow() {
    let error = expect_error("run { repo A; }", "expected `=>`");
    assert_eq!(site_path(&error), vec![1, 1]);
}

#[test]
fn rejects_a_missing_semicolon() {
    let error = expect_error("run { repo => A }", "expected `;`");
    assert_eq!(site_path(&error), vec![1, 4]);
}

#[test]
fn rejects_a_type_not_followed_by_a_separator() {
    let error = expect_error("run { repo => A B; }", "expected `;`");
    assert_eq!(site_path(&error), vec![1, 4]);
}

#[test]
fn rejects_a_missing_type() {
    expect_error(
        "run { repo => ; }",
        "expected one of: `for`, parentheses, `fn`, `unsafe`, `extern`, identifier, `::`, `<`, `dyn`, \
         square brackets, `*`, `&`, `!`, `impl`, `_`, lifetime",
    );
}

#[test]
fn rejects_an_empty_binder() {
    let error = expect_error("run { repo => for<> A; }", "expected one of: identifier, lifetime, `const`");
    assert_eq!(site_path(&error), vec![1, 5]);
}

#[test]
fn rejects_a_binder_with_a_trailing_comma() {
    let error = expect_error("run { repo => for<'a,> A<'a>; }", "expected one of: identifier, lifetime, `const`");
    assert_eq!(site_path(&error), vec![1, 8]);
}

#[test]
fn rejects_tokens_after_the_rows() {
    let error = expect_error("run { repo => A; } extra", "unexpected token");
    assert_eq!(site_path(&error), vec![2]);
}

#[test]
fn a_trailing_comma_ends_a_row() {
    assert!(expand("run { repo => A, B, ; }").is_ok());
}
