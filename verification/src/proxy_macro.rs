//! `proxy!`: builds one stack-local proxy value that dispatches each listed
//! operation to the provider that declares it.
//!
//! ```text
//! proxy! {
//!     run {
//!         repo => for<'a> FindMemberInfo<'a>, for<'a> UpdateMember<'a>;
//!     }
//! }
//! proxy! {
//!     step(context) {
//!         repo => for<'a> FindMemberInfo<'a>;
//!         prom => for<'a> RecordPromotion<'a>;
//!     }
//! }
//! ```
use vstd::prelude::*;
use crate::error::{MacroError, ErrorV, SiteV, err_v, result_view, call_site_error, input_error1, input_error2};
use crate::grammar::{type_end, binder_close, ident_ok, find_type_end, find_binder_close, check_ident, lemma_first_from, first_from, type_ends_at, binder_closes_at, type_failure, type_failure_exec, binder_failure, binder_failure_exec, ident_message, ident_message_exec, longest_expr, expr_then_more, check_expr};
use crate::syntax::expr_error;
use crate::token::{texts, spaced_range, holds_text, lemma_contains_concat, lemma_contains_self, lemma_contains_trans, Tok, Delim, render_range, render_seq, render_text, is_group, group_content, at_ident_text, at_punct, is_punct2, ident_text, vec_at_ident_text, vec_at_punct, vec_is_punct2, tok_is_group};

verus! {

/// One operation of a provider row: the generic parameters of its
/// `for<...>` binder, if any, and its type, each as a range of token
/// indices into the body of the proxy.
#[derive(Clone, Copy)]
pub struct OperSpec {
    pub binder: Option<(usize, usize)>,
    pub oper: (usize, usize),
}

/// One provider row: `provider => oper, oper, ...;`. `provider` is the
/// index of the provider's identifier in the body.
pub struct Declaration {
    pub provider: usize,
    pub operations: Vec<OperSpec>,
}

pub struct DeclarationV {
    pub provider: usize,
    pub operations: Seq<OperSpec>,
}

impl View for Declaration {
    type V = DeclarationV;

    open spec fn view(&self) -> DeclarationV {
        DeclarationV { provider: self.provider, operations: self.operations@ }
    }
}

/// Whether the proxy dispatches through `Run` or through `Step`.
#[derive(Clone, Copy, PartialEq, Eq, Structural)]
pub enum Mode {
    Run,
    Step,
}

/// A parsed `proxy!` input. `context` is the index of the parenthesized
/// context expression of a step proxy, `body` the index of the braced
/// provider rows.
pub struct ProxyInput {
    pub mode: Mode,
    pub context: Option<usize>,
    pub body: usize,
    pub declarations: Vec<Declaration>,
}

pub struct ProxyInputV {
    pub mode: Mode,
    pub context: Option<usize>,
    pub body: usize,
    pub declarations: Seq<DeclarationV>,
}

impl View for ProxyInput {
    type V = ProxyInputV;

    open spec fn view(&self) -> ProxyInputV {
        ProxyInputV {
            mode: self.mode,
            context: self.context,
            body: self.body,
            declarations: self.declarations@.map_values(|d: Declaration| d@),
        }
    }
}

/// The ranges of an operation lie inside a body of `n` tokens.
pub open spec fn oper_wf(n: int, op: OperSpec) -> bool {
    &&& (op.binder matches Some((a, z)) ==> a <= z <= n)
    &&& op.oper.0 <= op.oper.1 <= n
}

/// A row of a body `c`: its provider is an identifier and its operations
/// lie inside the body.
pub open spec fn decl_wf(c: Seq<Tok>, d: DeclarationV) -> bool {
    &&& d.provider < c.len()
    &&& c[d.provider as int] is Ident
    &&& forall|j: int| 0 <= j < d.operations.len() ==> oper_wf(c.len() as int, #[trigger] d.operations[j])
}

pub open spec fn decls_wf(c: Seq<Tok>, ds: Seq<DeclarationV>) -> bool {
    forall|k: int| 0 <= k < ds.len() ==> decl_wf(c, #[trigger] ds[k])
}

pub open spec fn body_err(b: usize, i: int, message: Seq<char>) -> ErrorV {
    err_v(SiteV::Input(seq![b, i as usize]), message)
}

/// One operation: an optional binder, then a type that ends at a `,` or
/// a `;`.
pub open spec fn parse_oper(c: Seq<Tok>, b: usize, i: int) -> Result<(OperSpec, int), ErrorV> {
    if at_ident_text(c, i, "for"@) {
        match binder_close(c, i, true) {
            None => Err(body_err(b, binder_failure(c, i, true).0, binder_failure(c, i, true).1)),
            Some(j) => match type_end(c, j + 1, true) {
                None => Err(body_err(b, type_failure(c, j + 1, ";"@).0, type_failure(c, j + 1, ";"@).1)),
                Some(e) => Ok(
                    (
                        OperSpec {
                            binder: Some(((i + 2) as usize, j as usize)),
                            oper: ((j + 1) as usize, e as usize),
                        },
                        e,
                    ),
                ),
            },
        }
    } else {
        match type_end(c, i, true) {
            None => Err(body_err(b, type_failure(c, i, ";"@).0, type_failure(c, i, ";"@).1)),
            Some(e) => Ok((OperSpec { binder: None, oper: (i as usize, e as usize) }, e)),
        }
    }
}

/// An operation parsed at `i` ends after `i` and within the body.
pub proof fn lemma_parse_oper_range(c: Seq<Tok>, b: usize, i: int)
    ensures
        parse_oper(c, b, i) matches Ok((_, m)) ==> i < m <= c.len(),
{
    lemma_first_from(i + 2, c.len() as int, binder_closes_at(c, i, true));
    match binder_close(c, i, true) {
        Some(j) => {
            lemma_first_from(j + 2, c.len() + 1 as int, type_ends_at(c, j + 1, true));
        },
        None => {},
    }
    lemma_first_from(i + 1, c.len() + 1 as int, type_ends_at(c, i, true));
}

/// The operations after the first one of a row: each after a `,`; a `,`
/// right before the row's `;` is a trailing comma.
pub open spec fn parse_more_opers(c: Seq<Tok>, b: usize, k: int) -> Result<
    (Seq<OperSpec>, int),
    ErrorV,
>
    decreases c.len() - k,
{
    if at_punct(c, k, ',') {
        if at_punct(c, k + 1, ';') {
            Ok((Seq::empty(), k + 1))
        } else {
            match parse_oper(c, b, k + 1) {
                Err(e) => Err(e),
                Ok((op, m)) => {
                    proof {
                        lemma_parse_oper_range(c, b, k + 1);
                    }
                    match parse_more_opers(c, b, m) {
                        Err(e) => Err(e),
                        Ok((ops, n)) => Ok((seq![op] + ops, n)),
                    }
                },
            }
        }
    } else {
        Ok((Seq::empty(), k))
    }
}

/// One row: `provider => oper, ...;`.
pub open spec fn parse_declaration(c: Seq<Tok>, b: usize, i: int) -> Result<
    (DeclarationV, int),
    ErrorV,
> {
    if !ident_ok(c, i) {
        Err(body_err(b, i, ident_message(c, i)))
    } else if !is_punct2(c, i + 1, '=', '>') {
        Err(body_err(b, i + 1, "expected `=>`"@))
    } else {
        match parse_oper(c, b, i + 3) {
            Err(e) => Err(e),
            Ok((op, k)) => match parse_more_opers(c, b, k) {
                Err(e) => Err(e),
                Ok((ops, m)) => if at_punct(c, m, ';') {
                    Ok(
                        (
                            DeclarationV { provider: i as usize, operations: seq![op] + ops },
                            m + 1,
                        ),
                    )
                } else {
                    Err(body_err(b, m, "expected `;`"@))
                },
            },
        }
    }
}

/// The operations after the first one end no earlier than they start.
pub proof fn lemma_parse_more_opers_range(c: Seq<Tok>, b: usize, k: int)
    ensures
        parse_more_opers(c, b, k) matches Ok((_, n)) ==> k <= n,
    decreases c.len() - k,
{
    if at_punct(c, k, ',') && !at_punct(c, k + 1, ';') {
        lemma_parse_oper_range(c, b, k + 1);
        match parse_oper(c, b, k + 1) {
            Ok((_, m)) => {
                lemma_parse_more_opers_range(c, b, m);
            },
            Err(_) => {},
        }
    }
}

/// A row parsed at `i` ends after `i` and within the body.
pub proof fn lemma_parse_declaration_range(c: Seq<Tok>, b: usize, i: int)
    ensures
        parse_declaration(c, b, i) matches Ok((_, j)) ==> i < j <= c.len(),
{
    lemma_parse_oper_range(c, b, i + 3);
    match parse_oper(c, b, i + 3) {
        Ok((_, k)) => {
            lemma_parse_more_opers_range(c, b, k);
        },
        Err(_) => {},
    }
}

/// All rows from index `i` of the body on.
pub open spec fn parse_declarations(c: Seq<Tok>, b: usize, i: int) -> Result<
    Seq<DeclarationV>,
    ErrorV,
>
    decreases c.len() - i,
{
    if i >= c.len() {
        Ok(Seq::empty())
    } else {
        match parse_declaration(c, b, i) {
            Err(e) => Err(e),
            Ok((d, j)) => {
                proof {
                    lemma_parse_declaration_range(c, b, i);
                }
                match parse_declarations(c, b, j) {
                    Err(e) => Err(e),
                    Ok(ds) => Ok(seq![d] + ds),
                }
            },
        }
    }
}

/// The text that identifies an operation: its binder's parameters, then
/// its type, spaced so that whitespace in the input does not matter.
pub open spec fn oper_key(c: Seq<Tok>, op: OperSpec) -> Seq<char> {
    (match op.binder {
        Some((a, z)) => spaced_range(c, a as int, z as int),
        None => Seq::empty(),
    }) + spaced_range(c, op.oper.0 as int, op.oper.1 as int)
}

pub open spec fn provider_name(c: Seq<Tok>, d: DeclarationV) -> Seq<char> {
    ident_text(c[d.provider as int])
}

/// The provider names of the first `k` rows.
pub open spec fn providers_upto(c: Seq<Tok>, ds: Seq<DeclarationV>, k: int) -> Seq<Seq<char>> {
    Seq::new(k as nat, |x: int| provider_name(c, ds[x]))
}

/// The keys of the first `j` operations of a row.
pub open spec fn row_keys(c: Seq<Tok>, d: DeclarationV, j: int) -> Seq<Seq<char>> {
    Seq::new(j as nat, |x: int| oper_key(c, d.operations[x]))
}

/// The keys of all operations of the first `k` rows, in order.
pub open spec fn keys_upto(c: Seq<Tok>, ds: Seq<DeclarationV>, k: int) -> Seq<Seq<char>>
    decreases k,
{
    if k <= 0 {
        Seq::empty()
    } else {
        keys_upto(c, ds, k - 1) + row_keys(c, ds[k - 1], ds[k - 1].operations.len() as int)
    }
}

/// Operation `j` of row `k` repeats an operation declared before it.
pub open spec fn repeats_oper(c: Seq<Tok>, ds: Seq<DeclarationV>, k: int) -> spec_fn(int) -> bool {
    |j: int|
        (keys_upto(c, ds, k) + row_keys(c, ds[k], j)).contains(oper_key(c, ds[k].operations[j]))
}

/// The rows from `k` on have distinct providers, each with at least one
/// operation, and no operation repeats one declared before it.
pub open spec fn validate_from(c: Seq<Tok>, b: usize, ds: Seq<DeclarationV>, k: int) -> Result<
    (),
    ErrorV,
>
    decreases ds.len() - k,
{
    if k < 0 || k >= ds.len() {
        Ok(())
    } else if providers_upto(c, ds, k).contains(provider_name(c, ds[k])) {
        Err(body_err(b, ds[k].provider as int, "duplicate provider"@))
    } else if ds[k].operations.len() == 0 {
        Err(body_err(b, ds[k].provider as int, "provider must declare an operation"@))
    } else {
        match first_from(0, ds[k].operations.len() as int, repeats_oper(c, ds, k)) {
            Some(j) => Err(body_err(b, ds[k].operations[j].oper.0 as int, "duplicate operation"@)),
            None => validate_from(c, b, ds, k + 1),
        }
    }
}

/// What `validate` accepts.
pub open spec fn validate_spec(c: Seq<Tok>, b: usize, ds: Seq<DeclarationV>) -> Result<(), ErrorV> {
    if ds.len() == 0 {
        Err(err_v(SiteV::CallSite, "`proxy!` requires at least one provider"@))
    } else {
        validate_from(c, b, ds, 0)
    }
}

/// The `proxy!` grammar: `run { rows }` or `step(context) { rows }`,
/// with the rows validated.
pub open spec fn parse_proxy_input(s: Seq<Tok>) -> Result<ProxyInputV, ErrorV> {
    if !ident_ok(s, 0) {
        Err(err_v(SiteV::Input(seq![0usize]), ident_message(s, 0)))
    } else if ident_text(s[0]) != "run"@ && ident_text(s[0]) != "step"@ {
        Err(err_v(SiteV::Input(seq![0usize]), "expected `run` or `step`"@))
    } else {
        let step = ident_text(s[0]) == "step"@;
        let b: int = if step {
            2
        } else {
            1
        };
        if step && !(1 < s.len() && is_group(s[1], Delim::Paren)) {
            Err(err_v(SiteV::Input(seq![1usize]), "expected parentheses"@))
        } else if step && expr_error(render_seq(group_content(s[1]))) is Some && !expr_then_more(
            group_content(s[1]),
        ) {
            Err(err_v(SiteV::Input(seq![1usize]), expr_error(render_seq(group_content(s[1])))->Some_0))
        } else if !(b < s.len() && is_group(s[b], Delim::Brace)) {
            Err(err_v(SiteV::Input(seq![b as usize]), "expected curly braces"@))
        } else {
            let c = group_content(s[b]);
            match parse_declarations(c, b as usize, 0) {
                Err(e) => Err(e),
                Ok(ds) => match validate_spec(c, b as usize, ds) {
                    Err(e) => Err(e),
                    Ok(_) => if step && expr_then_more(group_content(s[1])) {
                        Err(
                            err_v(
                                SiteV::Input(
                                    seq![
                                        1usize,
                                        longest_expr(
                                            group_content(s[1]),
                                            group_content(s[1]).len() as int,
                                        )->Some_0 as usize,
                                    ],
                                ),
                                "unexpected token"@,
                            ),
                        )
                    } else if b + 1 < s.len() {
                        Err(err_v(SiteV::Input(seq![(b + 1) as usize]), "unexpected token"@))
                    } else {
                        Ok(
                            ProxyInputV {
                                mode: if step {
                                    Mode::Step
                                } else {
                                    Mode::Run
                                },
                                context: if step {
                                    Some(1usize)
                                } else {
                                    None
                                },
                                body: b as usize,
                                declarations: ds,
                            },
                        )
                    },
                },
            }
        }
    }
}

pub open spec fn opt_end(r: Result<(OperSpec, usize), MacroError>) -> Result<(OperSpec, int), ErrorV> {
    match r {
        Ok((op, e)) => Ok((op, e as int)),
        Err(e) => Err(e@),
    }
}

fn parse_oper_exec(c: &Vec<Tok>, b: usize, i: usize) -> (r: Result<(OperSpec, usize), MacroError>)
    requires
        i <= c.len(),
    ensures
        opt_end(r) == parse_oper(c@, b, i as int),
        r matches Ok((op, e)) ==> i < e <= c.len() && oper_wf(c@.len() as int, op) && op.oper.1 == e,
{
    if vec_at_ident_text(c, i, "for") {
        proof {
            lemma_first_from(i + 2, c@.len() as int, binder_closes_at(c@, i as int, true));
        }
        match find_binder_close(c, i, true) {
            None => {
                let (at, m) = binder_failure_exec(c, i, true);
                Err(input_error2(b, at, m.as_str()))
            },
            Some(j) => {
                proof {
                    lemma_first_from(
                        j + 2,
                        c@.len() + 1 as int,
                        type_ends_at(c@, j + 1, true),
                    );
                }
                match find_type_end(c, j + 1, true) {
                    None => {
                        let (at, m) = type_failure_exec(c, j + 1, ";");
                        Err(input_error2(b, at, m.as_str()))
                    },
                    Some(e) => Ok((OperSpec { binder: Some((i + 2, j)), oper: (j + 1, e) }, e)),
                }
            },
        }
    } else {
        proof {
            lemma_first_from(i + 1, c@.len() + 1 as int, type_ends_at(c@, i as int, true));
        }
        match find_type_end(c, i, true) {
            None => {
                let (at, m) = type_failure_exec(c, i, ";");
                Err(input_error2(b, at, m.as_str()))
            },
            Some(e) => Ok((OperSpec { binder: None, oper: (i, e) }, e)),
        }
    }
}

pub open spec fn opers_view(r: Result<(Vec<OperSpec>, usize), MacroError>) -> Result<(Seq<OperSpec>, int), ErrorV> {
    match r {
        Ok((ops, n)) => Ok((ops@, n as int)),
        Err(e) => Err(e@),
    }
}

/// Parses the rest of a row's operations, pushing them onto `ops`.
fn parse_more_opers_exec(c: &Vec<Tok>, b: usize, k: usize) -> (r: Result<(Vec<OperSpec>, usize), MacroError>)
    requires
        k <= c.len(),
    ensures
        opers_view(r) == parse_more_opers(c@, b, k as int),
        r matches Ok((ops, n)) ==> k <= n <= c.len() && forall|j: int|
            0 <= j < ops@.len() ==> oper_wf(c@.len() as int, #[trigger] ops@[j]),
    decreases c.len() - k,
{
    if vec_at_punct(c, k, ',') {
        if vec_at_punct(c, k + 1, ';') {
            Ok((Vec::new(), k + 1))
        } else {
            match parse_oper_exec(c, b, k + 1) {
                Err(e) => Err(e),
                Ok((op, m)) => match parse_more_opers_exec(c, b, m) {
                    Err(e) => Err(e),
                    Ok((ops, n)) => {
                        let mut all = Vec::new();
                        all.push(op);
                        let mut rest = ops;
                        all.append(&mut rest);
                        assert(all@ =~= seq![op] + ops@);
                        Ok((all, n))
                    },
                },
            }
        }
    } else {
        Ok((Vec::new(), k))
    }
}

pub open spec fn decl_view(r: Result<(Declaration, usize), MacroError>) -> Result<(DeclarationV, int), ErrorV> {
    match r {
        Ok((d, j)) => Ok((d@, j as int)),
        Err(e) => Err(e@),
    }
}

fn parse_declaration_exec(c: &Vec<Tok>, b: usize, i: usize) -> (r: Result<(Declaration, usize), MacroError>)
    requires
        i < c.len(),
    ensures
        decl_view(r) == parse_declaration(c@, b, i as int),
        r matches Ok((d, j)) ==> i < j <= c.len() && decl_wf(c@, d@) && d.provider == i,
{
    if !check_ident(c, i) {
        return Err(input_error2(b, i, ident_message_exec(c, i).as_str()));
    }
    if !vec_is_punct2(c, i + 1, '=', '>') {
        return Err(input_error2(b, i + 1, "expected `=>`"));
    }
    match parse_oper_exec(c, b, i + 3) {
        Err(e) => Err(e),
        Ok((op, k)) => match parse_more_opers_exec(c, b, k) {
            Err(e) => Err(e),
            Ok((ops, m)) => {
                if vec_at_punct(c, m, ';') {
                    let mut all = Vec::new();
                    all.push(op);
                    let mut rest = ops;
                    all.append(&mut rest);
                    assert(all@ =~= seq![op] + ops@);
                    Ok((Declaration { provider: i, operations: all }, m + 1))
                } else {
                    Err(input_error2(b, m, "expected `;`"))
                }
            },
        },
    }
}

pub open spec fn decls_view(r: Result<Vec<Declaration>, MacroError>) -> Result<Seq<DeclarationV>, ErrorV> {
    match r {
        Ok(ds) => Ok(ds@.map_values(|d: Declaration| d@)),
        Err(e) => Err(e@),
    }
}

fn parse_declarations_exec(c: &Vec<Tok>, b: usize) -> (r: Result<Vec<Declaration>, MacroError>)
    ensures
        decls_view(r) == parse_declarations(c@, b, 0),
        r matches Ok(ds) ==> decls_wf(c@, ds@.map_values(|d: Declaration| d@)),
{
    let mut ds: Vec<Declaration> = Vec::new();
    let mut i: usize = 0;
    while i < c.len()
        invariant
            i <= c.len(),
            decls_wf(c@, ds@.map_values(|d: Declaration| d@)),
            parse_declarations(c@, b, 0) == match parse_declarations(c@, b, i as int) {
                Err(e) => Err(e),
                Ok(rest) => Ok(ds@.map_values(|d: Declaration| d@) + rest),
            },
        decreases c.len() - i,
    {
        match parse_declaration_exec(c, b, i) {
            Err(e) => {
                return Err(e);
            },
            Ok((d, j)) => {
                assert(d.provider == i);
                let ghost dv = d@;
                let ghost before = ds@.map_values(|d: Declaration| d@);
                ds.push(d);
                proof {
                    assert(ds@.map_values(|d: Declaration| d@) =~= before.push(dv));
                    match parse_declarations(c@, b, j as int) {
                        Ok(rest) => {
                            assert(before + (seq![dv] + rest) =~= before.push(dv) + rest);
                        },
                        Err(_) => {},
                    }
                }
                i = j;
            },
        }
    }
    assert(ds@.map_values(|d: Declaration| d@) + Seq::<DeclarationV>::empty() =~= ds@.map_values(
        |d: Declaration| d@,
    ));
    Ok(ds)
}


/// Whether `t` is among the texts of `v`.
pub fn contains_text(v: &Vec<String>, t: &String) -> (r: bool)
    ensures
        r == texts(v@).contains(t@),
{
    let mut i: usize = 0;
    while i < v.len()
        invariant
            i <= v.len(),
            forall|m: int| 0 <= m < i ==> v@[m]@ != t@,
        decreases v.len() - i,
    {
        if v[i] == *t {
            assert(texts(v@)[i as int] == t@);
            return true;
        }
        i = i + 1;
    }
    proof {
        if texts(v@).contains(t@) {
            let m = choose|m: int| 0 <= m < texts(v@).len() && texts(v@)[m] == t@;
            assert(v@[m]@ == t@);
        }
    }
    false
}

/// The key text of an operation of the body `c`.
pub fn oper_key_exec(c: &Vec<Tok>, op: &OperSpec) -> (r: String)
    requires
        oper_wf(c@.len() as int, *op),
    ensures
        r@ == oper_key(c@, *op),
{
    let mut out = String::new();
    match op.binder {
        Some((a, z)) => {
            crate::token::spaced_range_into(c, a, z, &mut out);
        },
        None => {},
    }
    crate::token::spaced_range_into(c, op.oper.0, op.oper.1, &mut out);
    assert(out@ =~= oper_key(c@, *op));
    out
}

/// Rejects bodies without rows, rows that repeat a provider or have no
/// operation, and operations declared twice.
pub fn validate(c: &Vec<Tok>, b: usize, ds: &Vec<Declaration>) -> (r: Result<(), MacroError>)
    requires
        decls_wf(c@, ds@.map_values(|d: Declaration| d@)),
    ensures
        result_view(r) == validate_spec(c@, b, ds@.map_values(|d: Declaration| d@)),
{
    let ghost dsv = ds@.map_values(|d: Declaration| d@);
    if ds.len() == 0 {
        return Err(call_site_error("`proxy!` requires at least one provider"));
    }
    let mut providers: Vec<String> = Vec::new();
    let mut keys: Vec<String> = Vec::new();
    let mut k: usize = 0;
    while k < ds.len()
        invariant
            k <= ds.len(),
            dsv == ds@.map_values(|d: Declaration| d@),
            decls_wf(c@, dsv),
            texts(providers@) =~= providers_upto(c@, dsv, k as int),
            texts(keys@) =~= keys_upto(c@, dsv, k as int),
            validate_spec(c@, b, dsv) == validate_from(c@, b, dsv, k as int),
        decreases ds.len() - k,
    {
        let d = &ds[k];
        assert(dsv[k as int] == d@);
        assert(decl_wf(c@, d@));
        let name = match &c[d.provider] {
            Tok::Ident(n) => n.clone(),
            _ => String::new(),
        };
        assert(name@ == provider_name(c@, dsv[k as int]));
        if contains_text(&providers, &name) {
            return Err(input_error2(b, d.provider, "duplicate provider"));
        }
        if d.operations.len() == 0 {
            return Err(input_error2(b, d.provider, "provider must declare an operation"));
        }
        let ghost repeats = repeats_oper(c@, dsv, k as int);
        let mut j: usize = 0;
        while j < d.operations.len()
            invariant
                j <= d.operations.len(),
                k < ds.len(),
                dsv == ds@.map_values(|d: Declaration| d@),
                repeats == repeats_oper(c@, dsv, k as int),
                validate_spec(c@, b, dsv) == validate_from(c@, b, dsv, k as int),
                !providers_upto(c@, dsv, k as int).contains(provider_name(c@, dsv[k as int])),
                dsv[k as int] == d@,
                decl_wf(c@, d@),
                texts(keys@) =~= keys_upto(c@, dsv, k as int) + row_keys(c@, d@, j as int),
                first_from(0, d@.operations.len() as int, repeats) == first_from(
                    j as int,
                    d@.operations.len() as int,
                    repeats,
                ),
            decreases d.operations.len() - j,
        {
            let op = &d.operations[j];
            assert(oper_wf(c@.len() as int, d@.operations[j as int]));
            let key = oper_key_exec(c, op);
            if contains_text(&keys, &key) {
                assert(repeats(j as int));
                assert(dsv[k as int].operations[j as int].oper.0 == op.oper.0);
                return Err(input_error2(b, op.oper.0, "duplicate operation"));
            }
            let ghost before = keys@;
            keys.push(key);
            assert(row_keys(c@, d@, j + 1) =~= row_keys(c@, d@, j as int).push(key@));
            assert(texts(keys@) =~= texts(before).push(key@));
            j = j + 1;
        }
        assert(keys_upto(c@, dsv, k + 1) == keys_upto(c@, dsv, k as int) + row_keys(
            c@,
            dsv[k as int],
            dsv[k as int].operations.len() as int,
        ));
        let ghost pbefore = providers@;
        providers.push(name);
        assert(providers_upto(c@, dsv, k + 1) =~= providers_upto(c@, dsv, k as int).push(name@));
        assert(texts(providers@) =~= texts(pbefore).push(name@));
        k = k + 1;
    }
    Ok(())
}

/// A parsed input fits the tokens it was parsed from.
pub open spec fn proxy_input_wf(s: Seq<Tok>, p: ProxyInputV) -> bool {
    &&& p.body < s.len()
    &&& s[p.body as int] is Group
    &&& decls_wf(group_content(s[p.body as int]), p.declarations)
    &&& (p.mode == Mode::Step) == (p.context is Some)
    &&& (p.context matches Some(x) ==> x < s.len() && s[x as int] is Group)
}

/// Parses a `proxy!` input.
pub fn parse_proxy(s: &Vec<Tok>) -> (r: Result<ProxyInput, MacroError>)
    ensures
        match r {
            Ok(p) => parse_proxy_input(s@) == Ok::<ProxyInputV, ErrorV>(p@) && proxy_input_wf(s@, p@),
            Err(e) => parse_proxy_input(s@) == Err::<ProxyInputV, ErrorV>(e@),
        },
{
    if !check_ident(s, 0) {
        return Err(input_error1(0, ident_message_exec(s, 0).as_str()));
    }
    let is_run = vec_at_ident_text(s, 0, "run");
    let is_step = vec_at_ident_text(s, 0, "step");
    if !is_run && !is_step {
        return Err(input_error1(0, "expected `run` or `step`"));
    }
    let b: usize = if is_step {
        2
    } else {
        1
    };
    let mut trailing: Option<usize> = None;
    if is_step {
        if !(1 < s.len() && tok_is_group(&s[1], Delim::Paren)) {
            return Err(input_error1(1, "expected parentheses"));
        }
        let inner = crate::token::group_at(s, 1);
        match check_expr(inner) {
            Some(Err(message)) => {
                return Err(input_error1(1, message.as_str()));
            },
            Some(Ok(k)) => {
                trailing = Some(k);
            },
            None => {},
        }
    }
    if !(b < s.len() && tok_is_group(&s[b], Delim::Brace)) {
        return Err(input_error1(b, "expected curly braces"));
    }
    match &s[b] {
        Tok::Group(_, c) => {
            match parse_declarations_exec(c, b) {
                Err(e) => Err(e),
                Ok(ds) => match validate(c, b, &ds) {
                    Err(e) => Err(e),
                    Ok(()) => {
                        if let Some(k) = trailing {
                            Err(input_error2(1, k, "unexpected token"))
                        } else if b + 1 < s.len() {
                            Err(input_error1(b + 1, "unexpected token"))
                        } else {
                            Ok(
                                ProxyInput {
                                    mode: if is_step {
                                        Mode::Step
                                    } else {
                                        Mode::Run
                                    },
                                    context: if is_step {
                                        Some(1)
                                    } else {
                                        None
                                    },
                                    body: b,
                                    declarations: ds,
                                },
                            )
                        }
                    },
                },
            }
        },
        _ => Err(input_error1(b, "expected curly braces")),
    }
}

/// The provider names, row by row.
pub open spec fn provider_names(c: Seq<Tok>, ds: Seq<DeclarationV>) -> Seq<Seq<char>> {
    Seq::new(ds.len(), |k: int| provider_name(c, ds[k]))
}

/// `, a, b, ...`: each name after a comma.
pub open spec fn comma_names(ns: Seq<Seq<char>>) -> Seq<char>
    decreases ns.len(),
{
    if ns.len() == 0 {
        Seq::empty()
    } else {
        comma_names(ns.drop_last()) + ", "@ + ns.last()
    }
}

/// The provider fields of the proxy struct: ` a: &'proxy a,` for each name.
pub open spec fn field_decls(ns: Seq<Seq<char>>) -> Seq<char>
    decreases ns.len(),
{
    if ns.len() == 0 {
        Seq::empty()
    } else {
        field_decls(ns.drop_last()) + " "@ + ns.last() + ": &'proxy "@ + ns.last() + ","@
    }
}

/// The provider fields of the proxy value: ` a,` for each name.
pub open spec fn field_values(ns: Seq<Seq<char>>) -> Seq<char>
    decreases ns.len(),
{
    if ns.len() == 0 {
        Seq::empty()
    } else {
        field_values(ns.drop_last()) + " "@ + ns.last() + ","@
    }
}

/// The generic parameters an operation's impl starts with: `'proxy`, then
/// the binder's parameters.
pub open spec fn impl_params(c: Seq<Tok>, op: OperSpec) -> Seq<char> {
    match op.binder {
        Some((a, z)) => "'proxy, "@ + render_range(c, a as int, z as int),
        None => "'proxy"@,
    }
}

pub open spec fn oper_text(c: Seq<Tok>, op: OperSpec) -> Seq<char> {
    render_range(c, op.oper.0 as int, op.oper.1 as int)
}

/// The executor trait that a provider implements for an operation.
pub open spec fn executor_trait(mode: Mode, orch: Seq<char>, oper: Seq<char>) -> Seq<char> {
    match mode {
        Mode::Run => orch + "::Run<"@ + oper + ">"@,
        Mode::Step => orch + "::Step<"@ + oper + ", ProxyContext>"@,
    }
}

/// `<provider as trait>`.
pub open spec fn qualified(prov: Seq<char>, tr: Seq<char>) -> Seq<char> {
    "<"@ + prov + " as "@ + tr + " >"@
}

pub open spec fn context_generic(mode: Mode) -> Seq<char> {
    match mode {
        Mode::Run => Seq::empty(),
        Mode::Step => ", ProxyContext"@,
    }
}

/// The where clause of an operation's impl: the provider implements the
/// executor trait; a step provider also meets the context's level.
pub open spec fn impl_bounds(mode: Mode, orch: Seq<char>, prov: Seq<char>, tr: Seq<char>) -> Seq<char> {
    match mode {
        Mode::Run => prov + ": "@ + tr + ","@,
        Mode::Step => "ProxyContext: "@ + orch + "::Context, "@ + prov + ": "@ + tr + ", "@ + prov
            + ": "@ + orch + "::LevelGuard< <ProxyContext as "@ + orch + "::Context>::Level, "@
            + qualified(prov, tr) + "::Level>,"@,
    }
}

/// The call that executes an operation on its provider.
pub open spec fn exec_call(mode: Mode, prov: Seq<char>) -> Seq<char> {
    match mode {
        Mode::Run => "::run(self."@ + prov + ", oper)"@,
        Mode::Step => "::step(self."@ + prov + ", &mut *self.context, oper)"@,
    }
}

/// The `Proxy` impl for one operation of the provider `prov`; `cn` is
/// `comma_names` of all providers.
pub open spec fn oper_impl(
    mode: Mode,
    orch: Seq<char>,
    cn: Seq<char>,
    prov: Seq<char>,
    params: Seq<char>,
    oper: Seq<char>,
) -> Seq<char> {
    let tr = executor_trait(mode, orch, oper);
    let q = qualified(prov, tr);
    "#[allow(non_camel_case_types)] impl<"@ + params + cn + context_generic(mode) + "> "@ + orch
        + "::Proxy<"@ + oper + "> for ProxyImpl<'proxy"@ + cn + context_generic(mode)
        + "> where "@ + impl_bounds(mode, orch, prov, tr) + " { type Error = "@ + q
        + "::Error; type Fut<'proxy_exec> = "@ + q
        + "::Fut<'proxy_exec> where Self: 'proxy_exec, "@ + oper
        + ": 'proxy_exec; fn exec<'proxy_exec>(&'proxy_exec mut self, oper: &'proxy_exec "@ + oper
        + ") -> Self::Fut<'proxy_exec> { "@ + q + exec_call(mode, prov) + " } } "@
}

/// The impls for the first `j` operations of row `d`.
pub open spec fn row_impls(
    mode: Mode,
    orch: Seq<char>,
    cn: Seq<char>,
    c: Seq<Tok>,
    d: DeclarationV,
    j: int,
) -> Seq<char>
    decreases j,
{
    if j <= 0 {
        Seq::empty()
    } else {
        row_impls(mode, orch, cn, c, d, j - 1) + oper_impl(
            mode,
            orch,
            cn,
            provider_name(c, d),
            impl_params(c, d.operations[j - 1]),
            oper_text(c, d.operations[j - 1]),
        )
    }
}

/// The impls for all operations of the first `k` rows.
pub open spec fn all_impls(
    mode: Mode,
    orch: Seq<char>,
    cn: Seq<char>,
    c: Seq<Tok>,
    ds: Seq<DeclarationV>,
    k: int,
) -> Seq<char>
    decreases k,
{
    if k <= 0 {
        Seq::empty()
    } else {
        all_impls(mode, orch, cn, c, ds, k - 1) + row_impls(
            mode,
            orch,
            cn,
            c,
            ds[k - 1],
            ds[k - 1].operations.len() as int,
        )
    }
}

/// The code `proxy!` expands to for the parsed input `p` of the tokens
/// `s`, with `orch` the path of this crate: a block that declares the
/// proxy struct (one reference field per provider, and the context for a
/// step proxy), implements `Proxy` once per operation, and evaluates to
/// the proxy value.
pub open spec fn proxy_expansion(s: Seq<Tok>, p: ProxyInputV, orch: Seq<char>) -> Seq<char> {
    let c = group_content(s[p.body as int]);
    let ns = provider_names(c, p.declarations);
    let cn = comma_names(ns);
    let ctx_field = match p.mode {
        Mode::Run => Seq::empty(),
        Mode::Step => " context: &'proxy mut ProxyContext,"@,
    };
    let ctx_value = match p.context {
        Some(x) => " context: &mut *"@ + render_seq(group_content(s[x as int])) + ","@,
        None => Seq::empty(),
    };
    "{ #[allow(non_camel_case_types)] struct ProxyImpl<'proxy"@ + cn + context_generic(p.mode)
        + "> {"@ + field_decls(ns) + ctx_field + " } "@ + all_impls(
        p.mode,
        orch,
        cn,
        c,
        p.declarations,
        p.declarations.len() as int,
    ) + "ProxyImpl {"@ + ctx_value + field_values(ns) + " } }"@
}

fn oper_impl_exec(
    mode: Mode,
    orch: &String,
    cn: &String,
    prov: &String,
    params: &String,
    oper: &String,
) -> (r: String)
    ensures
        r@ == oper_impl(mode, orch@, cn@, prov@, params@, oper@),
{
    let mut tr = String::new();
    tr.append(orch.as_str());
    match mode {
        Mode::Run => {
            tr.append("::Run<");
            tr.append(oper.as_str());
            tr.append(">");
        },
        Mode::Step => {
            tr.append("::Step<");
            tr.append(oper.as_str());
            tr.append(", ProxyContext>");
        },
    }
    assert(tr@ =~= executor_trait(mode, orch@, oper@));
    let mut q = String::from_str("<");
    q.append(prov.as_str());
    q.append(" as ");
    q.append(tr.as_str());
    q.append(" >");
    let ctx_gen = match mode {
        Mode::Run => String::new(),
        Mode::Step => String::from_str(", ProxyContext"),
    };
    let mut bounds = String::new();
    match mode {
        Mode::Run => {
            bounds.append(prov.as_str());
            bounds.append(": ");
            bounds.append(tr.as_str());
            bounds.append(",");
        },
        Mode::Step => {
            bounds.append("ProxyContext: ");
            bounds.append(orch.as_str());
            bounds.append("::Context, ");
            bounds.append(prov.as_str());
            bounds.append(": ");
            bounds.append(tr.as_str());
            bounds.append(", ");
            bounds.append(prov.as_str());
            bounds.append(": ");
            bounds.append(orch.as_str());
            bounds.append("::LevelGuard< <ProxyContext as ");
            bounds.append(orch.as_str());
            bounds.append("::Context>::Level, ");
            bounds.append(q.as_str());
            bounds.append("::Level>,");
        },
    }
    assert(bounds@ =~= impl_bounds(mode, orch@, prov@, tr@));
    let mut call = String::new();
    match mode {
        Mode::Run => {
            call.append("::run(self.");
            call.append(prov.as_str());
            call.append(", oper)");
        },
        Mode::Step => {
            call.append("::step(self.");
            call.append(prov.as_str());
            call.append(", &mut *self.context, oper)");
        },
    }
    assert(call@ =~= exec_call(mode, prov@));
    let mut out = String::from_str("#[allow(non_camel_case_types)] impl<");
    out.append(params.as_str());
    out.append(cn.as_str());
    out.append(ctx_gen.as_str());
    out.append("> ");
    out.append(orch.as_str());
    out.append("::Proxy<");
    out.append(oper.as_str());
    out.append("> for ProxyImpl<'proxy");
    out.append(cn.as_str());
    out.append(ctx_gen.as_str());
    out.append("> where ");
    out.append(bounds.as_str());
    out.append(" { type Error = ");
    out.append(q.as_str());
    out.append("::Error; type Fut<'proxy_exec> = ");
    out.append(q.as_str());
    out.append("::Fut<'proxy_exec> where Self: 'proxy_exec, ");
    out.append(oper.as_str());
    out.append(": 'proxy_exec; fn exec<'proxy_exec>(&'proxy_exec mut self, oper: &'proxy_exec ");
    out.append(oper.as_str());
    out.append(") -> Self::Fut<'proxy_exec> { ");
    out.append(q.as_str());
    out.append(call.as_str());
    out.append(" } } ");
    out
}

fn provider_text(c: &Vec<Tok>, d: &Declaration) -> (r: String)
    requires
        decl_wf(c@, d@),
    ensures
        r@ == provider_name(c@, d@),
{
    match &c[d.provider] {
        Tok::Ident(n) => n.clone(),
        _ => {
            assert(false);
            String::new()
        },
    }
}

fn impl_params_exec(c: &Vec<Tok>, op: &OperSpec) -> (r: String)
    requires
        oper_wf(c@.len() as int, *op),
    ensures
        r@ == impl_params(c@, *op),
{
    match op.binder {
        Some((a, z)) => {
            let mut out = String::from_str("'proxy, ");
            crate::token::render_range_into(c, a, z, &mut out);
            out
        },
        None => String::from_str("'proxy"),
    }
}

/// The code for the parsed input `p` of the tokens `s`, with `orch` the
/// path of this crate.
pub fn expand(s: &Vec<Tok>, p: &ProxyInput, orch: &String) -> (r: String)
    requires
        proxy_input_wf(s@, p@),
    ensures
        r@ == proxy_expansion(s@, p@, orch@),
{
    let ghost pv = p@;
    let c = match &s[p.body] {
        Tok::Group(_, v) => v,
        _ => {
            assert(false);
            return String::new();
        },
    };
    assert(c@ == group_content(s@[p.body as int]));
    let ds = &p.declarations;
    let ghost dsv = pv.declarations;
    let ghost ns = provider_names(c@, dsv);
    let mut cn = String::new();
    let mut fields = String::new();
    let mut values = String::new();
    let mut k: usize = 0;
    assert(ns.take(0) =~= Seq::<Seq<char>>::empty());
    while k < ds.len()
        invariant
            k <= ds.len(),
            dsv == ds@.map_values(|d: Declaration| d@),
            ns == provider_names(c@, dsv),
            decls_wf(c@, dsv),
            cn@ == comma_names(ns.take(k as int)),
            fields@ == field_decls(ns.take(k as int)),
            values@ == field_values(ns.take(k as int)),
        decreases ds.len() - k,
    {
        assert(dsv[k as int] == ds@[k as int]@);
        let name = provider_text(c, &ds[k]);
        assert(ns.take(k + 1).drop_last() =~= ns.take(k as int));
        assert(ns.take(k + 1).last() == name@);
        cn.append(", ");
        cn.append(name.as_str());
        fields.append(" ");
        fields.append(name.as_str());
        fields.append(": &'proxy ");
        fields.append(name.as_str());
        fields.append(",");
        values.append(" ");
        values.append(name.as_str());
        values.append(",");
        k = k + 1;
    }
    assert(ns.take(ds.len() as int) =~= ns);
    let mut impls = String::new();
    let mut k: usize = 0;
    while k < ds.len()
        invariant
            k <= ds.len(),
            dsv == ds@.map_values(|d: Declaration| d@),
            ns == provider_names(c@, dsv),
            decls_wf(c@, dsv),
            cn@ == comma_names(ns),
            impls@ == all_impls(pv.mode, orch@, cn@, c@, dsv, k as int),
            p.mode == pv.mode,
        decreases ds.len() - k,
    {
        let d = &ds[k];
        assert(dsv[k as int] == d@);
        assert(decl_wf(c@, d@));
        let name = provider_text(c, d);
        let mut j: usize = 0;
        let ghost base = impls@;
        while j < d.operations.len()
            invariant
                j <= d.operations.len(),
                decl_wf(c@, d@),
                name@ == provider_name(c@, d@),
                impls@ == base + row_impls(pv.mode, orch@, cn@, c@, d@, j as int),
                p.mode == pv.mode,
            decreases d.operations.len() - j,
        {
            let op = &d.operations[j];
            assert(oper_wf(c@.len() as int, d@.operations[j as int]));
            let params = impl_params_exec(c, op);
            let oper = render_text(c, op.oper.0, op.oper.1);
            let text = oper_impl_exec(p.mode, orch, &cn, &name, &params, &oper);
            impls.append(text.as_str());
            j = j + 1;
        }
        k = k + 1;
    }
    let mut out = String::from_str("{ #[allow(non_camel_case_types)] struct ProxyImpl<'proxy");
    out.append(cn.as_str());
    match p.mode {
        Mode::Run => {},
        Mode::Step => {
            out.append(", ProxyContext");
        },
    }
    out.append("> {");
    out.append(fields.as_str());
    match p.mode {
        Mode::Run => {},
        Mode::Step => {
            out.append(" context: &'proxy mut ProxyContext,");
        },
    }
    out.append(" } ");
    out.append(impls.as_str());
    out.append("ProxyImpl {");
    match p.context {
        Some(x) => {
            out.append(" context: &mut *");
            match &s[x] {
                Tok::Group(_, inner) => {
                    crate::token::render_range_into(inner, 0, inner.len(), &mut out);
                    assert(inner@.subrange(0, inner@.len() as int) =~= inner@);
                },
                _ => {
                    assert(false);
                },
            }
            out.append(",");
        },
        None => {},
    }
    out.append(values.as_str());
    out.append(" } }");
    proof {
        let ctx_field = match pv.mode {
            Mode::Run => Seq::<char>::empty(),
            Mode::Step => " context: &'proxy mut ProxyContext,"@,
        };
        let ctx_value = match pv.context {
            Some(x) => " context: &mut *"@ + render_seq(group_content(s@[x as int])) + ","@,
            None => Seq::<char>::empty(),
        };
        assert(out@ =~= "{ #[allow(non_camel_case_types)] struct ProxyImpl<'proxy"@ + cn@
            + context_generic(pv.mode) + "> {"@ + field_decls(ns) + ctx_field + " } "@ + impls@
            + "ProxyImpl {"@ + ctx_value + field_values(ns) + " } }"@);
    }
    out
}

pub open spec fn expansion_result(s: Seq<Tok>, path: Result<Seq<char>, ErrorV>) -> Result<Seq<char>, ErrorV> {
    match parse_proxy_input(s) {
        Err(e) => Err(e),
        Ok(p) => match path {
            Err(e) => Err(e),
            Ok(orch) => Ok(proxy_expansion(s, p, orch)),
        },
    }
}

/// `proxy!` for the input tokens `input`, given the answer of the lookup
/// of this crate's name: the parse error, the lookup error, or the
/// expansion.
pub fn proxy(input: &Vec<Tok>, lookup: crate::syntax::CrateLookup) -> (r: Result<String, MacroError>)
    ensures
        crate::orchestra::text_result(r) == expansion_result(
            input@,
            crate::orchestra::orchestra_path_spec(lookup@),
        ),
{
    let parsed = parse_proxy(input)?;
    let orch = crate::orchestra::orchestra_path(lookup)?;
    Ok(expand(input, &parsed, &orch))
}

proof fn lemma_contains_left(a: Seq<Seq<char>>, b: Seq<Seq<char>>, x: Seq<char>)
    requires
        a.contains(x),
    ensures
        (a + b).contains(x),
{
    let i = choose|i: int| 0 <= i < a.len() && a[i] == x;
    assert((a + b)[i] == x);
}

proof fn lemma_contains_right(a: Seq<Seq<char>>, b: Seq<Seq<char>>, x: Seq<char>)
    requires
        b.contains(x),
    ensures
        (a + b).contains(x),
{
    let i = choose|i: int| 0 <= i < b.len() && b[i] == x;
    assert((a + b)[a.len() + i] == x);
}

/// Every key of an operation of an earlier row is among `keys_upto`.
proof fn lemma_keys_upto_contains(c: Seq<Tok>, ds: Seq<DeclarationV>, k: int, k1: int, j1: int)
    requires
        0 <= k1 < k <= ds.len(),
        0 <= j1 < ds[k1].operations.len(),
    ensures
        keys_upto(c, ds, k).contains(oper_key(c, ds[k1].operations[j1])),
    decreases k,
{
    let row = row_keys(c, ds[k - 1], ds[k - 1].operations.len() as int);
    if k1 < k - 1 {
        lemma_keys_upto_contains(c, ds, k - 1, k1, j1);
        lemma_contains_left(keys_upto(c, ds, k - 1), row, oper_key(c, ds[k1].operations[j1]));
    } else {
        assert(row[j1] == oper_key(c, ds[k1].operations[j1]));
        lemma_contains_right(keys_upto(c, ds, k - 1), row, oper_key(c, ds[k1].operations[j1]));
    }
}

/// Operation `(k1, j1)` comes before operation `(k2, j2)`.
pub open spec fn declared_before(k1: int, j1: int, k2: int, j2: int) -> bool {
    k1 < k2 || (k1 == k2 && j1 < j2)
}

/// The rows of `ds` are unambiguous: at least one row, each with an
/// operation, no provider twice, no operation twice.
pub open spec fn unambiguous(c: Seq<Tok>, ds: Seq<DeclarationV>) -> bool {
    &&& ds.len() > 0
    &&& forall|k: int| 0 <= k < ds.len() ==> (#[trigger] ds[k]).operations.len() > 0
    &&& forall|k1: int, k2: int|
        0 <= k1 < k2 < ds.len() ==> provider_name(c, #[trigger] ds[k1]) != provider_name(
            c,
            #[trigger] ds[k2],
        )
    &&& forall|k1: int, j1: int, k2: int, j2: int|
        0 <= k1 < ds.len() && 0 <= k2 < ds.len() && 0 <= j1 < ds[k1].operations.len() && 0 <= j2
            < ds[k2].operations.len() && declared_before(k1, j1, k2, j2) ==> oper_key(
            c,
            #[trigger] ds[k1].operations[j1],
        ) != oper_key(c, #[trigger] ds[k2].operations[j2])
}

proof fn lemma_validate_from(c: Seq<Tok>, b: usize, ds: Seq<DeclarationV>, k: int)
    requires
        0 <= k <= ds.len(),
        validate_from(c, b, ds, k) is Ok,
    ensures
        forall|m: int| k <= m < ds.len() ==> (#[trigger] ds[m]).operations.len() > 0,
        forall|k1: int, k2: int|
            0 <= k1 < k2 < ds.len() && k <= k2 ==> provider_name(c, #[trigger] ds[k1])
                != provider_name(c, #[trigger] ds[k2]),
        forall|k1: int, j1: int, k2: int, j2: int|
            0 <= k1 < ds.len() && k <= k2 < ds.len() && 0 <= j1 < ds[k1].operations.len() && 0
                <= j2 < ds[k2].operations.len() && declared_before(k1, j1, k2, j2) ==> oper_key(
                c,
                #[trigger] ds[k1].operations[j1],
            ) != oper_key(c, #[trigger] ds[k2].operations[j2]),
    decreases ds.len() - k,
{
    if k < ds.len() {
        lemma_validate_from(c, b, ds, k + 1);
        let n = ds[k].operations.len() as int;
        lemma_first_from(0, n, repeats_oper(c, ds, k));
        assert forall|k1: int| 0 <= k1 < k implies provider_name(c, ds[k1]) != provider_name(
            c,
            ds[k],
        ) by {
            assert(providers_upto(c, ds, k)[k1] == provider_name(c, ds[k1]));
        }
        assert forall|k1: int, j1: int, j2: int|
            0 <= k1 < ds.len() && 0 <= j1 < ds[k1].operations.len() && 0 <= j2 < n
                && declared_before(k1, j1, k, j2) implies oper_key(c, ds[k1].operations[j1])
            != oper_key(c, ds[k].operations[j2]) by {
            assert(!repeats_oper(c, ds, k)(j2));
            if k1 < k {
                lemma_keys_upto_contains(c, ds, k, k1, j1);
                lemma_contains_left(
                    keys_upto(c, ds, k),
                    row_keys(c, ds[k], j2),
                    oper_key(c, ds[k1].operations[j1]),
                );
            } else {
                let row = row_keys(c, ds[k], j2);
                assert(row[j1] == oper_key(c, ds[k1].operations[j1]));
                lemma_contains_right(keys_upto(c, ds, k), row, oper_key(c, ds[k1].operations[j1]));
            }
        }
    }
}

proof fn lemma_declarations_in_order(c: Seq<Tok>, b: usize, i: int)
    requires
        0 <= i,
        c.len() <= usize::MAX,
    ensures
        parse_declarations(c, b, i) matches Ok(ds) ==> (forall|k: int|
            0 <= k < ds.len() ==> i <= #[trigger] ds[k].provider) && (forall|k1: int, k2: int|
            0 <= k1 < k2 < ds.len() ==> #[trigger] ds[k1].provider < #[trigger] ds[k2].provider),
    decreases c.len() - i,
{
    if i < c.len() {
        lemma_parse_declaration_range(c, b, i);
        match parse_declaration(c, b, i) {
            Ok((d, j)) => {
                lemma_declarations_in_order(c, b, j);
                match parse_declarations(c, b, j) {
                    Ok(rest) => {
                        let ds = seq![d] + rest;
                        assert(d.provider == i);
                        assert forall|k: int| 0 <= k < ds.len() implies i <= #[trigger] ds[k].provider by {
                            if k > 0 {
                                assert(ds[k] == rest[k - 1]);
                            }
                        }
                        assert forall|k1: int, k2: int|
                            0 <= k1 < k2 < ds.len() implies #[trigger] ds[k1].provider
                            < #[trigger] ds[k2].provider by {
                            assert(ds[k2] == rest[k2 - 1]);
                            if k1 > 0 {
                                assert(ds[k1] == rest[k1 - 1]);
                            }
                        }
                    },
                    Err(_) => {},
                }
            },
            Err(_) => {},
        }
    }
}

/// The rows of an accepted `proxy!` input keep their source order: each
/// row's provider stands before the provider of every later row. (The
/// body's tokens are indexed by `usize`, as in any vector of them.)
pub proof fn lemma_proxy_rows_in_source_order(s: Seq<Tok>)
    requires
        parse_proxy_input(s) is Ok,
        group_content(s[parse_proxy_input(s)->Ok_0.body as int]).len() <= usize::MAX,
    ensures
        forall|k1: int, k2: int|
            0 <= k1 < k2 < parse_proxy_input(s)->Ok_0.declarations.len() ==> (#[trigger] parse_proxy_input(
                s,
            )->Ok_0.declarations[k1]).provider < (#[trigger] parse_proxy_input(
                s,
            )->Ok_0.declarations[k2]).provider,
{
    let p = parse_proxy_input(s)->Ok_0;
    let c = group_content(s[p.body as int]);
    lemma_declarations_in_order(c, p.body, 0);
}

proof fn lemma_row_impls_hold(
    mode: Mode,
    orch: Seq<char>,
    cn: Seq<char>,
    c: Seq<Tok>,
    d: DeclarationV,
    n: int,
    j: int,
)
    requires
        0 <= j < n,
    ensures
        holds_text(
            row_impls(mode, orch, cn, c, d, n),
            oper_impl(
                mode,
                orch,
                cn,
                provider_name(c, d),
                impl_params(c, d.operations[j]),
                oper_text(c, d.operations[j]),
            ),
        ),
    decreases n,
{
    let x = oper_impl(
        mode,
        orch,
        cn,
        provider_name(c, d),
        impl_params(c, d.operations[j]),
        oper_text(c, d.operations[j]),
    );
    let prev = row_impls(mode, orch, cn, c, d, n - 1);
    let last = oper_impl(
        mode,
        orch,
        cn,
        provider_name(c, d),
        impl_params(c, d.operations[n - 1]),
        oper_text(c, d.operations[n - 1]),
    );
    assert(row_impls(mode, orch, cn, c, d, n) == prev + last);
    if j == n - 1 {
        lemma_contains_self(x);
        lemma_contains_concat(prev, x, Seq::empty(), x);
        assert(prev + x + Seq::<char>::empty() =~= prev + x);
    } else {
        lemma_row_impls_hold(mode, orch, cn, c, d, n - 1, j);
        lemma_contains_concat(Seq::empty(), prev, last, x);
        assert(Seq::<char>::empty() + prev + last =~= prev + last);
    }
}

proof fn lemma_all_impls_hold(
    mode: Mode,
    orch: Seq<char>,
    cn: Seq<char>,
    c: Seq<Tok>,
    ds: Seq<DeclarationV>,
    n: int,
    k: int,
    j: int,
)
    requires
        0 <= k < n <= ds.len(),
        0 <= j < ds[k].operations.len(),
    ensures
        holds_text(
            all_impls(mode, orch, cn, c, ds, n),
            oper_impl(
                mode,
                orch,
                cn,
                provider_name(c, ds[k]),
                impl_params(c, ds[k].operations[j]),
                oper_text(c, ds[k].operations[j]),
            ),
        ),
    decreases n,
{
    let x = oper_impl(
        mode,
        orch,
        cn,
        provider_name(c, ds[k]),
        impl_params(c, ds[k].operations[j]),
        oper_text(c, ds[k].operations[j]),
    );
    let prev = all_impls(mode, orch, cn, c, ds, n - 1);
    let row = row_impls(mode, orch, cn, c, ds[n - 1], ds[n - 1].operations.len() as int);
    assert(all_impls(mode, orch, cn, c, ds, n) == prev + row);
    if k == n - 1 {
        lemma_row_impls_hold(mode, orch, cn, c, ds[k], ds[k].operations.len() as int, j);
        lemma_contains_concat(prev, row, Seq::empty(), x);
        assert(prev + row + Seq::<char>::empty() =~= prev + row);
    } else {
        lemma_all_impls_hold(mode, orch, cn, c, ds, n - 1, k, j);
        lemma_contains_concat(Seq::empty(), prev, row, x);
        assert(Seq::<char>::empty() + prev + row =~= prev + row);
    }
}

/// The executor trait that the provider `prov` of an operation `oper`
/// implements: `path::Run<Oper>`, or `path::Step<Oper, ProxyContext>`.
pub open spec fn routed_trait(mode: Mode, orch: Seq<char>, oper: Seq<char>) -> Seq<char> {
    match mode {
        Mode::Run => orch + "::Run<"@ + oper + ">"@,
        Mode::Step => orch + "::Step<"@ + oper + ", ProxyContext>"@,
    }
}

/// The end of the `Proxy` impl of the operation `oper` routed to the
/// provider `prov`: its where clause asks `prov` to execute `oper`, its
/// `Error` and `Fut` are `prov`'s, and `exec` calls `prov`'s `run` (or its
/// `step`, on the proxy's context) with the operation.
pub open spec fn routed_impl_tail(mode: Mode, orch: Seq<char>, prov: Seq<char>, oper: Seq<char>) -> Seq<char> {
    let tr = routed_trait(mode, orch, oper);
    let q = "<"@ + prov + " as "@ + tr + " >"@;
    let bounds = match mode {
        Mode::Run => prov + ": "@ + tr + ","@,
        Mode::Step => "ProxyContext: "@ + orch + "::Context, "@ + prov + ": "@ + tr + ", "@ + prov
            + ": "@ + orch + "::LevelGuard< <ProxyContext as "@ + orch + "::Context>::Level, "@ + q
            + "::Level>,"@,
    };
    let call = match mode {
        Mode::Run => "::run(self."@ + prov + ", oper)"@,
        Mode::Step => "::step(self."@ + prov + ", &mut *self.context, oper)"@,
    };
    "> where "@ + bounds + " { type Error = "@ + q + "::Error; type Fut<'proxy_exec> = "@ + q
        + "::Fut<'proxy_exec> where Self: 'proxy_exec, "@ + oper
        + ": 'proxy_exec; fn exec<'proxy_exec>(&'proxy_exec mut self, oper: &'proxy_exec "@ + oper
        + ") -> Self::Fut<'proxy_exec> { "@ + q + call + " } } "@
}

proof fn lemma_oper_impl_tail(
    mode: Mode,
    orch: Seq<char>,
    cn: Seq<char>,
    prov: Seq<char>,
    params: Seq<char>,
    oper: Seq<char>,
)
    ensures
        holds_text(oper_impl(mode, orch, cn, prov, params, oper), routed_impl_tail(mode, orch, prov, oper)),
{
    let tail = routed_impl_tail(mode, orch, prov, oper);
    let head = "#[allow(non_camel_case_types)] impl<"@ + params + cn + context_generic(mode) + "> "@
        + orch + "::Proxy<"@ + oper + "> for ProxyImpl<'proxy"@ + cn + context_generic(mode);
    assert(executor_trait(mode, orch, oper) == routed_trait(mode, orch, oper));
    assert(oper_impl(mode, orch, cn, prov, params, oper) =~= head + tail + Seq::empty());
    lemma_contains_self(tail);
    lemma_contains_concat(head, tail, Seq::empty(), tail);
}

proof fn lemma_expansion_holds_impls(s: Seq<Tok>, p: ProxyInputV, orch: Seq<char>)
    ensures
        ({
            let c = group_content(s[p.body as int]);
            holds_text(
                proxy_expansion(s, p, orch),
                all_impls(
                    p.mode,
                    orch,
                    comma_names(provider_names(c, p.declarations)),
                    c,
                    p.declarations,
                    p.declarations.len() as int,
                ),
            )
        }),
{
    let c = group_content(s[p.body as int]);
    let ns = provider_names(c, p.declarations);
    let cn = comma_names(ns);
    let all = all_impls(p.mode, orch, cn, c, p.declarations, p.declarations.len() as int);
    let ctx_field = match p.mode {
        Mode::Run => Seq::empty(),
        Mode::Step => " context: &'proxy mut ProxyContext,"@,
    };
    let ctx_value = match p.context {
        Some(y) => " context: &mut *"@ + render_seq(group_content(s[y as int])) + ","@,
        None => Seq::empty(),
    };
    let front = "{ #[allow(non_camel_case_types)] struct ProxyImpl<'proxy"@ + cn + context_generic(
        p.mode,
    ) + "> {"@ + field_decls(ns) + ctx_field + " } "@;
    let back = "ProxyImpl {"@ + ctx_value + field_values(ns) + " } }"@;
    assert(proxy_expansion(s, p, orch) =~= front + all + back);
    lemma_contains_self(all);
    lemma_contains_concat(front, all, back, all);
}

proof fn lemma_field_decls_hold(ns: Seq<Seq<char>>, k: int)
    requires
        0 <= k < ns.len(),
    ensures
        holds_text(field_decls(ns), " "@ + ns[k] + ": &'proxy "@ + ns[k] + ","@),
    decreases ns.len(),
{
    let x = " "@ + ns[k] + ": &'proxy "@ + ns[k] + ","@;
    let prev = field_decls(ns.drop_last());
    let last = " "@ + ns.last() + ": &'proxy "@ + ns.last() + ","@;
    assert(field_decls(ns) =~= prev + last);
    if k == ns.len() - 1 {
        lemma_contains_self(x);
        lemma_contains_concat(prev, x, Seq::empty(), x);
        assert(prev + x + Seq::<char>::empty() =~= prev + x);
    } else {
        assert(ns.drop_last()[k] == ns[k]);
        lemma_field_decls_hold(ns.drop_last(), k);
        lemma_contains_concat(Seq::empty(), prev, last, x);
        assert(Seq::<char>::empty() + prev + last =~= prev + last);
    }
}

/// The proxy struct of an accepted `proxy!` input has, for every row's
/// provider `p`, a field `p: &'proxy p` that borrows it.
pub proof fn lemma_every_provider_has_a_field(s: Seq<Tok>, orch: Seq<char>, k: int)
    requires
        parse_proxy_input(s) is Ok,
        0 <= k < parse_proxy_input(s)->Ok_0.declarations.len(),
    ensures
        ({
            let p = parse_proxy_input(s)->Ok_0;
            let c = group_content(s[p.body as int]);
            let prov = ident_text(c[p.declarations[k].provider as int]);
            holds_text(proxy_expansion(s, p, orch), " "@ + prov + ": &'proxy "@ + prov + ","@)
        }),
{
    let p = parse_proxy_input(s)->Ok_0;
    let c = group_content(s[p.body as int]);
    let ns = provider_names(c, p.declarations);
    let cn = comma_names(ns);
    let prov = ident_text(c[p.declarations[k].provider as int]);
    let x = " "@ + prov + ": &'proxy "@ + prov + ","@;
    assert(ns[k] == prov);
    lemma_field_decls_hold(ns, k);
    let ctx_field = match p.mode {
        Mode::Run => Seq::empty(),
        Mode::Step => " context: &'proxy mut ProxyContext,"@,
    };
    let ctx_value = match p.context {
        Some(y) => " context: &mut *"@ + render_seq(group_content(s[y as int])) + ","@,
        None => Seq::empty(),
    };
    let front = "{ #[allow(non_camel_case_types)] struct ProxyImpl<'proxy"@ + cn + context_generic(
        p.mode,
    ) + "> {"@;
    let back = ctx_field + " } "@ + all_impls(p.mode, orch, cn, c, p.declarations, p.declarations.len() as int)
        + "ProxyImpl {"@ + ctx_value + field_values(ns) + " } }"@;
    assert(proxy_expansion(s, p, orch) =~= front + field_decls(ns) + back);
    lemma_contains_concat(front, field_decls(ns), back, x);
}

/// Each operation of an accepted `proxy!` input is routed to the provider
/// of its own row: for the operation `j` of row `k`, the expansion holds a
/// `Proxy` impl whose where clause, `Error` and `Fut` types and `exec`
/// call name that row's provider and that operation.
pub proof fn lemma_operations_route_to_their_row(s: Seq<Tok>, orch: Seq<char>, k: int, j: int)
    requires
        parse_proxy_input(s) is Ok,
        0 <= k < parse_proxy_input(s)->Ok_0.declarations.len(),
        0 <= j < parse_proxy_input(s)->Ok_0.declarations[k].operations.len(),
    ensures
        ({
            let p = parse_proxy_input(s)->Ok_0;
            let c = group_content(s[p.body as int]);
            let op = p.declarations[k].operations[j];
            holds_text(
                proxy_expansion(s, p, orch),
                routed_impl_tail(
                    p.mode,
                    orch,
                    ident_text(c[p.declarations[k].provider as int]),
                    render_range(c, op.oper.0 as int, op.oper.1 as int),
                ),
            )
        }),
{
    let p = parse_proxy_input(s)->Ok_0;
    let c = group_content(s[p.body as int]);
    let ds = p.declarations;
    let op = ds[k].operations[j];
    let cn = comma_names(provider_names(c, ds));
    let x = oper_impl(p.mode, orch, cn, provider_name(c, ds[k]), impl_params(c, op), oper_text(c, op));
    let tail = routed_impl_tail(p.mode, orch, provider_name(c, ds[k]), oper_text(c, op));
    let all = all_impls(p.mode, orch, cn, c, ds, ds.len() as int);
    lemma_oper_impl_tail(p.mode, orch, cn, provider_name(c, ds[k]), impl_params(c, op), oper_text(c, op));
    lemma_all_impls_hold(p.mode, orch, cn, c, ds, ds.len() as int, k, j);
    lemma_contains_trans(all, x, tail);
    lemma_expansion_holds_impls(s, p, orch);
    lemma_contains_trans(proxy_expansion(s, p, orch), all, tail);
}

/// An accepted `proxy!` input is unambiguous: it has a provider row, every
/// row declares an operation, no provider appears in two rows, and no
/// operation is declared twice (in the same row or in two rows), so each
/// operation is routed to exactly one provider.
pub proof fn lemma_accepted_proxy_is_unambiguous(s: Seq<Tok>)
    requires
        parse_proxy_input(s) is Ok,
    ensures
        unambiguous(
            group_content(s[parse_proxy_input(s)->Ok_0.body as int]),
            parse_proxy_input(s)->Ok_0.declarations,
        ),
{
    let p = parse_proxy_input(s)->Ok_0;
    let c = group_content(s[p.body as int]);
    lemma_validate_from(c, p.body, p.declarations, 0);
}

} // verus!
