//! `#[drive(..)]`: turns an empty trait into an aggregate of `Run` and
//! `Step` bounds, with a blanket impl for every type that meets them.
//!
//! ```text
//! #[drive(context = C, error = BaseError, run(FindUser), step(for<'a> UpdateUser<'a>))]
//! trait UserRepo<C> {}
//! ```
use vstd::prelude::*;
use crate::error::{MacroError, ErrorV, SiteV, err_v, call_site_error, input_error1, input_error2, item_error1};
use crate::grammar::{type_end, binder_close, ident_ok, find_type_end, find_binder_close, check_ident, lemma_first_from, first_from, type_ends_at, binder_closes_at, generics_close, generics_close_at, find_generics_close, type_failure, type_failure_exec, binder_failure, binder_failure_exec, ident_message, ident_message_exec};
use crate::syntax::{trait_error, where_predicate_error, bound_error, parses_as_bound, generics_split, opt_text, trait_check, where_predicate_check, bound_check, split_generics, stream_tokens, CrateLookup};
use crate::token::{texts, holds_text, lemma_contains_concat, lemma_contains_self, Tok, Delim, render_range, render_seq, render_tok, render_text, is_group, group_content, at_ident_text, at_punct, is_ident, is_ident_text, is_punct, ident_text, vec_at_ident_text, vec_at_punct, tok_is_group, tok_is_ident_text, tok_is_punct};

verus! {

/// One operation of a `run(..)` or `step(..)` list: `group` is the index of
/// the list's parenthesized group in the arguments; `binder` (the whole
/// `for<...>`) and `oper` are ranges of token indices inside that group.
#[derive(Clone, Copy)]
pub struct DriveOper {
    pub group: usize,
    pub binder: Option<(usize, usize)>,
    pub oper: (usize, usize),
}

/// The parsed arguments: the ranges of the `context` and `error` types in
/// the arguments, and the run and step operations in order.
pub struct DriveArgs {
    pub context: Option<(usize, usize)>,
    pub error: (usize, usize),
    pub runs: Vec<DriveOper>,
    pub steps: Vec<DriveOper>,
}

pub struct DriveArgsV {
    pub context: Option<(usize, usize)>,
    pub error: (usize, usize),
    pub runs: Seq<DriveOper>,
    pub steps: Seq<DriveOper>,
}

impl View for DriveArgs {
    type V = DriveArgsV;

    open spec fn view(&self) -> DriveArgsV {
        DriveArgsV {
            context: self.context,
            error: self.error,
            runs: self.runs@,
            steps: self.steps@,
        }
    }
}

/// What has been read of the arguments so far.
pub struct ArgsSoFar {
    pub context: Option<(usize, usize)>,
    pub error: Option<(usize, usize)>,
    pub runs: Seq<DriveOper>,
    pub steps: Seq<DriveOper>,
}

pub open spec fn arg_err(path: Seq<usize>, message: Seq<char>) -> ErrorV {
    err_v(SiteV::Input(path), message)
}

/// One operation of a list: an optional `for<...>` binder (any number of
/// parameters, a trailing comma allowed), then a type that ends at a `,`.
pub open spec fn parse_drive_oper(c: Seq<Tok>, g: usize, i: int) -> Result<(DriveOper, int), ErrorV> {
    if at_ident_text(c, i, "for"@) {
        match binder_close(c, i, false) {
            None => Err(arg_err(seq![g, binder_failure(c, i, false).0 as usize], binder_failure(c, i, false).1)),
            Some(j) => match type_end(c, j + 1, false) {
                None => Err(arg_err(seq![g, type_failure(c, j + 1, ","@).0 as usize], type_failure(c, j + 1, ","@).1)),
                Some(e) => Ok(
                    (
                        DriveOper {
                            group: g,
                            binder: Some((i as usize, (j + 1) as usize)),
                            oper: ((j + 1) as usize, e as usize),
                        },
                        e,
                    ),
                ),
            },
        }
    } else {
        match type_end(c, i, false) {
            None => Err(arg_err(seq![g, type_failure(c, i, ","@).0 as usize], type_failure(c, i, ","@).1)),
            Some(e) => Ok((DriveOper { group: g, binder: None, oper: (i as usize, e as usize) }, e)),
        }
    }
}

/// An operation parsed at `i` ends after `i` and within its list.
pub proof fn lemma_parse_drive_oper_range(c: Seq<Tok>, g: usize, i: int)
    ensures
        parse_drive_oper(c, g, i) matches Ok((_, e)) ==> i < e <= c.len(),
{
    lemma_first_from(i + 2, c.len() as int, binder_closes_at(c, i, false));
    match binder_close(c, i, false) {
        Some(j) => {
            lemma_first_from(j + 2, c.len() + 1 as int, type_ends_at(c, j + 1, false));
        },
        None => {},
    }
    lemma_first_from(i + 1, c.len() + 1 as int, type_ends_at(c, i, false));
}

/// A comma-separated list of operations, possibly empty, a trailing comma
/// allowed.
pub open spec fn parse_oper_list(c: Seq<Tok>, g: usize, i: int) -> Result<Seq<DriveOper>, ErrorV>
    decreases c.len() - i,
{
    if i >= c.len() {
        Ok(Seq::empty())
    } else {
        match parse_drive_oper(c, g, i) {
            Err(e) => Err(e),
            Ok((op, e)) => if e >= c.len() {
                Ok(seq![op])
            } else if !at_punct(c, e, ',') {
                Err(arg_err(seq![g, e as usize], "expected `,`"@))
            } else {
                proof {
                    lemma_parse_drive_oper_range(c, g, i);
                }
                match parse_oper_list(c, g, e + 1) {
                    Err(x) => Err(x),
                    Ok(ops) => Ok(seq![op] + ops),
                }
            },
        }
    }
}

/// One `key = Type` or `key(list)` argument at `i`: what it adds to `st`,
/// and where it ends.
pub open spec fn parse_arg(s: Seq<Tok>, i: int, st: ArgsSoFar) -> Result<(ArgsSoFar, int), ErrorV> {
    if !ident_ok(s, i) {
        Err(arg_err(seq![i as usize], ident_message(s, i)))
    } else {
        let key = ident_text(s[i]);
        if key == "context"@ || key == "error"@ {
            let is_context = key == "context"@;
            if (is_context && st.context is Some) || (!is_context && st.error is Some) {
                Err(
                    arg_err(
                        seq![i as usize],
                        if is_context {
                            "duplicate `context` argument"@
                        } else {
                            "duplicate `error` argument"@
                        },
                    ),
                )
            } else if !at_punct(s, i + 1, '=') {
                Err(arg_err(seq![(i + 1) as usize], "expected `=`"@))
            } else {
                match type_end(s, i + 2, false) {
                    None => Err(arg_err(seq![type_failure(s, i + 2, ","@).0 as usize], type_failure(s, i + 2, ","@).1)),
                    Some(e) => {
                        let range = Some(((i + 2) as usize, e as usize));
                        Ok(
                            (
                                if is_context {
                                    ArgsSoFar { context: range, ..st }
                                } else {
                                    ArgsSoFar { error: range, ..st }
                                },
                                e,
                            ),
                        )
                    },
                }
            }
        } else if key == "run"@ || key == "step"@ {
            if !(i + 1 < s.len() && is_group(s[i + 1], Delim::Paren)) {
                Err(arg_err(seq![(i + 1) as usize], "expected parentheses"@))
            } else {
                match parse_oper_list(group_content(s[i + 1]), (i + 1) as usize, 0) {
                    Err(e) => Err(e),
                    Ok(ops) => Ok(
                        (
                            if key == "run"@ {
                                ArgsSoFar { runs: st.runs + ops, ..st }
                            } else {
                                ArgsSoFar { steps: st.steps + ops, ..st }
                            },
                            i + 2,
                        ),
                    ),
                }
            }
        } else {
            Err(arg_err(seq![i as usize], "unsupported `drive` argument"@))
        }
    }
}

/// An argument parsed at `i` ends after `i` and within the arguments.
pub proof fn lemma_parse_arg_range(s: Seq<Tok>, i: int, st: ArgsSoFar)
    ensures
        parse_arg(s, i, st) matches Ok((_, j)) ==> i < j <= s.len(),
{
    lemma_first_from(i + 3, s.len() + 1 as int, type_ends_at(s, i + 2, false));
}

/// The arguments from `i` on, each after a `,`; `error` is required.
pub open spec fn parse_args_from(s: Seq<Tok>, i: int, st: ArgsSoFar) -> Result<DriveArgsV, ErrorV>
    decreases s.len() - i,
{
    if i >= s.len() {
        match st.error {
            None => Err(err_v(SiteV::CallSite, "missing `error = Type` argument"@)),
            Some(e) => Ok(
                DriveArgsV { context: st.context, error: e, runs: st.runs, steps: st.steps },
            ),
        }
    } else {
        match parse_arg(s, i, st) {
            Err(e) => Err(e),
            Ok((st2, j)) => {
                proof {
                    lemma_parse_arg_range(s, i, st);
                }
                if j == s.len() {
                    parse_args_from(s, j, st2)
                } else if at_punct(s, j, ',') {
                    parse_args_from(s, j + 1, st2)
                } else {
                    Err(arg_err(seq![j as usize], "expected `,`"@))
                }
            },
        }
    }
}

/// `x` starts with `p`.
pub open spec fn starts_with<A>(x: Seq<A>, p: Seq<A>) -> bool {
    p.len() <= x.len() && x.subrange(0, p.len() as int) == p
}

proof fn lemma_starts_with_trans<A>(x: Seq<A>, y: Seq<A>, p: Seq<A>)
    requires
        starts_with(x, y),
        starts_with(y, p),
    ensures
        starts_with(x, p),
{
    assert(x.subrange(0, p.len() as int) =~= y.subrange(0, p.len() as int));
}

/// Reading the `#[drive(..)]` arguments from `i` on keeps what was read
/// before: the run and step operations read so far stay, in order, at the
/// front of the result's. And a `run(..)` (or `step(..)`) list read at `i`
/// follows them there, in its own order: no list replaces another.
pub proof fn lemma_drive_lists_accumulate(s: Seq<Tok>, i: int, st: ArgsSoFar)
    requires
        0 <= i,
        parse_args_from(s, i, st) is Ok,
    ensures
        ({
            let a = parse_args_from(s, i, st)->Ok_0;
            &&& starts_with(a.runs, st.runs)
            &&& starts_with(a.steps, st.steps)
            &&& i < s.len() && i + 1 < s.len() && is_ident_text(s[i], "run"@) ==> starts_with(
                a.runs,
                st.runs + parse_oper_list(group_content(s[i + 1]), (i + 1) as usize, 0)->Ok_0,
            )
            &&& i < s.len() && i + 1 < s.len() && is_ident_text(s[i], "step"@) ==> starts_with(
                a.steps,
                st.steps + parse_oper_list(group_content(s[i + 1]), (i + 1) as usize, 0)->Ok_0,
            )
        }),
    decreases s.len() - i,
{
    if i < s.len() {
        lemma_parse_arg_range(s, i, st);
        let (st2, j) = parse_arg(s, i, st)->Ok_0;
        let next = if j == s.len() {
            j
        } else {
            j + 1
        };
        lemma_drive_lists_accumulate(s, next, st2);
        let a = parse_args_from(s, i, st)->Ok_0;
        assert(a == parse_args_from(s, next, st2)->Ok_0);
        assert(starts_with(st2.runs, st.runs)) by {
            assert((st.runs + parse_oper_list(group_content(s[i + 1]), (i + 1) as usize, 0)->Ok_0).subrange(0, st.runs.len() as int) =~= st.runs);
            assert(st.runs.subrange(0, st.runs.len() as int) =~= st.runs);
        }
        assert(starts_with(st2.steps, st.steps)) by {
            assert((st.steps + parse_oper_list(group_content(s[i + 1]), (i + 1) as usize, 0)->Ok_0).subrange(0, st.steps.len() as int) =~= st.steps);
            assert(st.steps.subrange(0, st.steps.len() as int) =~= st.steps);
        }
        lemma_starts_with_trans(a.runs, st2.runs, st.runs);
        lemma_starts_with_trans(a.steps, st2.steps, st.steps);
        if i + 1 < s.len() && is_ident_text(s[i], "run"@) {
            assert(st2.runs =~= st.runs + parse_oper_list(group_content(s[i + 1]), (i + 1) as usize, 0)->Ok_0);
        }
        if i + 1 < s.len() && is_ident_text(s[i], "step"@) {
            reveal_strlit("run");
            reveal_strlit("step");
            reveal_strlit("context");
            reveal_strlit("error");
            assert("step"@.len() == 4 && "run"@.len() == 3);
            assert("step"@ != "run"@);
            assert(st2.steps =~= st.steps + parse_oper_list(group_content(s[i + 1]), (i + 1) as usize, 0)->Ok_0);
        }
    } else {
        let a = parse_args_from(s, i, st)->Ok_0;
        assert(a.runs.subrange(0, st.runs.len() as int) =~= st.runs);
        assert(a.steps.subrange(0, st.steps.len() as int) =~= st.steps);
    }
}

/// The `#[drive(..)]` argument grammar.
pub open spec fn parse_drive_args(s: Seq<Tok>) -> Result<DriveArgsV, ErrorV> {
    parse_args_from(
        s,
        0,
        ArgsSoFar { context: None, error: None, runs: Seq::empty(), steps: Seq::empty() },
    )
}

/// An operation's ranges lie inside its group of the arguments `s`.
pub open spec fn drive_oper_wf(s: Seq<Tok>, op: DriveOper) -> bool {
    &&& op.group < s.len()
    &&& s[op.group as int] is Group
    &&& (op.binder matches Some((a, z)) ==> a <= z <= group_content(s[op.group as int]).len())
    &&& op.oper.0 <= op.oper.1 <= group_content(s[op.group as int]).len()
}

pub open spec fn drive_opers_wf(s: Seq<Tok>, ops: Seq<DriveOper>) -> bool {
    forall|k: int| 0 <= k < ops.len() ==> drive_oper_wf(s, #[trigger] ops[k])
}

/// The parsed arguments fit the tokens they were parsed from.
pub open spec fn drive_args_wf(s: Seq<Tok>, a: DriveArgsV) -> bool {
    &&& (a.context matches Some((x, y)) ==> x <= y <= s.len())
    &&& a.error.0 <= a.error.1 <= s.len()
    &&& drive_opers_wf(s, a.runs)
    &&& drive_opers_wf(s, a.steps)
}

pub open spec fn so_far_wf(s: Seq<Tok>, st: ArgsSoFar) -> bool {
    &&& (st.context matches Some((x, y)) ==> x <= y <= s.len())
    &&& (st.error matches Some((x, y)) ==> x <= y <= s.len())
    &&& drive_opers_wf(s, st.runs)
    &&& drive_opers_wf(s, st.steps)
}

pub open spec fn drive_oper_result(r: Result<(DriveOper, usize), MacroError>) -> Result<(DriveOper, int), ErrorV> {
    match r {
        Ok((op, e)) => Ok((op, e as int)),
        Err(e) => Err(e@),
    }
}

fn parse_drive_oper_exec(c: &Vec<Tok>, g: usize, i: usize) -> (r: Result<(DriveOper, usize), MacroError>)
    requires
        i < c.len(),
    ensures
        drive_oper_result(r) == parse_drive_oper(c@, g, i as int),
        r matches Ok((op, e)) ==> i < e <= c.len() && op.oper.1 == e && op.group == g
            && op.oper.0 <= e && (op.binder matches Some((a, z)) ==> a <= z <= c.len()),
{
    if vec_at_ident_text(c, i, "for") {
        proof {
            lemma_first_from(i + 2, c@.len() as int, binder_closes_at(c@, i as int, false));
        }
        match find_binder_close(c, i, false) {
            None => {
                let (at, m) = binder_failure_exec(c, i, false);
                Err(input_error2(g, at, m.as_str()))
            },
            Some(j) => {
                proof {
                    lemma_first_from(
                        j + 2,
                        c@.len() + 1 as int,
                        type_ends_at(c@, j + 1, false),
                    );
                }
                match find_type_end(c, j + 1, false) {
                    None => {
                        let (at, m) = type_failure_exec(c, j + 1, ",");
                        Err(input_error2(g, at, m.as_str()))
                    },
                    Some(e) => Ok(
                        (DriveOper { group: g, binder: Some((i, j + 1)), oper: (j + 1, e) }, e),
                    ),
                }
            },
        }
    } else {
        proof {
            lemma_first_from(i + 1, c@.len() + 1 as int, type_ends_at(c@, i as int, false));
        }
        match find_type_end(c, i, false) {
            None => {
                let (at, m) = type_failure_exec(c, i, ",");
                Err(input_error2(g, at, m.as_str()))
            },
            Some(e) => Ok((DriveOper { group: g, binder: None, oper: (i, e) }, e)),
        }
    }
}

pub open spec fn oper_list_result(r: Result<Vec<DriveOper>, MacroError>) -> Result<Seq<DriveOper>, ErrorV> {
    match r {
        Ok(ops) => Ok(ops@),
        Err(e) => Err(e@),
    }
}

/// Parses the operation list inside the group at index `g` of `s`.
fn parse_oper_list_exec(s: &Vec<Tok>, g: usize) -> (r: Result<Vec<DriveOper>, MacroError>)
    requires
        g < s.len(),
        s@[g as int] is Group,
    ensures
        oper_list_result(r) == parse_oper_list(group_content(s@[g as int]), g, 0),
        r matches Ok(ops) ==> drive_opers_wf(s@, ops@),
{
    let c = match &s[g] {
        Tok::Group(_, v) => v,
        _ => {
            assert(false);
            return Ok(Vec::new());
        },
    };
    let mut ops: Vec<DriveOper> = Vec::new();
    let mut i: usize = 0;
    while i < c.len()
        invariant
            i <= c.len(),
            c@ == group_content(s@[g as int]),
            g < s.len(),
            s@[g as int] is Group,
            drive_opers_wf(s@, ops@),
            parse_oper_list(c@, g, 0) == match parse_oper_list(c@, g, i as int) {
                Err(e) => Err(e),
                Ok(rest) => Ok(ops@ + rest),
            },
        decreases c.len() - i,
    {
        match parse_drive_oper_exec(c, g, i) {
            Err(e) => {
                return Err(e);
            },
            Ok((op, e)) => {
                let ghost before = ops@;
                ops.push(op);
                if e >= c.len() {
                    assert(ops@ =~= before + seq![op]);
                    return Ok(ops);
                }
                if !tok_is_punct(&c[e], ',') {
                    return Err(input_error2(g, e, "expected `,`"));
                }
                proof {
                    match parse_oper_list(c@, g, e + 1) {
                        Ok(rest) => {
                            assert(before + (seq![op] + rest) =~= before.push(op) + rest);
                        },
                        Err(_) => {},
                    }
                }
                i = e + 1;
            },
        }
    }
    assert(ops@ + Seq::<DriveOper>::empty() =~= ops@);
    Ok(ops)
}

pub open spec fn args_result(r: Result<DriveArgs, MacroError>) -> Result<DriveArgsV, ErrorV> {
    match r {
        Ok(a) => Ok(a@),
        Err(e) => Err(e@),
    }
}

/// Parses the `#[drive(..)]` arguments.
pub fn parse_args(s: &Vec<Tok>) -> (r: Result<DriveArgs, MacroError>)
    ensures
        args_result(r) == parse_drive_args(s@),
        r matches Ok(a) ==> drive_args_wf(s@, a@),
{
    let mut context: Option<(usize, usize)> = None;
    let mut error: Option<(usize, usize)> = None;
    let mut runs: Vec<DriveOper> = Vec::new();
    let mut steps: Vec<DriveOper> = Vec::new();
    let mut i: usize = 0;
    while i < s.len()
        invariant
            i <= s.len(),
            so_far_wf(s@, ArgsSoFar { context, error, runs: runs@, steps: steps@ }),
            parse_drive_args(s@) == parse_args_from(
                s@,
                i as int,
                ArgsSoFar { context, error, runs: runs@, steps: steps@ },
            ),
        decreases s.len() - i,
    {
        let ghost st = ArgsSoFar { context, error, runs: runs@, steps: steps@ };
        if !check_ident(s, i) {
            return Err(input_error1(i, ident_message_exec(s, i).as_str()));
        }
        let is_context = vec_at_ident_text(s, i, "context");
        let is_error = vec_at_ident_text(s, i, "error");
        let is_run = vec_at_ident_text(s, i, "run");
        let is_step = vec_at_ident_text(s, i, "step");
        let j: usize;
        if is_context || is_error {
            if is_context && context.is_some() {
                return Err(input_error1(i, "duplicate `context` argument"));
            }
            if !is_context && error.is_some() {
                return Err(input_error1(i, "duplicate `error` argument"));
            }
            if !vec_at_punct(s, i + 1, '=') {
                return Err(input_error1(i + 1, "expected `=`"));
            }
            proof {
                lemma_first_from(i + 3, s@.len() + 1 as int, type_ends_at(s@, i + 2, false));
            }
            match find_type_end(s, i + 2, false) {
                None => {
                    let (at, m) = type_failure_exec(s, i + 2, ",");
                    return Err(input_error1(at, m.as_str()));
                },
                Some(e) => {
                    if is_context {
                        context = Some((i + 2, e));
                    } else {
                        error = Some((i + 2, e));
                    }
                    j = e;
                },
            }
        } else if is_run || is_step {
            if !(i + 1 < s.len() && tok_is_group(&s[i + 1], Delim::Paren)) {
                return Err(input_error1(i + 1, "expected parentheses"));
            }
            match parse_oper_list_exec(s, i + 1) {
                Err(e) => {
                    return Err(e);
                },
                Ok(ops) => {
                    let mut ops = ops;
                    let ghost o = ops@;
                    if is_run {
                        let ghost before = runs@;
                        runs.append(&mut ops);
                        assert(runs@ =~= before + o);
                    } else {
                        let ghost before = steps@;
                        steps.append(&mut ops);
                        assert(steps@ =~= before + o);
                    }
                    j = i + 2;
                },
            }
        } else {
            return Err(input_error1(i, "unsupported `drive` argument"));
        }
        assert(parse_arg(s@, i as int, st) == Ok::<(ArgsSoFar, int), ErrorV>(
            (ArgsSoFar { context, error, runs: runs@, steps: steps@ }, j as int),
        ));
        if j == s.len() {
            i = j;
        } else if vec_at_punct(s, j, ',') {
            i = j + 1;
        } else {
            return Err(input_error1(j, "expected `,`"));
        }
    }
    match error {
        None => Err(call_site_error("missing `error = Type` argument")),
        Some(e) => Ok(DriveArgs { context, error: e, runs, steps }),
    }
}

/// Where the parts of a trait item lie: the index of its name, of the `<`
/// and `>` of its generic parameters, the range of its supertraits (after
/// the `:`), the range of its where predicates (after `where`), and the
/// index of its braced body, which is its last token.
#[derive(Clone, Copy)]
pub struct TraitLayout {
    pub name: usize,
    pub generics: Option<(usize, usize)>,
    pub supertraits: Option<(usize, usize)>,
    pub preds: Option<(usize, usize)>,
    pub body: usize,
}

pub open spec fn ident_at(t: Seq<Tok>, text: Seq<char>) -> spec_fn(int) -> bool {
    |k: int| is_ident_text(t[k], text)
}

/// The parts of a trait item `t`: attributes and qualifiers, `trait`, the
/// name, generic parameters (the shortest `<...>` that `syn` parses as
/// generics), `: supertraits` up to `where` or the body, `where preds` up
/// to the body, and the braced body.
pub open spec fn trait_layout(t: Seq<Tok>) -> Option<TraitLayout> {
    if t.len() == 0 || !is_group(t.last(), Delim::Brace) {
        None
    } else {
        let body = t.len() - 1;
        match first_from(0, body, ident_at(t, "trait"@)) {
            None => None,
            Some(kw) => {
                let name = kw + 1;
                if !(name < body && is_ident(t[name])) {
                    None
                } else {
                    let gens = if at_punct(t, name + 1, '<') {
                        match generics_close(t, name + 1) {
                            None => None,
                            Some(gt) => Some((Some(((name + 1) as usize, gt as usize)), gt + 1)),
                        }
                    } else {
                        Some((None, name + 1))
                    };
                    match gens {
                        None => None,
                        Some((generics, next1)) => {
                            let sup_end = match first_from(next1 + 1, body, ident_at(t, "where"@)) {
                                Some(w) => w,
                                None => body,
                            };
                            let sup = if at_punct(t, next1, ':') {
                                Some(((next1 + 1) as usize, sup_end as usize))
                            } else {
                                None
                            };
                            let next2 = if at_punct(t, next1, ':') {
                                sup_end
                            } else {
                                next1
                            };
                            let preds = if at_ident_text(t, next2, "where"@) {
                                Some(((next2 + 1) as usize, body as usize))
                            } else {
                                None
                            };
                            let next3 = if at_ident_text(t, next2, "where"@) {
                                body
                            } else {
                                next2
                            };
                            if next3 == body {
                                Some(
                                    TraitLayout {
                                        name: name as usize,
                                        generics,
                                        supertraits: sup,
                                        preds,
                                        body: body as usize,
                                    },
                                )
                            } else {
                                None
                            }
                        },
                    }
                }
            },
        }
    }
}

/// The layout fits the item.
pub open spec fn layout_wf(t: Seq<Tok>, l: TraitLayout) -> bool {
    &&& l.body == t.len() - 1
    &&& is_group(t[l.body as int], Delim::Brace)
    &&& l.name < l.body
    &&& is_ident(t[l.name as int])
    &&& (l.generics matches Some((lt, gt)) ==> l.name < lt < gt < l.body)
    &&& (l.supertraits matches Some((a, z)) ==> l.name < a <= z <= l.body)
    &&& (l.preds matches Some((a, z)) ==> l.name < a <= z <= l.body)
}

/// Finds the first identifier `lit` in `t[lo..hi]`.
pub fn find_ident(t: &Vec<Tok>, lo: usize, hi: usize, lit: &str) -> (r: Option<usize>)
    requires
        hi <= t.len(),
    ensures
        crate::grammar::opt_usize(r) == first_from(lo as int, hi as int, ident_at(t@, lit@)),
{
    let mut k = lo;
    while k < hi
        invariant
            lo <= k,
            hi <= t.len(),
            first_from(lo as int, hi as int, ident_at(t@, lit@)) == first_from(
                k as int,
                hi as int,
                ident_at(t@, lit@),
            ),
        decreases hi - k,
    {
        if tok_is_ident_text(&t[k], lit) {
            return Some(k);
        }
        k = k + 1;
    }
    None
}

/// Finds the parts of the trait item `t`.
pub fn layout(t: &Vec<Tok>) -> (r: Option<TraitLayout>)
    ensures
        r == trait_layout(t@),
        r matches Some(l) ==> layout_wf(t@, l),
{
    if t.len() == 0 || !tok_is_group(&t[t.len() - 1], Delim::Brace) {
        return None;
    }
    let body = t.len() - 1;
    proof {
        lemma_first_from(0, body as int, ident_at(t@, "trait"@));
    }
    let kw = match find_ident(t, 0, body, "trait") {
        None => {
            return None;
        },
        Some(kw) => kw,
    };
    let name = kw + 1;
    if !(name < body && matches!(t[name], Tok::Ident(_))) {
        return None;
    }
    let generics: Option<(usize, usize)>;
    let next1: usize;
    if vec_at_punct(t, name + 1, '<') {
        proof {
            lemma_first_from(name + 2, t@.len() as int, generics_close_at(t@, name + 1));
        }
        match find_generics_close(t, name + 1) {
            None => {
                return None;
            },
            Some(gt) => {
                generics = Some((name + 1, gt));
                next1 = gt + 1;
            },
        }
    } else {
        generics = None;
        next1 = name + 1;
    }
    if next1 > body {
        return None;
    }
    let sup_end = match find_ident(t, next1 + 1, body, "where") {
        Some(w) => w,
        None => body,
    };
    proof {
        lemma_first_from(next1 + 1, body as int, ident_at(t@, "where"@));
    }
    let has_colon = vec_at_punct(t, next1, ':');
    let sup = if has_colon {
        Some((next1 + 1, sup_end))
    } else {
        None
    };
    let next2 = if has_colon {
        sup_end
    } else {
        next1
    };
    let has_where = vec_at_ident_text(t, next2, "where");
    let preds = if has_where {
        Some((next2 + 1, body))
    } else {
        None
    };
    let next3 = if has_where {
        body
    } else {
        next2
    };
    if next3 == body {
        Some(TraitLayout { name, generics, supertraits: sup, preds, body })
    } else {
        None
    }
}

/// A body that holds only inner attributes (`#![...]`), so no items.
pub open spec fn only_inner_attrs(c: Seq<Tok>) -> bool
    decreases c.len(),
{
    if c.len() == 0 {
        true
    } else if c.len() >= 3 && is_punct(c[0], '#') && is_punct(c[1], '!') && is_group(
        c[2],
        Delim::Bracket,
    ) {
        only_inner_attrs(c.skip(3))
    } else {
        false
    }
}

pub fn check_only_inner_attrs(c: &Vec<Tok>) -> (r: bool)
    ensures
        r == only_inner_attrs(c@),
{
    let mut i: usize = 0;
    assert(c@.skip(0) =~= c@);
    while i < c.len()
        invariant
            i <= c.len(),
            only_inner_attrs(c@) == only_inner_attrs(c@.skip(i as int)),
        decreases c.len() - i,
    {
        if c.len() - i >= 3 && tok_is_punct(&c[i], '#') && tok_is_punct(&c[i + 1], '!')
            && tok_is_group(&c[i + 2], Delim::Bracket) {
            assert(c@.skip(i as int).skip(3) =~= c@.skip(i + 3));
            i = i + 3;
        } else {
            return false;
        }
    }
    true
}

pub open spec fn oper_group(s: Seq<Tok>, op: DriveOper) -> Seq<Tok> {
    group_content(s[op.group as int])
}

/// An operation's `for<...>` binder, or nothing.
pub open spec fn binder_text(s: Seq<Tok>, op: DriveOper) -> Seq<char> {
    match op.binder {
        Some((a, z)) => render_range(oper_group(s, op), a as int, z as int),
        None => Seq::empty(),
    }
}

pub open spec fn drive_oper_text(s: Seq<Tok>, op: DriveOper) -> Seq<char> {
    render_range(oper_group(s, op), op.oper.0 as int, op.oper.1 as int)
}

/// `for<..> path::Run<Oper, Error = Err>`.
pub open spec fn run_bound(s: Seq<Tok>, op: DriveOper, orch: Seq<char>, err: Seq<char>) -> Seq<char> {
    binder_text(s, op) + orch + "::Run<"@ + drive_oper_text(s, op) + ", Error = "@ + err + ">"@
}

/// `for<..> path::Step<Oper, Ctx, Error = Err>`.
pub open spec fn step_bound(
    s: Seq<Tok>,
    op: DriveOper,
    orch: Seq<char>,
    ctx: Seq<char>,
    err: Seq<char>,
) -> Seq<char> {
    binder_text(s, op) + orch + "::Step<"@ + drive_oper_text(s, op) + ", "@ + ctx + ", Error = "@
        + err + ">"@
}

/// `for<..> path::LevelGuard<<Ctx as path::Context>::Level, <Who as path::Step<Oper, Ctx>>::Level>`:
/// the level the context provides covers the level `Who`'s step requires.
pub open spec fn level_bound(
    s: Seq<Tok>,
    op: DriveOper,
    orch: Seq<char>,
    ctx: Seq<char>,
    who: Seq<char>,
) -> Seq<char> {
    binder_text(s, op) + orch + "::LevelGuard< <"@ + ctx + " as "@ + orch + "::Context>::Level, <"@
        + who + " as "@ + orch + "::Step<"@ + drive_oper_text(s, op) + ", "@ + ctx
        + "> >::Level>"@
}

pub open spec fn run_bounds(s: Seq<Tok>, runs: Seq<DriveOper>, orch: Seq<char>, err: Seq<char>) -> Seq<Seq<char>> {
    Seq::new(runs.len(), |k: int| run_bound(s, runs[k], orch, err))
}

/// For each step, its `Step` bound and its level bound for `who`.
pub open spec fn step_bounds(
    s: Seq<Tok>,
    steps: Seq<DriveOper>,
    orch: Seq<char>,
    ctx: Seq<char>,
    err: Seq<char>,
    who: Seq<char>,
) -> Seq<Seq<char>>
    decreases steps.len(),
{
    if steps.len() == 0 {
        Seq::empty()
    } else {
        step_bounds(s, steps.drop_last(), orch, ctx, err, who) + seq![
            step_bound(s, steps.last(), orch, ctx, err),
            level_bound(s, steps.last(), orch, ctx, who),
        ]
    }
}

/// The bounds in the order in which they are built (and checked): each
/// run bound; then for each step its `Step` bound, its level bound for
/// `Self` and its level bound for `__DriveImpl`.
pub open spec fn built_bounds(
    s: Seq<Tok>,
    a: DriveArgsV,
    orch: Seq<char>,
    ctx: Seq<char>,
    err: Seq<char>,
) -> Seq<Seq<char>> {
    run_bounds(s, a.runs, orch, err) + step_checks(s, a.steps, orch, ctx, err)
}

pub open spec fn step_checks(
    s: Seq<Tok>,
    steps: Seq<DriveOper>,
    orch: Seq<char>,
    ctx: Seq<char>,
    err: Seq<char>,
) -> Seq<Seq<char>>
    decreases steps.len(),
{
    if steps.len() == 0 {
        Seq::empty()
    } else {
        step_checks(s, steps.drop_last(), orch, ctx, err) + seq![
            step_bound(s, steps.last(), orch, ctx, err),
            level_bound(s, steps.last(), orch, ctx, "Self"@),
            level_bound(s, steps.last(), orch, ctx, "__DriveImpl"@),
        ]
    }
}

/// `b0 + b1 + ...`.
pub open spec fn join_plus(bs: Seq<Seq<char>>) -> Seq<char>
    decreases bs.len(),
{
    if bs.len() == 0 {
        Seq::empty()
    } else if bs.len() == 1 {
        bs[0]
    } else {
        join_plus(bs.drop_last()) + " + "@ + bs.last()
    }
}

pub open spec fn bound_fails(bs: Seq<Seq<char>>) -> spec_fn(int) -> bool {
    |k: int| !parses_as_bound(bs[k])
}

pub open spec fn range_text(s: Seq<Tok>, r: Option<(usize, usize)>) -> Seq<char> {
    match r {
        Some((a, z)) => render_range(s, a as int, z as int),
        None => Seq::empty(),
    }
}

pub open spec fn range_nonempty(r: Option<(usize, usize)>) -> bool {
    r matches Some((a, z)) && a < z
}

/// The range holds tokens and its last token is the punctuation `c`.
pub open spec fn range_trails(t: Seq<Tok>, r: Option<(usize, usize)>, c: char) -> bool {
    r matches Some((a, z)) && a < z && is_punct(t[z - 1], c)
}

/// `Ctx: path::Context`.
pub open spec fn context_pred(ctx: Seq<char>, orch: Seq<char>) -> Seq<char> {
    ctx + ": "@ + orch + "::Context"@
}

/// The trait's where predicates, with `Ctx: path::Context` pushed when
/// there is a context (after a comma unless the list is empty or already
/// ends with one).
pub open spec fn new_preds(t: Seq<Tok>, l: TraitLayout, ctx: Option<Seq<char>>, orch: Seq<char>) -> Seq<char> {
    match ctx {
        Some(c) => range_text(t, l.preds) + (if range_nonempty(l.preds) && !range_trails(
            t,
            l.preds,
            ',',
        ) {
            ", "@
        } else {
            Seq::empty()
        }) + context_pred(c, orch),
        None => range_text(t, l.preds),
    }
}

pub open spec fn new_preds_nonempty(l: TraitLayout, ctx: Option<Seq<char>>) -> bool {
    ctx is Some || range_nonempty(l.preds)
}

pub open spec fn new_preds_trailing(t: Seq<Tok>, l: TraitLayout, ctx: Option<Seq<char>>) -> bool {
    ctx is None && range_trails(t, l.preds, ',')
}

/// The trait item again, with the new supertraits appended (after a `+`
/// unless there were none or the list already ends with one) and the
/// where clause printed when it has predicates.
pub open spec fn item_text(
    t: Seq<Tok>,
    l: TraitLayout,
    ctx: Option<Seq<char>>,
    orch: Seq<char>,
    trait_bounds: Seq<Seq<char>>,
) -> Seq<char> {
    render_range(t, 0, l.name + 1) + range_text(
        t,
        match l.generics {
            Some((lt, gt)) => Some((lt, (gt + 1) as usize)),
            None => None,
        },
    ) + ": "@ + range_text(t, l.supertraits) + (if range_nonempty(l.supertraits) && !range_trails(
        t,
        l.supertraits,
        '+',
    ) {
        "+ "@
    } else {
        Seq::empty()
    }) + join_plus(trait_bounds) + (if new_preds_nonempty(l, ctx) {
        " where "@ + new_preds(t, l, ctx, orch)
    } else {
        Seq::empty()
    }) + " "@ + render_tok(t[l.body as int])
}

proof fn lemma_join_plus_starts(bs: Seq<Seq<char>>)
    requires
        bs.len() > 0,
    ensures
        bs[0].len() <= join_plus(bs).len(),
        join_plus(bs) =~= bs[0] + join_plus(bs).subrange(bs[0].len() as int, join_plus(bs).len() as int),
    decreases bs.len(),
{
    if bs.len() > 1 {
        lemma_join_plus_starts(bs.drop_last());
        assert(bs.drop_last()[0] == bs[0]);
    }
}

/// The supertraits of the emitted trait: the trait's own supertraits
/// `a..z` are followed by exactly one `+` (theirs, when they end with one,
/// else a new one) and then the first added bound.
pub proof fn lemma_supertraits_then_plus(
    t: Seq<Tok>,
    l: TraitLayout,
    ctx: Option<Seq<char>>,
    orch: Seq<char>,
    bs: Seq<Seq<char>>,
    a: usize,
    z: usize,
)
    requires
        l.supertraits == Some((a, z)),
        a < z,
        bs.len() > 0,
    ensures
        !is_punct(t[z - 1], '+') ==> holds_text(
            item_text(t, l, ctx, orch, bs),
            render_range(t, a as int, z as int) + "+ "@ + bs[0],
        ),
        is_punct(t[z - 1], '+') ==> holds_text(
            item_text(t, l, ctx, orch, bs),
            render_range(t, a as int, z as int) + bs[0],
        ),
{
    lemma_join_plus_starts(bs);
    let j = join_plus(bs);
    let rest = j.subrange(bs[0].len() as int, j.len() as int);
    let own = render_range(t, a as int, z as int);
    let sep: Seq<char> = if !is_punct(t[z - 1], '+') {
        "+ "@
    } else {
        Seq::empty()
    };
    let front = render_range(t, 0, l.name + 1) + range_text(
        t,
        match l.generics {
            Some((lt, gt)) => Some((lt, (gt + 1) as usize)),
            None => None,
        },
    ) + ": "@;
    let back = rest + (if new_preds_nonempty(l, ctx) {
        " where "@ + new_preds(t, l, ctx, orch)
    } else {
        Seq::empty()
    }) + " "@ + render_tok(t[l.body as int]);
    let piece = own + sep + bs[0];
    assert(item_text(t, l, ctx, orch, bs) =~= front + piece + back);
    lemma_contains_self(piece);
    lemma_contains_concat(front, piece, back, piece);
    assert(sep == Seq::<char>::empty() ==> piece =~= own + bs[0]);
}

/// The where clause that `#[drive]` writes when there is a context `c`:
/// the trait's own predicates `a..z`, a comma (theirs, when they end with
/// one, else a new one), then `Ctx: path::Context`.
pub open spec fn context_clause(t: Seq<Tok>, a: usize, z: usize, c: Seq<char>, orch: Seq<char>) -> Seq<char> {
    render_range(t, a as int, z as int) + (if is_punct(t[z - 1], ',') {
        Seq::empty()
    } else {
        ", "@
    }) + c + ": "@ + orch + "::Context"@
}

proof fn lemma_new_preds_clause(t: Seq<Tok>, l: TraitLayout, c: Seq<char>, orch: Seq<char>, a: usize, z: usize)
    requires
        l.preds == Some((a, z)),
        a < z,
    ensures
        new_preds(t, l, Some(c), orch) == context_clause(t, a, z, c, orch),
{
    assert(new_preds(t, l, Some(c), orch) =~= context_clause(t, a, z, c, orch));
}

/// With a context, the where clause of the emitted trait lists the
/// trait's own predicates, a comma, then `Ctx: path::Context`.
pub proof fn lemma_trait_context_after_a_comma(
    t: Seq<Tok>,
    l: TraitLayout,
    c: Seq<char>,
    orch: Seq<char>,
    bs: Seq<Seq<char>>,
    a: usize,
    z: usize,
)
    requires
        l.preds == Some((a, z)),
        a < z,
    ensures
        holds_text(item_text(t, l, Some(c), orch, bs), " where "@ + context_clause(t, a, z, c, orch)),
{
    lemma_new_preds_clause(t, l, c, orch, a, z);
    let w = " where "@ + context_clause(t, a, z, c, orch);
    let front = render_range(t, 0, l.name + 1) + range_text(
        t,
        match l.generics {
            Some((lt, gt)) => Some((lt, (gt + 1) as usize)),
            None => None,
        },
    ) + ": "@ + range_text(t, l.supertraits) + (if range_nonempty(l.supertraits) && !range_trails(
        t,
        l.supertraits,
        '+',
    ) {
        "+ "@
    } else {
        Seq::empty()
    }) + join_plus(bs);
    let back = " "@ + render_tok(t[l.body as int]);
    assert(item_text(t, l, Some(c), orch, bs) =~= front + w + back);
    lemma_contains_self(w);
    lemma_contains_concat(front, w, back, w);
}

/// With a context, the where clause of the blanket impl starts with the
/// trait's own predicates, a comma, then `Ctx: path::Context`.
pub proof fn lemma_impl_context_after_a_comma(
    t: Seq<Tok>,
    l: TraitLayout,
    c: Seq<char>,
    orch: Seq<char>,
    ig: Seq<char>,
    tg: Seq<char>,
    ib: Seq<Seq<char>>,
    bs: Seq<Seq<char>>,
    a: usize,
    z: usize,
)
    requires
        l.preds == Some((a, z)),
        a < z,
    ensures
        holds_text(
            impl_text(t, l, Some(c), orch, ig, tg, ib, bs),
            " for __DriveImpl where "@ + context_clause(t, a, z, c, orch),
        ),
{
    lemma_new_preds_clause(t, l, c, orch, a, z);
    let w = " for __DriveImpl where "@ + context_clause(t, a, z, c, orch);
    let front = "impl "@ + ig + " "@ + ident_text(t[l.name as int]) + " "@ + tg;
    let back = ", "@ + "__DriveImpl: "@ + join_plus(ib) + own_supertraits(t, l) + " + "@ + join_plus(
        bs,
    ) + " {}"@;
    assert(impl_text(t, l, Some(c), orch, ig, tg, ib, bs) =~= front + w + back);
    lemma_contains_self(w);
    lemma_contains_concat(front, w, back, w);
}

/// The blanket impl that `#[drive]` emits implements the trait, with the
/// trait's own type generics, for `__DriveImpl` under the trait's generic
/// parameters with `__DriveImpl` in front, both as `syn`'s
/// `split_for_impl` gives them.
pub proof fn lemma_drive_impl_generics(s: Seq<Tok>, t: Seq<Tok>, a: DriveArgsV, l: TraitLayout, orch: Seq<char>)
    requires
        drive_finish(s, t, a, l, orch) is Ok,
    ensures
        ({
            let with_impl = match l.generics {
                Some((lt, gt)) => "<__DriveImpl, "@ + render_range(t, lt + 1, gt as int) + ">"@,
                None => "<__DriveImpl>"@,
            };
            let own = match l.generics {
                Some((lt, gt)) => render_range(t, lt as int, gt + 1),
                None => Seq::empty(),
            };
            &&& generics_split(with_impl) is Some
            &&& generics_split(own) is Some
            &&& holds_text(
                drive_finish(s, t, a, l, orch)->Ok_0,
                "impl "@ + render_seq(generics_split(with_impl)->Some_0.0) + " "@ + ident_text(
                    t[l.name as int],
                ) + " "@ + render_seq(generics_split(own)->Some_0.1) + " for __DriveImpl where "@,
            )
        }),
{
    let ig = render_seq(generics_split(impl_generics_input(t, l))->Some_0.0);
    let tg = render_seq(generics_split(generics_text(t, l))->Some_0.1);
    let ctx = match a.context {
        Some(r) => Some(range_text(s, Some(r))),
        None => None,
    };
    let c = range_text(s, a.context);
    let err = range_text(s, Some(a.error));
    let runs = run_bounds(s, a.runs, orch, err);
    let trait_bounds = runs + step_bounds(s, a.steps, orch, c, err, "Self"@);
    let impl_bounds = runs + step_bounds(s, a.steps, orch, c, err, "__DriveImpl"@);
    let it = impl_text(t, l, ctx, orch, ig, tg, impl_bounds, trait_bounds);
    let head = "impl "@ + ig + " "@ + ident_text(t[l.name as int]) + " "@ + tg + " for __DriveImpl where "@;
    lemma_impl_text_head(t, l, ctx, orch, ig, tg, impl_bounds, trait_bounds);
    let front = item_text(t, l, ctx, orch, trait_bounds) + " "@;
    assert(drive_finish(s, t, a, l, orch)->Ok_0 == front + it);
    lemma_contains_concat(front, it, Seq::empty(), head);
    assert(front + it + Seq::<char>::empty() =~= front + it);
}

proof fn lemma_impl_text_head(
    t: Seq<Tok>,
    l: TraitLayout,
    ctx: Option<Seq<char>>,
    orch: Seq<char>,
    ig: Seq<char>,
    tg: Seq<char>,
    ib: Seq<Seq<char>>,
    bs: Seq<Seq<char>>,
)
    ensures
        holds_text(
            impl_text(t, l, ctx, orch, ig, tg, ib, bs),
            "impl "@ + ig + " "@ + ident_text(t[l.name as int]) + " "@ + tg + " for __DriveImpl where "@,
        ),
{
    let head = "impl "@ + ig + " "@ + ident_text(t[l.name as int]) + " "@ + tg + " for __DriveImpl where "@;
    let back = new_preds(t, l, ctx, orch) + (if new_preds_nonempty(l, ctx) && !new_preds_trailing(
        t,
        l,
        ctx,
    ) {
        ", "@
    } else {
        Seq::empty()
    }) + "__DriveImpl: "@ + join_plus(ib) + own_supertraits(t, l) + " + "@ + join_plus(bs) + " {}"@;
    assert(impl_text(t, l, ctx, orch, ig, tg, ib, bs) =~= Seq::empty() + head + back);
    lemma_contains_self(head);
    lemma_contains_concat(Seq::empty(), head, back, head);
}

proof fn lemma_join_plus_holds(bs: Seq<Seq<char>>, k: int)
    requires
        0 <= k < bs.len(),
    ensures
        holds_text(join_plus(bs), bs[k]),
    decreases bs.len(),
{
    if bs.len() == 1 {
        lemma_contains_self(bs[0]);
        lemma_contains_concat(Seq::empty(), bs[0], Seq::empty(), bs[0]);
        assert(Seq::<char>::empty() + bs[0] + Seq::<char>::empty() =~= bs[0]);
    } else if k == bs.len() - 1 {
        lemma_contains_self(bs[k]);
        lemma_contains_concat(join_plus(bs.drop_last()) + " + "@, bs[k], Seq::empty(), bs[k]);
        assert(join_plus(bs.drop_last()) + " + "@ + bs[k] + Seq::<char>::empty() =~= join_plus(bs));
    } else {
        lemma_join_plus_holds(bs.drop_last(), k);
        assert(bs.drop_last()[k] == bs[k]);
        lemma_contains_concat(Seq::empty(), join_plus(bs.drop_last()), " + "@ + bs.last(), bs[k]);
        assert(Seq::<char>::empty() + join_plus(bs.drop_last()) + (" + "@ + bs.last()) =~= join_plus(bs));
    }
}

/// Every bound that `#[drive]` adds stands in the emitted trait's
/// supertraits.
pub proof fn lemma_trait_holds_every_bound(
    t: Seq<Tok>,
    l: TraitLayout,
    ctx: Option<Seq<char>>,
    orch: Seq<char>,
    bs: Seq<Seq<char>>,
    k: int,
)
    requires
        0 <= k < bs.len(),
    ensures
        holds_text(item_text(t, l, ctx, orch, bs), bs[k]),
{
    lemma_join_plus_holds(bs, k);
    let front = render_range(t, 0, l.name + 1) + range_text(
        t,
        match l.generics {
            Some((lt, gt)) => Some((lt, (gt + 1) as usize)),
            None => None,
        },
    ) + ": "@ + range_text(t, l.supertraits) + (if range_nonempty(l.supertraits) && !range_trails(
        t,
        l.supertraits,
        '+',
    ) {
        "+ "@
    } else {
        Seq::empty()
    });
    let back = (if new_preds_nonempty(l, ctx) {
        " where "@ + new_preds(t, l, ctx, orch)
    } else {
        Seq::empty()
    }) + " "@ + render_tok(t[l.body as int]);
    assert(item_text(t, l, ctx, orch, bs) =~= front + join_plus(bs) + back);
    lemma_contains_concat(front, join_plus(bs), back, bs[k]);
}

/// The trait's own supertraits without a trailing `+`, after ` + `; or
/// nothing.
pub open spec fn own_supertraits(t: Seq<Tok>, l: TraitLayout) -> Seq<char> {
    match l.supertraits {
        Some((a, z)) => if a < z {
            " + "@ + (if is_punct(t[z - 1], '+') {
                render_range(t, a as int, z - 1)
            } else {
                render_range(t, a as int, z as int)
            })
        } else {
            Seq::empty()
        },
        None => Seq::empty(),
    }
}

/// The blanket impl: every type that meets the impl bounds, the trait's
/// own supertraits and the new supertraits implements the trait.
pub open spec fn impl_text(
    t: Seq<Tok>,
    l: TraitLayout,
    ctx: Option<Seq<char>>,
    orch: Seq<char>,
    impl_generics: Seq<char>,
    type_generics: Seq<char>,
    impl_bounds: Seq<Seq<char>>,
    trait_bounds: Seq<Seq<char>>,
) -> Seq<char> {
    "impl "@ + impl_generics + " "@ + ident_text(t[l.name as int]) + " "@ + type_generics
        + " for __DriveImpl where "@ + new_preds(t, l, ctx, orch) + (if new_preds_nonempty(l, ctx)
        && !new_preds_trailing(t, l, ctx) {
        ", "@
    } else {
        Seq::empty()
    }) + "__DriveImpl: "@ + join_plus(impl_bounds) + own_supertraits(t, l) + " + "@ + join_plus(
        trait_bounds,
    ) + " {}"@
}

/// The text `syn` splits for the impl's generics: the trait's parameters
/// with `__DriveImpl` in front.
pub open spec fn impl_generics_input(t: Seq<Tok>, l: TraitLayout) -> Seq<char> {
    match l.generics {
        Some((lt, gt)) => "<__DriveImpl, "@ + render_range(t, lt + 1, gt as int) + ">"@,
        None => "<__DriveImpl>"@,
    }
}

/// The trait's generic parameters `<...>`, or nothing.
pub open spec fn generics_text(t: Seq<Tok>, l: TraitLayout) -> Seq<char> {
    match l.generics {
        Some((lt, gt)) => render_range(t, lt as int, gt + 1),
        None => Seq::empty(),
    }
}

pub open spec fn item_err(i: int, message: Seq<char>) -> ErrorV {
    err_v(SiteV::Item(seq![i as usize]), message)
}

/// The checks on the item: `syn` parses it as a trait, it has no items,
/// the arguments name at least one operation, and a context when they name
/// steps. On success, the item's layout.
pub open spec fn drive_checks(t: Seq<Tok>, a: DriveArgsV) -> Result<TraitLayout, ErrorV> {
    if trait_error(render_seq(t)) is Some {
        Err(item_err(0, trait_error(render_seq(t))->Some_0))
    } else {
        match trait_layout(t) {
            None => Err(item_err(0, "expected trait item"@)),
            Some(l) => if !only_inner_attrs(group_content(t[l.body as int])) {
                Err(item_err(0, "`#[drive]` only supports empty aggregate traits"@))
            } else if a.runs.len() == 0 && a.steps.len() == 0 {
                Err(item_err(l.name as int, "`#[drive]` requires at least one operation"@))
            } else if a.steps.len() > 0 && a.context is None {
                Err(item_err(l.name as int, "`context = ...` is required for `step(...)`"@))
            } else {
                Ok(l)
            },
        }
    }
}

/// The modified trait followed by its blanket impl, with `ig` and `tg` the
/// impl generics and the type generics that `syn` printed.
pub open spec fn drive_text(
    s: Seq<Tok>,
    t: Seq<Tok>,
    a: DriveArgsV,
    l: TraitLayout,
    orch: Seq<char>,
    ig: Seq<char>,
    tg: Seq<char>,
) -> Seq<char> {
    let ctx = match a.context {
        Some(r) => Some(range_text(s, Some(r))),
        None => None,
    };
    let c = range_text(s, a.context);
    let err = range_text(s, Some(a.error));
    let runs = run_bounds(s, a.runs, orch, err);
    let trait_bounds = runs + step_bounds(s, a.steps, orch, c, err, "Self"@);
    let impl_bounds = runs + step_bounds(s, a.steps, orch, c, err, "__DriveImpl"@);
    item_text(t, l, ctx, orch, trait_bounds) + " "@ + impl_text(
        t,
        l,
        ctx,
        orch,
        ig,
        tg,
        impl_bounds,
        trait_bounds,
    )
}

/// The expansion once the path `orch` of this crate is known: `syn`'s
/// error when it refuses the context predicate or one of the built bounds
/// (the first in order), an error when it refuses the generics, else the
/// modified trait and its blanket impl, whose generics are those that
/// `split_for_impl` gives: the trait's parameters with `__DriveImpl` in
/// front for the impl, and the trait's own for the trait it implements.
pub open spec fn drive_finish(
    s: Seq<Tok>,
    t: Seq<Tok>,
    a: DriveArgsV,
    l: TraitLayout,
    orch: Seq<char>,
) -> Result<Seq<char>, ErrorV> {
    let c = range_text(s, a.context);
    let err = range_text(s, Some(a.error));
    let checks = built_bounds(s, a, orch, c, err);
    if a.context is Some && where_predicate_error(context_pred(c, orch)) is Some {
        Err(err_v(SiteV::CallSite, where_predicate_error(context_pred(c, orch))->Some_0))
    } else if first_from(0, checks.len() as int, bound_fails(checks)) is Some {
        Err(
            err_v(
                SiteV::CallSite,
                bound_error(checks[first_from(0, checks.len() as int, bound_fails(checks))->Some_0])->Some_0,
            ),
        )
    } else {
        match (generics_split(impl_generics_input(t, l)), generics_split(generics_text(t, l))) {
            (Some((ig, _)), Some((_, tg))) => Ok(
                drive_text(s, t, a, l, orch, render_seq(ig), render_seq(tg)),
            ),
            _ => Err(item_err(0, "expected generics"@)),
        }
    }
}

/// `#[drive(..)]` once its arguments `a` are parsed: the checks on the
/// item `t`, then the path of this crate (or the error of looking it up),
/// then the expansion.
pub open spec fn drive_expansion(
    s: Seq<Tok>,
    t: Seq<Tok>,
    a: DriveArgsV,
    path: Result<Seq<char>, ErrorV>,
) -> Result<Seq<char>, ErrorV> {
    match drive_checks(t, a) {
        Err(e) => Err(e),
        Ok(l) => match path {
            Err(e) => Err(e),
            Ok(orch) => drive_finish(s, t, a, l, orch),
        },
    }
}

/// `#[drive(..)]` on the arguments `s` and the item `t`, with `path` the
/// path of this crate or the error of looking it up.
pub open spec fn drive_spec(s: Seq<Tok>, t: Seq<Tok>, path: Result<Seq<char>, ErrorV>) -> Result<
    Seq<char>,
    ErrorV,
> {
    match parse_drive_args(s) {
        Err(e) => Err(e),
        Ok(a) => drive_expansion(s, t, a, path),
    }
}

fn binder_text_into(s: &Vec<Tok>, op: &DriveOper, out: &mut String)
    requires
        drive_oper_wf(s@, *op),
    ensures
        final(out)@ == old(out)@ + binder_text(s@, *op),
{
    match op.binder {
        Some((a, z)) => {
            let c = crate::token::group_at(s, op.group);
            crate::token::render_range_into(c, a, z, out);
        },
        None => {
            assert(old(out)@ + binder_text(s@, *op) =~= old(out)@);
        },
    }
}

fn oper_text_of(s: &Vec<Tok>, op: &DriveOper) -> (r: String)
    requires
        drive_oper_wf(s@, *op),
    ensures
        r@ == drive_oper_text(s@, *op),
{
    let c = crate::token::group_at(s, op.group);
    render_text(c, op.oper.0, op.oper.1)
}

fn run_bound_exec(s: &Vec<Tok>, op: &DriveOper, orch: &String, err: &String) -> (r: String)
    requires
        drive_oper_wf(s@, *op),
    ensures
        r@ == run_bound(s@, *op, orch@, err@),
{
    let oper = oper_text_of(s, op);
    let mut out = String::new();
    binder_text_into(s, op, &mut out);
    out.append(orch.as_str());
    out.append("::Run<");
    out.append(oper.as_str());
    out.append(", Error = ");
    out.append(err.as_str());
    out.append(">");
    assert(out@ =~= run_bound(s@, *op, orch@, err@));
    out
}

fn step_bound_exec(s: &Vec<Tok>, op: &DriveOper, orch: &String, ctx: &String, err: &String) -> (r: String)
    requires
        drive_oper_wf(s@, *op),
    ensures
        r@ == step_bound(s@, *op, orch@, ctx@, err@),
{
    let oper = oper_text_of(s, op);
    let mut out = String::new();
    binder_text_into(s, op, &mut out);
    out.append(orch.as_str());
    out.append("::Step<");
    out.append(oper.as_str());
    out.append(", ");
    out.append(ctx.as_str());
    out.append(", Error = ");
    out.append(err.as_str());
    out.append(">");
    assert(out@ =~= step_bound(s@, *op, orch@, ctx@, err@));
    out
}

fn level_bound_exec(s: &Vec<Tok>, op: &DriveOper, orch: &String, ctx: &String, who: &str) -> (r: String)
    requires
        drive_oper_wf(s@, *op),
    ensures
        r@ == level_bound(s@, *op, orch@, ctx@, who@),
{
    let oper = oper_text_of(s, op);
    let mut out = String::new();
    binder_text_into(s, op, &mut out);
    out.append(orch.as_str());
    out.append("::LevelGuard< <");
    out.append(ctx.as_str());
    out.append(" as ");
    out.append(orch.as_str());
    out.append("::Context>::Level, <");
    out.append(who);
    out.append(" as ");
    out.append(orch.as_str());
    out.append("::Step<");
    out.append(oper.as_str());
    out.append(", ");
    out.append(ctx.as_str());
    out.append("> >::Level>");
    assert(out@ =~= level_bound(s@, *op, orch@, ctx@, who@));
    out
}

fn run_bounds_exec(s: &Vec<Tok>, runs: &Vec<DriveOper>, orch: &String, err: &String) -> (r: Vec<String>)
    requires
        drive_opers_wf(s@, runs@),
    ensures
        texts(r@) == run_bounds(s@, runs@, orch@, err@),
{
    let mut out: Vec<String> = Vec::new();
    let mut k: usize = 0;
    while k < runs.len()
        invariant
            k <= runs.len(),
            drive_opers_wf(s@, runs@),
            texts(out@) =~= run_bounds(s@, runs@.take(k as int), orch@, err@),
        decreases runs.len() - k,
    {
        assert(drive_oper_wf(s@, runs@[k as int]));
        let b = run_bound_exec(s, &runs[k], orch, err);
        let ghost before = out@;
        out.push(b);
        assert(texts(out@) =~= texts(before).push(b@));
        assert(run_bounds(s@, runs@.take(k + 1), orch@, err@) =~= run_bounds(
            s@,
            runs@.take(k as int),
            orch@,
            err@,
        ).push(b@));
        k = k + 1;
    }
    assert(runs@.take(runs.len() as int) =~= runs@);
    out
}

fn step_bounds_exec(
    s: &Vec<Tok>,
    steps: &Vec<DriveOper>,
    orch: &String,
    ctx: &String,
    err: &String,
    who: &str,
) -> (r: Vec<String>)
    requires
        drive_opers_wf(s@, steps@),
    ensures
        texts(r@) == step_bounds(s@, steps@, orch@, ctx@, err@, who@),
{
    let mut out: Vec<String> = Vec::new();
    let mut k: usize = 0;
    while k < steps.len()
        invariant
            k <= steps.len(),
            drive_opers_wf(s@, steps@),
            texts(out@) =~= step_bounds(s@, steps@.take(k as int), orch@, ctx@, err@, who@),
        decreases steps.len() - k,
    {
        assert(drive_oper_wf(s@, steps@[k as int]));
        let b1 = step_bound_exec(s, &steps[k], orch, ctx, err);
        let b2 = level_bound_exec(s, &steps[k], orch, ctx, who);
        out.push(b1);
        out.push(b2);
        assert(steps@.take(k + 1).drop_last() =~= steps@.take(k as int));
        k = k + 1;
    }
    assert(steps@.take(steps.len() as int) =~= steps@);
    out
}

fn step_checks_exec(s: &Vec<Tok>, steps: &Vec<DriveOper>, orch: &String, ctx: &String, err: &String) -> (r: Vec<String>)
    requires
        drive_opers_wf(s@, steps@),
    ensures
        texts(r@) == step_checks(s@, steps@, orch@, ctx@, err@),
{
    let mut out: Vec<String> = Vec::new();
    let mut k: usize = 0;
    while k < steps.len()
        invariant
            k <= steps.len(),
            drive_opers_wf(s@, steps@),
            texts(out@) =~= step_checks(s@, steps@.take(k as int), orch@, ctx@, err@),
        decreases steps.len() - k,
    {
        assert(drive_oper_wf(s@, steps@[k as int]));
        let b1 = step_bound_exec(s, &steps[k], orch, ctx, err);
        let b2 = level_bound_exec(s, &steps[k], orch, ctx, "Self");
        let b3 = level_bound_exec(s, &steps[k], orch, ctx, "__DriveImpl");
        out.push(b1);
        out.push(b2);
        out.push(b3);
        assert(steps@.take(k + 1).drop_last() =~= steps@.take(k as int));
        k = k + 1;
    }
    assert(steps@.take(steps.len() as int) =~= steps@);
    out
}

/// `b0 + b1 + ...` of the texts of `bs`.
fn join_plus_exec(bs: &Vec<String>) -> (r: String)
    ensures
        r@ == join_plus(texts(bs@)),
{
    if bs.len() == 0 {
        return String::new();
    }
    let mut out = bs[0].clone();
    let mut k: usize = 1;
    assert(texts(bs@).take(1) =~= seq![bs@[0]@]);
    while k < bs.len()
        invariant
            1 <= k <= bs.len(),
            out@ == join_plus(texts(bs@).take(k as int)),
        decreases bs.len() - k,
    {
        out.append(" + ");
        out.append(bs[k].as_str());
        assert(texts(bs@).take(k + 1).drop_last() =~= texts(bs@).take(k as int));
        k = k + 1;
    }
    assert(texts(bs@).take(bs.len() as int) =~= texts(bs@));
    out
}

/// Whether `syn` accepts every text of `bs` as a bound.
/// The message of `syn`'s error on the first bound it refuses, if any.
fn first_bound_error(bs: &Vec<String>) -> (r: Option<String>)
    ensures
        match first_from(0, bs@.len() as int, bound_fails(texts(bs@))) {
            None => r is None,
            Some(k) => opt_text(r) == bound_error(texts(bs@)[k]),
        },
{
    let mut k: usize = 0;
    while k < bs.len()
        invariant
            k <= bs.len(),
            first_from(0, bs@.len() as int, bound_fails(texts(bs@))) == first_from(
                k as int,
                bs@.len() as int,
                bound_fails(texts(bs@)),
            ),
        decreases bs.len() - k,
    {
        let e = bound_check(bs[k].as_str());
        if e.is_some() {
            return e;
        }
        k = k + 1;
    }
    None
}

fn concat_strings(a: Vec<String>, b: Vec<String>) -> (r: Vec<String>)
    ensures
        texts(r@) == texts(a@) + texts(b@),
{
    let mut a = a;
    let mut b = b;
    let ghost av = a@;
    let ghost bv = b@;
    a.append(&mut b);
    assert(a@ =~= av + bv);
    assert(texts(a@) =~= texts(av) + texts(bv));
    a
}

pub open spec fn range_ok(n: int, r: Option<(usize, usize)>) -> bool {
    r matches Some((a, z)) ==> a <= z <= n
}

fn range_text_into(t: &Vec<Tok>, r: Option<(usize, usize)>, out: &mut String)
    requires
        range_ok(t@.len() as int, r),
    ensures
        final(out)@ == old(out)@ + range_text(t@, r),
{
    match r {
        Some((a, z)) => crate::token::render_range_into(t, a, z, out),
        None => {
            assert(old(out)@ + range_text(t@, r) =~= old(out)@);
        },
    }
}

fn range_trails_exec(t: &Vec<Tok>, r: Option<(usize, usize)>, c: char) -> (b: bool)
    requires
        range_ok(t@.len() as int, r),
    ensures
        b == range_trails(t@, r, c),
{
    match r {
        Some((a, z)) => a < z && tok_is_punct(&t[z - 1], c),
        None => false,
    }
}

fn range_nonempty_exec(r: Option<(usize, usize)>) -> (b: bool)
    ensures
        b == range_nonempty(r),
{
    match r {
        Some((a, z)) => a < z,
        None => false,
    }
}

fn new_preds_exec(t: &Vec<Tok>, l: &TraitLayout, ctx: &Option<String>, orch: &String) -> (r: String)
    requires
        layout_wf(t@, *l),
    ensures
        r@ == new_preds(t@, *l, opt_text(*ctx), orch@),
{
    let mut out = String::new();
    range_text_into(t, l.preds, &mut out);
    match ctx {
        Some(c) => {
            if range_nonempty_exec(l.preds) && !range_trails_exec(t, l.preds, ',') {
                out.append(", ");
            }
            let ghost mid = out@;
            out.append(c.as_str());
            out.append(": ");
            out.append(orch.as_str());
            out.append("::Context");
            assert(out@ =~= mid + context_pred(c@, orch@));
        },
        None => {},
    }
    assert(out@ =~= new_preds(t@, *l, opt_text(*ctx), orch@));
    out
}

fn item_text_exec(
    t: &Vec<Tok>,
    l: &TraitLayout,
    ctx: &Option<String>,
    orch: &String,
    trait_bounds: &Vec<String>,
) -> (r: String)
    requires
        layout_wf(t@, *l),
    ensures
        r@ == item_text(t@, *l, opt_text(*ctx), orch@, texts(trait_bounds@)),
{
    let mut out = String::new();
    crate::token::render_range_into(t, 0, l.name + 1, &mut out);
    let gens = match l.generics {
        Some((lt, gt)) => Some((lt, gt + 1)),
        None => None,
    };
    range_text_into(t, gens, &mut out);
    out.append(": ");
    range_text_into(t, l.supertraits, &mut out);
    if range_nonempty_exec(l.supertraits) && !range_trails_exec(t, l.supertraits, '+') {
        out.append("+ ");
    }
    let joined = join_plus_exec(trait_bounds);
    out.append(joined.as_str());
    let nonempty = ctx.is_some() || range_nonempty_exec(l.preds);
    if nonempty {
        let preds = new_preds_exec(t, l, ctx, orch);
        let ghost mid = out@;
        out.append(" where ");
        out.append(preds.as_str());
        assert(out@ =~= mid + (" where "@ + preds@));
    }
    out.append(" ");
    crate::token::render_tok_into(&t[l.body], &mut out);
    assert(out@ =~= item_text(t@, *l, opt_text(*ctx), orch@, texts(trait_bounds@)));
    out
}

fn own_supertraits_exec(t: &Vec<Tok>, l: &TraitLayout) -> (r: String)
    requires
        layout_wf(t@, *l),
    ensures
        r@ == own_supertraits(t@, *l),
{
    match l.supertraits {
        Some((a, z)) => {
            if a < z {
                let mut out = String::from_str(" + ");
                if tok_is_punct(&t[z - 1], '+') {
                    crate::token::render_range_into(t, a, z - 1, &mut out);
                } else {
                    crate::token::render_range_into(t, a, z, &mut out);
                }
                out
            } else {
                String::new()
            }
        },
        None => String::new(),
    }
}

fn impl_text_exec(
    t: &Vec<Tok>,
    l: &TraitLayout,
    ctx: &Option<String>,
    orch: &String,
    impl_generics: &String,
    type_generics: &String,
    impl_bounds: &Vec<String>,
    trait_bounds: &Vec<String>,
) -> (r: String)
    requires
        layout_wf(t@, *l),
    ensures
        r@ == impl_text(
            t@,
            *l,
            opt_text(*ctx),
            orch@,
            impl_generics@,
            type_generics@,
            texts(impl_bounds@),
            texts(trait_bounds@),
        ),
{
    let name = match &t[l.name] {
        Tok::Ident(n) => n.clone(),
        _ => {
            assert(false);
            String::new()
        },
    };
    let preds = new_preds_exec(t, l, ctx, orch);
    let nonempty = ctx.is_some() || range_nonempty_exec(l.preds);
    let trailing = ctx.is_none() && range_trails_exec(t, l.preds, ',');
    let mut out = String::from_str("impl ");
    out.append(impl_generics.as_str());
    out.append(" ");
    out.append(name.as_str());
    out.append(" ");
    out.append(type_generics.as_str());
    out.append(" for __DriveImpl where ");
    out.append(preds.as_str());
    if nonempty && !trailing {
        out.append(", ");
    }
    out.append("__DriveImpl: ");
    let ib = join_plus_exec(impl_bounds);
    out.append(ib.as_str());
    let own = own_supertraits_exec(t, l);
    out.append(own.as_str());
    out.append(" + ");
    let tb = join_plus_exec(trait_bounds);
    out.append(tb.as_str());
    out.append(" {}");
    assert(out@ =~= impl_text(
        t@,
        *l,
        opt_text(*ctx),
        orch@,
        impl_generics@,
        type_generics@,
        texts(impl_bounds@),
        texts(trait_bounds@),
    ));
    out
}

pub open spec fn layout_result(r: Result<TraitLayout, MacroError>) -> Result<TraitLayout, ErrorV> {
    match r {
        Ok(l) => Ok(l),
        Err(e) => Err(e@),
    }
}

/// Checks the item against the arguments and finds its layout.
pub fn check_drive(args: &DriveArgs, t: &Vec<Tok>) -> (r: Result<TraitLayout, MacroError>)
    ensures
        layout_result(r) == drive_checks(t@, args@),
        r matches Ok(l) ==> layout_wf(t@, l),
{
    let text = render_text(t, 0, t.len());
    assert(t@.subrange(0, t@.len() as int) =~= t@);
    match trait_check(text.as_str()) {
        Some(message) => {
            return Err(item_error1(0, message.as_str()));
        },
        None => {},
    }
    let l = match layout(t) {
        None => {
            return Err(item_error1(0, "expected trait item"));
        },
        Some(l) => l,
    };
    let body = crate::token::group_at(t, l.body);
    if !check_only_inner_attrs(body) {
        return Err(item_error1(0, "`#[drive]` only supports empty aggregate traits"));
    }
    if args.runs.len() == 0 && args.steps.len() == 0 {
        return Err(item_error1(l.name, "`#[drive]` requires at least one operation"));
    }
    if args.steps.len() > 0 && args.context.is_none() {
        return Err(item_error1(l.name, "`context = ...` is required for `step(...)`"));
    }
    Ok(l)
}

/// The modified trait and its blanket impl, given the impl generics `ig`
/// and the type generics `tg` that `syn` printed.
pub fn assemble_drive(
    args: &DriveArgs,
    s: &Vec<Tok>,
    t: &Vec<Tok>,
    l: &TraitLayout,
    orch: &String,
    ig: &String,
    tg: &String,
) -> (r: String)
    requires
        drive_args_wf(s@, args@),
        layout_wf(t@, *l),
    ensures
        r@ == drive_text(s@, t@, args@, *l, orch@, ig@, tg@),
{
    let ctx: Option<String> = match args.context {
        Some((a, z)) => Some(render_text(s, a, z)),
        None => None,
    };
    let c = match &ctx {
        Some(x) => x.clone(),
        None => String::new(),
    };
    assert(c@ == range_text(s@, args@.context));
    let err = render_text(s, args.error.0, args.error.1);
    let trait_bounds = concat_strings(run_bounds_exec(s, &args.runs, orch, &err), step_bounds_exec(s, &args.steps, orch, &c, &err, "Self"));
    let impl_bounds = concat_strings(run_bounds_exec(s, &args.runs, orch, &err), step_bounds_exec(s, &args.steps, orch, &c, &err, "__DriveImpl"));
    let mut out = item_text_exec(t, l, &ctx, orch, &trait_bounds);
    out.append(" ");
    let imp = impl_text_exec(t, l, &ctx, orch, ig, tg, &impl_bounds, &trait_bounds);
    out.append(imp.as_str());
    out
}

/// Checks the context predicate and the built bounds with `syn`, splits
/// the generics, and builds the modified trait and its blanket impl.
pub fn finish_drive(args: &DriveArgs, s: &Vec<Tok>, t: &Vec<Tok>, l: &TraitLayout, orch: &String) -> (r: Result<String, MacroError>)
    requires
        drive_args_wf(s@, args@),
        layout_wf(t@, *l),
    ensures
        crate::orchestra::text_result(r) == drive_finish(s@, t@, args@, *l, orch@),
{
    let c = match args.context {
        Some((a, z)) => render_text(s, a, z),
        None => String::new(),
    };
    assert(c@ == range_text(s@, args@.context));
    let err = render_text(s, args.error.0, args.error.1);
    if args.context.is_some() {
        let mut pred = c.clone();
        pred.append(": ");
        pred.append(orch.as_str());
        pred.append("::Context");
        assert(pred@ =~= context_pred(c@, orch@));
        match where_predicate_check(pred.as_str()) {
            Some(message) => {
                return Err(call_site_error(message.as_str()));
            },
            None => {},
        }
    }
    let checks = concat_strings(run_bounds_exec(s, &args.runs, orch, &err), step_checks_exec(s, &args.steps, orch, &c, &err));
    match first_bound_error(&checks) {
        Some(message) => {
            return Err(call_site_error(message.as_str()));
        },
        None => {
            proof {
                lemma_first_from(0, checks@.len() as int, bound_fails(texts(checks@)));
            }
        },
    }
    let impl_input = match l.generics {
        Some((lt, gt)) => {
            let mut x = String::from_str("<__DriveImpl, ");
            crate::token::render_range_into(t, lt + 1, gt, &mut x);
            x.append(">");
            x
        },
        None => String::from_str("<__DriveImpl>"),
    };
    assert(impl_input@ == impl_generics_input(t@, *l));
    let gen_text = match l.generics {
        Some((lt, gt)) => render_text(t, lt, gt + 1),
        None => String::new(),
    };
    assert(gen_text@ == generics_text(t@, *l));
    let ig_trees = match split_generics(impl_input.as_str()) {
        Some((i, _)) => stream_tokens(i),
        None => {
            return Err(item_error1(0, "expected generics"));
        },
    };
    let tg_trees = match split_generics(gen_text.as_str()) {
        Some((_, g)) => stream_tokens(g),
        None => {
            return Err(item_error1(0, "expected generics"));
        },
    };
    let ig = render_text(&ig_trees, 0, ig_trees.len());
    let tg = render_text(&tg_trees, 0, tg_trees.len());
    assert(ig_trees@.subrange(0, ig_trees@.len() as int) =~= ig_trees@);
    assert(tg_trees@.subrange(0, tg_trees@.len() as int) =~= tg_trees@);
    Ok(assemble_drive(args, s, t, l, orch, &ig, &tg))
}

/// `#[drive(..)]` once its arguments are parsed: checks the item, finds
/// this crate's path from the answer `lookup` of its lookup, and expands.
pub fn expand_drive(args: &DriveArgs, s: &Vec<Tok>, t: &Vec<Tok>, lookup: CrateLookup) -> (r: Result<String, MacroError>)
    requires
        drive_args_wf(s@, args@),
    ensures
        crate::orchestra::text_result(r) == drive_expansion(
            s@,
            t@,
            args@,
            crate::orchestra::orchestra_path_spec(lookup@),
        ),
{
    let l = check_drive(args, t)?;
    let orch = crate::orchestra::orchestra_path(lookup)?;
    finish_drive(args, s, t, &l, &orch)
}

/// `#[drive(..)]` on the arguments `attr` and the item `item`, given the
/// answer of the lookup of this crate's name.
pub fn drive(attr: &Vec<Tok>, item: &Vec<Tok>, lookup: CrateLookup) -> (r: Result<String, MacroError>)
    ensures
        crate::orchestra::text_result(r) == drive_spec(
            attr@,
            item@,
            crate::orchestra::orchestra_path_spec(lookup@),
        ),
{
    let args = parse_args(attr)?;
    expand_drive(&args, attr, item, lookup)
}

proof fn lemma_step_bounds_layout(
    s: Seq<Tok>,
    steps: Seq<DriveOper>,
    orch: Seq<char>,
    ctx: Seq<char>,
    err: Seq<char>,
    who: Seq<char>,
)
    ensures
        step_bounds(s, steps, orch, ctx, err, who).len() == 2 * steps.len(),
        forall|k: int|
            0 <= k < steps.len() ==> step_bounds(s, steps, orch, ctx, err, who)[2 * k]
                == step_bound(s, #[trigger] steps[k], orch, ctx, err) && step_bounds(
                s,
                steps,
                orch,
                ctx,
                err,
                who,
            )[2 * k + 1] == level_bound(s, steps[k], orch, ctx, who),
    decreases steps.len(),
{
    if steps.len() > 0 {
        lemma_step_bounds_layout(s, steps.drop_last(), orch, ctx, err, who);
        let prev = step_bounds(s, steps.drop_last(), orch, ctx, err, who);
        assert forall|k: int| 0 <= k < steps.len() implies step_bounds(
            s,
            steps,
            orch,
            ctx,
            err,
            who,
        )[2 * k] == step_bound(s, #[trigger] steps[k], orch, ctx, err) && step_bounds(
            s,
            steps,
            orch,
            ctx,
            err,
            who,
        )[2 * k + 1] == level_bound(s, steps[k], orch, ctx, who) by {
            if k < steps.len() - 1 {
                assert(steps.drop_last()[k] == steps[k]);
            }
        }
    }
}

/// The bounds `#[drive]` adds as supertraits (`who` is `Self`) and to the
/// blanket impl (`who` is `__DriveImpl`): for each run operation in order
/// its `Run` bound, then for each step operation in order its `Step`
/// bound followed by the level bound for `who`, and nothing else. So every
/// step's level requirement is propagated into the aggregate trait.
pub proof fn lemma_drive_bounds_cover_operations(
    s: Seq<Tok>,
    a: DriveArgsV,
    orch: Seq<char>,
    ctx: Seq<char>,
    err: Seq<char>,
    who: Seq<char>,
)
    ensures
        ({
            let bs = run_bounds(s, a.runs, orch, err) + step_bounds(s, a.steps, orch, ctx, err, who);
            &&& bs.len() == a.runs.len() + 2 * a.steps.len()
            &&& forall|k: int|
                0 <= k < a.runs.len() ==> bs[k] == run_bound(s, #[trigger] a.runs[k], orch, err)
            &&& forall|k: int|
                0 <= k < a.steps.len() ==> bs[a.runs.len() + 2 * k] == step_bound(
                    s,
                    #[trigger] a.steps[k],
                    orch,
                    ctx,
                    err,
                ) && bs[a.runs.len() + 2 * k + 1] == level_bound(s, a.steps[k], orch, ctx, who)
        }),
{
    lemma_step_bounds_layout(s, a.steps, orch, ctx, err, who);
}

} // verus!
