//! `#[derive(Oper)]` with `#[oper(output = Type)]`: implements `Oper` for
//! a struct, enum or union, with the given output type.
use vstd::prelude::*;
use crate::error::{MacroError, ErrorV, SiteV, err_v, call_site_error, input_error1, input_error3};
use crate::grammar::{type_end, find_type_end, lemma_first_from, type_ends_at, type_failure, type_failure_exec};
use crate::syntax::{derive_split, split_derive_input, stream_tokens};
use crate::token::{Tok, Delim, render_range, render_seq, render_text, is_group, is_ident, is_ident_text, is_punct, is_punct2, group_content, at_punct, ident_text, tok_is_group, tok_is_ident_text, tok_is_punct, vec_at_punct, vec_is_punct2};

verus! {

/// Where the output type stands: the index of the `#` of its attribute
/// and its range inside that attribute's argument list.
#[derive(Clone, Copy)]
pub struct OutputAt {
    pub attr: usize,
    pub start: usize,
    pub end: usize,
}

/// The index after the outer attributes (`#[...]`) that start `s` at `i`.
pub open spec fn attrs_end(s: Seq<Tok>, i: int) -> int
    decreases s.len() - i,
{
    if 0 <= i && i + 1 < s.len() && is_punct(s[i], '#') && is_group(s[i + 1], Delim::Bracket) {
        attrs_end(s, i + 2)
    } else {
        i
    }
}

/// The tokens inside the brackets of the attribute whose `#` is at `i`.
pub open spec fn attr_tokens(s: Seq<Tok>, i: int) -> Seq<Tok> {
    group_content(s[i + 1])
}

/// The attribute's path is the single identifier `oper`.
pub open spec fn is_oper_attr(a: Seq<Tok>) -> bool {
    a.len() >= 1 && is_ident_text(a[0], "oper"@) && !(a.len() > 1 && is_punct(a[1], ':'))
}

/// Where a nested meta path that starts with a segment at `m - 1` ends:
/// further segments each follow a `::`. `None` when a `::` is not
/// followed by an identifier.
pub open spec fn path_end(l: Seq<Tok>, m: int) -> Option<int>
    decreases l.len() - m,
{
    if m >= 0 && is_punct2(l, m, ':', ':') {
        if m + 2 < l.len() && is_ident(l[m + 2]) {
            path_end(l, m + 3)
        } else {
            None
        }
    } else {
        Some(m)
    }
}

pub open spec fn meta_err(i: int, k: int, message: Seq<char>) -> ErrorV {
    err_v(SiteV::Input(seq![(i + 1) as usize, 1usize, k as usize]), message)
}

/// The nested metas of an `oper` attribute (at `i`) from index `j` of its
/// argument list `l` on: `output = Type`, separated by commas, at most one
/// `output` over all attributes.
pub open spec fn parse_nested(l: Seq<Tok>, i: int, j: int, output: Option<OutputAt>) -> Result<
    Option<OutputAt>,
    ErrorV,
>
    decreases l.len() - j,
{
    let leading = is_punct2(l, j, ':', ':');
    let k = if leading {
        j + 2
    } else {
        j
    };
    if k >= l.len() {
        Err(meta_err(i, k, "expected nested attribute"@))
    } else if !is_ident(l[k]) {
        Err(
            meta_err(
                i,
                k,
                if l[k] is Lit {
                    "unexpected literal in nested attribute, expected ident"@
                } else {
                    "unexpected token in nested attribute, expected ident"@
                },
            ),
        )
    } else {
        match path_end(l, k + 1) {
            None => Err(meta_err(i, k + 1, "expected identifier"@)),
            Some(pe) => if !(!leading && pe == k + 1 && ident_text(l[k]) == "output"@) {
                Err(meta_err(i, j, "unsupported oper attribute; expected `output`"@))
            } else if output is Some {
                Err(meta_err(i, j, "duplicate `output` attribute"@))
            } else if !at_punct(l, k + 1, '=') {
                Err(meta_err(i, k + 1, "expected `=`"@))
            } else {
                match type_end(l, k + 2, false) {
                    None => Err(meta_err(i, type_failure(l, k + 2, ","@).0, type_failure(l, k + 2, ","@).1)),
                    Some(e) => {
                        let out = Some(
                            OutputAt { attr: i as usize, start: (k + 2) as usize, end: e as usize },
                        );
                        if e >= l.len() {
                            Ok(out)
                        } else if !at_punct(l, e, ',') {
                            Err(meta_err(i, e, "expected `,`"@))
                        } else if e + 1 >= l.len() {
                            Ok(out)
                        } else {
                            proof {
                                lemma_first_from(k + 3, l.len() + 1 as int, type_ends_at(l, k + 2, false));
                            }
                            parse_nested(l, i, e + 1, out)
                        }
                    },
                }
            },
        }
    }
}

/// The type of `output = T` in `#[oper(..)]` (the meta at `j` of the
/// attribute's list `l`, the last one, a trailing comma allowed) runs to
/// the first comma, or the list's end, before which `syn` reads a whole
/// type: a comma inside the type's generic arguments, before which the
/// text is no type, does not end it. So `output = Result<User, Error>`
/// gives that whole type.
pub proof fn lemma_output_type_spans_its_commas(l: Seq<Tok>, i: int, j: int, e: int)
    requires
        0 <= j,
        j + 2 < e <= l.len(),
        is_ident_text(l[j], "output"@),
        is_punct(l[j + 1], '='),
        e == l.len() || (is_punct(l[e], ',') && e + 1 == l.len()),
        crate::syntax::parses_as_type(render_range(l, j + 2, e)),
        forall|f: int|
            j + 2 < f < e && is_punct(#[trigger] l[f], ',') ==> !crate::syntax::parses_as_type(
                render_range(l, j + 2, f),
            ),
    ensures
        parse_nested(l, i, j, None) == Ok::<Option<OutputAt>, ErrorV>(
            Some(OutputAt { attr: i as usize, start: (j + 2) as usize, end: e as usize }),
        ),
{
    assert forall|f: int|
        j + 2 < f < e && #[trigger] crate::grammar::type_stop(l, f, false) implies !crate::syntax::parses_as_type(
        render_range(l, j + 2, f),
    ) by {
        assert(is_punct(l[f], ','));
    }
    crate::grammar::lemma_type_ends_at_first_parsing_stop(l, j + 2, false, e);
    assert(!is_punct2(l, j, ':', ':'));
    assert(!is_punct2(l, j + 1, ':', ':'));
    assert(path_end(l, j + 1) == Some(j + 1));
}

/// The outer attributes from `i` to `end`: each `oper` attribute must be a
/// list of nested metas.
pub open spec fn parse_attrs_from(s: Seq<Tok>, i: int, end: int, output: Option<OutputAt>) -> Result<
    Option<OutputAt>,
    ErrorV,
>
    decreases end - i,
{
    if i + 2 > end {
        Ok(output)
    } else {
        let a = attr_tokens(s, i);
        if !is_oper_attr(a) {
            parse_attrs_from(s, i + 2, end, output)
        } else if a.len() == 1 {
            Err(
                err_v(
                    SiteV::Input(seq![(i + 1) as usize, 0usize]),
                    "expected attribute arguments in parentheses: #[oper(...)]"@,
                ),
            )
        } else if is_punct(a[1], '=') {
            Err(
                err_v(
                    SiteV::Input(seq![(i + 1) as usize, 1usize]),
                    "expected parentheses: #[oper(...)]"@,
                ),
            )
        } else if !(a[1] is Group) {
            Err(
                err_v(
                    SiteV::Input(seq![(i + 1) as usize, 0usize]),
                    "expected attribute arguments in parentheses: #[oper(...)]"@,
                ),
            )
        } else {
            let l = group_content(a[1]);
            if l.len() == 0 {
                parse_attrs_from(s, i + 2, end, output)
            } else {
                match parse_nested(l, i, 0, output) {
                    Err(e) => Err(e),
                    Ok(o) => parse_attrs_from(s, i + 2, end, o),
                }
            }
        }
    }
}

/// The output type declared by the `#[oper(output = Type)]` attributes of
/// the derive input `s`.
pub open spec fn parse_oper_attribute_spec(s: Seq<Tok>) -> Result<OutputAt, ErrorV> {
    match parse_attrs_from(s, 0, attrs_end(s, 0), None) {
        Err(e) => Err(e),
        Ok(None) => Err(err_v(SiteV::CallSite, "missing `output` in `#[oper(output = Type)]`"@)),
        Ok(Some(o)) => Ok(o),
    }
}

/// The text of the output type.
pub open spec fn output_text(s: Seq<Tok>, o: OutputAt) -> Seq<char> {
    render_range(group_content(attr_tokens(s, o.attr as int)[1]), o.start as int, o.end as int)
}

/// `impl<..> Oper for Name<..> where .. { type Output = Type; }` for the
/// type `name`, with `ig`, `tg` and `wc` the impl generics, the type
/// generics and the where clause that `syn` printed.
pub open spec fn oper_impl_text(
    s: Seq<Tok>,
    o: OutputAt,
    name: Seq<char>,
    ig: Seq<char>,
    tg: Seq<char>,
    wc: Seq<char>,
) -> Seq<char> {
    "impl "@ + ig + " Oper for "@ + name + " "@ + tg + " "@ + wc + " { type Output = "@ + output_text(
        s,
        o,
    ) + "; }"@
}

/// `#[derive(Oper)]` on the input `s`: `syn`'s error when it does not
/// parse the input as a type definition, the attribute's error, or the
/// impl, with the impl generics, type generics and where clause that
/// `split_for_impl` gives for the type's generics.
pub open spec fn derive_oper_spec(s: Seq<Tok>) -> Result<Seq<char>, ErrorV> {
    match derive_split(render_seq(s)) {
        Err(m) => Err(err_v(SiteV::Input(seq![0usize]), m)),
        Ok((name, ig, tg, wc)) => match parse_oper_attribute_spec(s) {
            Err(e) => Err(e),
            Ok(o) => Ok(oper_impl_text(s, o, name, render_seq(ig), render_seq(tg), render_seq(wc))),
        },
    }
}

/// The output location fits the input.
pub open spec fn output_wf(s: Seq<Tok>, o: OutputAt) -> bool {
    &&& o.attr + 1 < s.len()
    &&& s[o.attr + 1] is Group
    &&& attr_tokens(s, o.attr as int).len() > 1
    &&& attr_tokens(s, o.attr as int)[1] is Group
    &&& o.start <= o.end <= group_content(attr_tokens(s, o.attr as int)[1]).len()
}

pub open spec fn opt_output_wf(s: Seq<Tok>, o: Option<OutputAt>) -> bool {
    o matches Some(x) ==> output_wf(s, x)
}

pub open spec fn nested_result(r: Result<Option<OutputAt>, MacroError>) -> Result<Option<OutputAt>, ErrorV> {
    match r {
        Ok(o) => Ok(o),
        Err(e) => Err(e@),
    }
}

fn path_end_exec(l: &Vec<Tok>, m: usize) -> (r: Option<usize>)
    requires
        m <= l.len(),
    ensures
        crate::grammar::opt_usize(r) == path_end(l@, m as int),
        r matches Some(p) ==> m <= p <= l.len(),
{
    let mut p = m;
    while vec_is_punct2(l, p, ':', ':')
        invariant
            m <= p <= l.len(),
            path_end(l@, m as int) == path_end(l@, p as int),
        decreases l.len() - p,
    {
        if !(p + 2 < l.len() && matches!(l[p + 2], Tok::Ident(_))) {
            assert(!(p + 2 < l@.len() && is_ident(l@[p + 2])));
            assert(path_end(l@, p as int) is None);
            return None;
        }
        p = p + 3;
    }
    Some(p)
}

/// Parses the nested metas of the `oper` attribute at `i`, whose argument
/// list is `l`, from index `j` on.
fn parse_nested_exec(l: &Vec<Tok>, i: usize, j: usize, output: Option<OutputAt>) -> (r: Result<
    Option<OutputAt>,
    MacroError,
>)
    requires
        j <= l.len(),
        i + 1 < usize::MAX,
    ensures
        nested_result(r) == parse_nested(l@, i as int, j as int, output),
        r matches Ok(o) ==> (o == output || (o matches Some(x) && x.attr == i && x.start <= x.end
            <= l.len())),
    decreases l.len() - j,
{
    let leading = vec_is_punct2(l, j, ':', ':');
    let k = if leading {
        j + 2
    } else {
        j
    };
    if k >= l.len() {
        return Err(input_error3(i + 1, 1, k, "expected nested attribute"));
    }
    match &l[k] {
        Tok::Ident(_) => {},
        Tok::Lit(_) => {
            return Err(
                input_error3(i + 1, 1, k, "unexpected literal in nested attribute, expected ident"),
            );
        },
        _ => {
            return Err(
                input_error3(i + 1, 1, k, "unexpected token in nested attribute, expected ident"),
            );
        },
    }
    let pe = match path_end_exec(l, k + 1) {
        None => {
            return Err(input_error3(i + 1, 1, k + 1, "expected identifier"));
        },
        Some(pe) => pe,
    };
    if !(!leading && pe == k + 1 && tok_is_ident_text(&l[k], "output")) {
        return Err(input_error3(i + 1, 1, j, "unsupported oper attribute; expected `output`"));
    }
    if output.is_some() {
        return Err(input_error3(i + 1, 1, j, "duplicate `output` attribute"));
    }
    if !vec_at_punct(l, k + 1, '=') {
        return Err(input_error3(i + 1, 1, k + 1, "expected `=`"));
    }
    proof {
        lemma_first_from(k + 3, l@.len() + 1 as int, type_ends_at(l@, k + 2, false));
    }
    match find_type_end(l, k + 2, false) {
        None => {
            let (at, m) = type_failure_exec(l, k + 2, ",");
            Err(input_error3(i + 1, 1, at, m.as_str()))
        },
        Some(e) => {
            let out = Some(OutputAt { attr: i, start: k + 2, end: e });
            if e >= l.len() {
                Ok(out)
            } else if !tok_is_punct(&l[e], ',') {
                Err(input_error3(i + 1, 1, e, "expected `,`"))
            } else if e + 1 >= l.len() {
                Ok(out)
            } else {
                parse_nested_exec(l, i, e + 1, out)
            }
        },
    }
}

fn attrs_end_exec(s: &Vec<Tok>) -> (r: usize)
    ensures
        r as int == attrs_end(s@, 0),
        r <= s.len(),
{
    let mut i: usize = 0;
    while i + 1 < s.len() && tok_is_punct(&s[i], '#') && tok_is_group(&s[i + 1], Delim::Bracket)
        invariant
            i <= s.len(),
            i % 2 == 0,
            attrs_end(s@, 0) == attrs_end(s@, i as int),
        decreases s.len() - i,
    {
        i = i + 2;
    }
    i
}

pub open spec fn output_result(r: Result<OutputAt, MacroError>) -> Result<OutputAt, ErrorV> {
    match r {
        Ok(o) => Ok(o),
        Err(e) => Err(e@),
    }
}

/// Finds the output type declared by the `#[oper(output = Type)]`
/// attributes of the derive input `s`.
pub fn parse_oper_attribute(s: &Vec<Tok>) -> (r: Result<OutputAt, MacroError>)
    ensures
        output_result(r) == parse_oper_attribute_spec(s@),
        r matches Ok(o) ==> output_wf(s@, o),
{
    let end = attrs_end_exec(s);
    let mut output: Option<OutputAt> = None;
    let mut i: usize = 0;
    while i < end && end - i >= 2
        invariant
            end as int == attrs_end(s@, 0),
            end as int == attrs_end(s@, i as int),
            i <= end <= s.len(),
            opt_output_wf(s@, output),
            parse_attrs_from(s@, 0, end as int, None) == parse_attrs_from(
                s@,
                i as int,
                end as int,
                output,
            ),
        decreases end - i,
    {
        assert(i + 1 < s@.len() && is_group(s@[i + 1], Delim::Bracket));
        let a = crate::token::group_at(s, i + 1);
        let is_oper = a.len() >= 1 && tok_is_ident_text(&a[0], "oper") && !(a.len() > 1
            && tok_is_punct(&a[1], ':'));
        if is_oper {
            if a.len() == 1 {
                return Err(
                    crate::error::input_error2(
                        i + 1,
                        0,
                        "expected attribute arguments in parentheses: #[oper(...)]",
                    ),
                );
            }
            if tok_is_punct(&a[1], '=') {
                return Err(
                    crate::error::input_error2(i + 1, 1, "expected parentheses: #[oper(...)]"),
                );
            }
            if !matches!(a[1], Tok::Group(_, _)) {
                return Err(
                    crate::error::input_error2(
                        i + 1,
                        0,
                        "expected attribute arguments in parentheses: #[oper(...)]",
                    ),
                );
            }
            let l = crate::token::group_at(a, 1);
            if l.len() > 0 {
                match parse_nested_exec(l, i, 0, output) {
                    Err(e) => {
                        return Err(e);
                    },
                    Ok(o) => {
                        output = o;
                    },
                }
            }
        }
        i = i + 2;
    }
    match output {
        None => Err(call_site_error("missing `output` in `#[oper(output = Type)]`")),
        Some(o) => Ok(o),
    }
}

pub open spec fn text_result(r: Result<String, MacroError>) -> Result<Seq<char>, ErrorV> {
    match r {
        Ok(t) => Ok(t@),
        Err(e) => Err(e@),
    }
}

/// The impl that `#[derive(Oper)]` emits is the one impl for the type,
/// with the type's generics as `syn` splits them: `impl IG Oper for Name
/// TG WC { type Output = T; }`, with IG, TG and WC the rendered impl
/// generics, type generics and where clause of `split_for_impl`, and T
/// the `output` type of the attribute.
pub proof fn lemma_derived_impl_keeps_generics(s: Seq<Tok>)
    requires
        derive_oper_spec(s) is Ok,
    ensures
        derive_split(render_seq(s)) is Ok,
        parse_oper_attribute_spec(s) is Ok,
        ({
            let (name, ig, tg, wc) = derive_split(render_seq(s))->Ok_0;
            derive_oper_spec(s)->Ok_0 == "impl "@ + render_seq(ig) + " Oper for "@ + name + " "@
                + render_seq(tg) + " "@ + render_seq(wc) + " { type Output = "@ + output_text(
                s,
                parse_oper_attribute_spec(s)->Ok_0,
            ) + "; }"@
        }),
{
}

/// The impl for the type `name`, given the pieces `ig`, `tg` and `wc`
/// that `syn` printed for its generics.
pub fn assemble_oper(
    input: &Vec<Tok>,
    o: &OutputAt,
    name: &String,
    ig: &String,
    tg: &String,
    wc: &String,
) -> (r: String)
    requires
        output_wf(input@, *o),
    ensures
        r@ == oper_impl_text(input@, *o, name@, ig@, tg@, wc@),
{
    assert(input@.len() == input.len());
    let a = crate::token::group_at(input, o.attr + 1);
    let l = crate::token::group_at(a, 1);
    let mut out = String::from_str("impl ");
    out.append(ig.as_str());
    out.append(" Oper for ");
    out.append(name.as_str());
    out.append(" ");
    out.append(tg.as_str());
    out.append(" ");
    out.append(wc.as_str());
    out.append(" { type Output = ");
    crate::token::render_range_into(l, o.start, o.end, &mut out);
    out.append("; }");
    out
}

/// The text of a sequence of token trees.
fn trees_text(v: &Vec<Tok>) -> (r: String)
    ensures
        r@ == render_seq(v@),
{
    assert(v@.subrange(0, v@.len() as int) =~= v@);
    render_text(v, 0, v.len())
}

/// `#[derive(Oper)]` on the input tokens `input`.
pub fn derive_oper(input: &Vec<Tok>) -> (r: Result<String, MacroError>)
    ensures
        text_result(r) == derive_oper_spec(input@),
{
    let text = render_text(input, 0, input.len());
    assert(input@.subrange(0, input@.len() as int) =~= input@);
    let (name, ig, tg, wc) = match split_derive_input(text.as_str()) {
        Err(message) => {
            return Err(input_error1(0, message.as_str()));
        },
        Ok(parts) => parts,
    };
    let o = parse_oper_attribute(input)?;
    let ig = trees_text(&stream_tokens(ig));
    let tg = trees_text(&stream_tokens(tg));
    let wc = trees_text(&stream_tokens(wc));
    Ok(assemble_oper(input, &o, &name, &ig, &tg, &wc))
}

} // verus!
