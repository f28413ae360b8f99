//! Finding where a piece of Rust syntax ends inside a token sequence.
//!
//! A type, a `for<...>` binder or a generic parameter list is Rust syntax
//! that `syn` parses greedily. A piece of it can only end where the macro
//! grammar lets something else follow (a `,`, a `;`, a closing `>`), so the
//! piece is the shortest such stretch of tokens that `syn` accepts whole.
use vstd::prelude::*;
use crate::token::{Tok, render_range, render_seq, render_text, is_punct, is_ident, ident_text, tok_is_punct};
use crate::syntax::{expr_error, expr_check, parses_as_type, parses_as_binder, parses_as_ident, parses_as_generics, type_error, ident_error, binder_error, generic_param_error, type_check, binder_check, generic_param_check, ident_check, split_generics};

verus! {

/// The least `k` in `lo..hi` with `p(k)`.
pub open spec fn first_from(lo: int, hi: int, p: spec_fn(int) -> bool) -> Option<int>
    decreases hi - lo,
{
    if lo >= hi {
        None
    } else if p(lo) {
        Some(lo)
    } else {
        first_from(lo + 1, hi, p)
    }
}

pub proof fn lemma_first_from(lo: int, hi: int, p: spec_fn(int) -> bool)
    ensures
        match first_from(lo, hi, p) {
            Some(k) => lo <= k < hi && p(k) && forall|m: int| lo <= m < k ==> !#[trigger] p(m),
            None => forall|m: int| lo <= m < hi ==> !#[trigger] p(m),
        },
    decreases hi - lo,
{
    if lo < hi && !p(lo) {
        lemma_first_from(lo + 1, hi, p);
    }
}

/// `first_from` finds `k` when `p(k)` holds and nothing before it does.
pub proof fn lemma_first_from_at(lo: int, hi: int, p: spec_fn(int) -> bool, k: int)
    requires
        lo <= k < hi,
        p(k),
        forall|m: int| lo <= m < k ==> !#[trigger] p(m),
    ensures
        first_from(lo, hi, p) == Some(k),
    decreases k - lo,
{
    if lo < k {
        assert(!p(lo));
        lemma_first_from_at(lo + 1, hi, p, k);
    }
}

/// A type that starts at `start` runs to the first stop before which `syn`
/// reads a whole type: when the stretch to the stop `e` is a type and the
/// stretch to no earlier stop is (as at a comma inside its generic
/// arguments), the type ends at `e`.
pub proof fn lemma_type_ends_at_first_parsing_stop(s: Seq<Tok>, start: int, semi: bool, e: int)
    requires
        start < e <= s.len(),
        type_stop(s, e, semi),
        parses_as_type(render_range(s, start, e)),
        forall|f: int|
            start < f < e && #[trigger] type_stop(s, f, semi) ==> !parses_as_type(render_range(s, start, f)),
    ensures
        type_end(s, start, semi) == Some(e),
{
    let p = type_ends_at(s, start, semi);
    assert forall|m: int| start + 1 <= m < e implies !#[trigger] p(m) by {
        if type_stop(s, m, semi) {
            assert(!parses_as_type(render_range(s, start, m)));
        }
    }
    lemma_first_from_at(start + 1, s.len() + 1 as int, p, e);
}

/// A type that starts at `start` may end at `e`: at the end of `s`, or
/// before a `,` (or a `;`, when `semi`).
pub open spec fn type_stop(s: Seq<Tok>, e: int, semi: bool) -> bool {
    e == s.len() || (0 <= e < s.len() && (is_punct(s[e], ',') || (semi && is_punct(s[e], ';'))))
}

pub open spec fn type_ends_at(s: Seq<Tok>, start: int, semi: bool) -> spec_fn(int) -> bool {
    |e: int| start < e && type_stop(s, e, semi) && parses_as_type(render_range(s, start, e))
}

/// Where the type that starts at `start` ends: the shortest stretch that
/// ends at a stop and that `syn` parses as a type.
pub open spec fn type_end(s: Seq<Tok>, start: int, semi: bool) -> Option<int> {
    first_from(start + 1, s.len() + 1 as int, type_ends_at(s, start, semi))
}

/// A `for<...>` binder that starts (with `for`) at `i` may close at `j`:
/// `s[j]` is the `>` and `syn` parses `s[i..=j]` as a binder. A `strict`
/// binder has at least one parameter and no trailing comma.
pub open spec fn binder_closes_at(s: Seq<Tok>, i: int, strict: bool) -> spec_fn(int) -> bool {
    |j: int|
        i + 1 < j < s.len() && is_punct(s[i + 1], '<') && is_punct(s[j], '>') && (strict ==> (
        i + 2 < j && !is_punct(s[j - 1], ','))) && parses_as_binder(render_range(s, i, j + 1))
}

/// The index of the `>` that closes the binder starting at `i`.
pub open spec fn binder_close(s: Seq<Tok>, i: int, strict: bool) -> Option<int> {
    first_from(i + 2, s.len() as int, binder_closes_at(s, i, strict))
}

/// A generic parameter list that opens (with `<`) at `i` may close at `j`.
pub open spec fn generics_close_at(s: Seq<Tok>, i: int) -> spec_fn(int) -> bool {
    |j: int|
        i < j < s.len() && is_punct(s[i], '<') && is_punct(s[j], '>') && parses_as_generics(
            render_range(s, i, j + 1),
        )
}

/// The index of the `>` that closes the generic parameter list at `i`.
pub open spec fn generics_close(s: Seq<Tok>, i: int) -> Option<int> {
    first_from(i + 1, s.len() as int, generics_close_at(s, i))
}

pub open spec fn opt_usize(r: Option<usize>) -> Option<int> {
    match r {
        Some(k) => Some(k as int),
        None => None,
    }
}

fn is_type_stop(s: &Vec<Tok>, e: usize, semi: bool) -> (r: bool)
    requires
        e <= s.len(),
    ensures
        r == type_stop(s@, e as int, semi),
{
    e == s.len() || tok_is_punct(&s[e], ',') || (semi && tok_is_punct(&s[e], ';'))
}

/// Finds where the type starting at `start` ends.
pub fn find_type_end(s: &Vec<Tok>, start: usize, semi: bool) -> (r: Option<usize>)
    requires
        start <= s.len(),
    ensures
        opt_usize(r) == type_end(s@, start as int, semi),
{
    if start == s.len() {
        return None;
    }
    let mut e = start + 1;
    loop
        invariant
            start < e <= s.len(),
            type_end(s@, start as int, semi) == first_from(
                e as int,
                s@.len() + 1 as int,
                type_ends_at(s@, start as int, semi),
            ),
        decreases s.len() - e,
    {
        if is_type_stop(s, e, semi) {
            let text = render_text(s, start, e);
            if type_check(text.as_str()).is_none() {
                return Some(e);
            }
        }
        if e == s.len() {
            assert(first_from(
                e as int + 1,
                s@.len() + 1 as int,
                type_ends_at(s@, start as int, semi),
            ) is None);
            return None;
        }
        e = e + 1;
    }
}

/// Finds the `>` that closes the binder starting (with `for`) at `i`.
pub fn find_binder_close(s: &Vec<Tok>, i: usize, strict: bool) -> (r: Option<usize>)
    requires
        i < s.len(),
    ensures
        opt_usize(r) == binder_close(s@, i as int, strict),
{
    if s.len() - i < 2 {
        return None;
    }
    let mut j = i + 2;
    while j < s.len()
        invariant
            i + 2 <= j,
            i < s.len(),
            binder_close(s@, i as int, strict) == first_from(
                j as int,
                s@.len() as int,
                binder_closes_at(s@, i as int, strict),
            ),
        decreases s.len() - j,
    {
        if tok_is_punct(&s[i + 1], '<') && tok_is_punct(&s[j], '>') && (!strict || (i + 2 < j
            && !tok_is_punct(&s[j - 1], ','))) {
            let text = render_text(s, i, j + 1);
            if binder_check(text.as_str()).is_none() {
                return Some(j);
            }
        }
        j = j + 1;
    }
    None
}

/// Finds the `>` that closes the generic parameter list opening at `i`.
pub fn find_generics_close(s: &Vec<Tok>, i: usize) -> (r: Option<usize>)
    requires
        i < s.len(),
    ensures
        opt_usize(r) == generics_close(s@, i as int),
{
    let mut j = i + 1;
    while j < s.len()
        invariant
            i < j,
            i < s.len(),
            generics_close(s@, i as int) == first_from(
                j as int,
                s@.len() as int,
                generics_close_at(s@, i as int),
            ),
        decreases s.len() - j,
    {
        if tok_is_punct(&s[i], '<') && tok_is_punct(&s[j], '>') {
            let text = render_text(s, i, j + 1);
            if split_generics(text.as_str()).is_some() {
                return Some(j);
            }
        }
        j = j + 1;
    }
    None
}

/// Whether the token at `i` is an identifier that `syn` accepts as one
/// (keywords are not).
pub open spec fn ident_ok(s: Seq<Tok>, i: int) -> bool {
    0 <= i < s.len() && is_ident(s[i]) && parses_as_ident(ident_text(s[i]))
}

pub fn check_ident(s: &Vec<Tok>, i: usize) -> (r: bool)
    ensures
        r == ident_ok(s@, i as int),
{
    if i < s.len() {
        match &s[i] {
            Tok::Ident(name) => ident_check(name.as_str()).is_none(),
            _ => false,
        }
    } else {
        false
    }
}

/// The message for a missing type at `start`: `syn`'s error on the tokens
/// from `start` to the end, as when it parses a type from there.
pub open spec fn type_message(s: Seq<Tok>, start: int) -> Seq<char> {
    match type_error(render_range(s, start, s.len() as int)) {
        Some(m) => m,
        None => "expected type"@,
    }
}

pub fn type_message_exec(s: &Vec<Tok>, start: usize) -> (r: String)
    requires
        start <= s.len(),
    ensures
        r@ == type_message(s@, start as int),
{
    let text = render_text(s, start, s.len());
    match type_check(text.as_str()) {
        Some(m) => m,
        None => String::from_str("expected type"),
    }
}

/// The end of the longest stretch from `start` to at most `e` that `syn`
/// parses as a type, as `syn` reads a type greedily.
pub open spec fn longest_type(s: Seq<Tok>, start: int, e: int) -> Option<int>
    decreases e - start,
{
    if e <= start {
        None
    } else if parses_as_type(render_range(s, start, e)) {
        Some(e)
    } else {
        longest_type(s, start, e - 1)
    }
}

/// Where no type that ends at a stop starts at `start`, the error: when a
/// shorter type stands there, the separator `sep` is missing after it;
/// otherwise `syn`'s error on the type.
pub open spec fn type_failure(s: Seq<Tok>, start: int, sep: Seq<char>) -> (int, Seq<char>) {
    match longest_type(s, start, s.len() as int) {
        Some(e) => (e, "expected `"@ + sep + "`"@),
        None => (start, type_message(s, start)),
    }
}

pub fn type_failure_exec(s: &Vec<Tok>, start: usize, sep: &str) -> (r: (usize, String))
    requires
        start <= s.len(),
    ensures
        (r.0 as int, r.1@) == type_failure(s@, start as int, sep@),
        r.0 <= s.len(),
{
    let mut e = s.len();
    while e > start
        invariant
            start <= e <= s.len(),
            longest_type(s@, start as int, s@.len() as int) == longest_type(s@, start as int, e as int),
        decreases e - start,
    {
        let text = render_text(s, start, e);
        if type_check(text.as_str()).is_none() {
            let mut m = String::from_str("expected `");
            m.append(sep);
            m.append("`");
            return (e, m);
        }
        e = e - 1;
    }
    (start, type_message_exec(s, start))
}

/// Where no binder closes for the `for` at `i`, the error. A `strict`
/// binder that `syn` reads but that is empty or ends with a comma misses
/// a generic parameter at its `>`; otherwise `syn`'s error on the binder
/// from `i` to the end.
pub open spec fn binder_failure(s: Seq<Tok>, i: int, strict: bool) -> (int, Seq<char>) {
    if strict && binder_close(s, i, false) is Some {
        let j = binder_close(s, i, false)->Some_0;
        (
            j,
            match generic_param_error(render_range(s, j, s.len() as int)) {
                Some(m) => m,
                None => "expected generic parameter"@,
            },
        )
    } else {
        (
            i,
            match binder_error(render_range(s, i, s.len() as int)) {
                Some(m) => m,
                None => "expected lifetime binder"@,
            },
        )
    }
}

pub fn binder_failure_exec(s: &Vec<Tok>, i: usize, strict: bool) -> (r: (usize, String))
    requires
        i < s.len(),
    ensures
        (r.0 as int, r.1@) == binder_failure(s@, i as int, strict),
        r.0 <= s.len(),
{
    if strict {
        proof {
            lemma_first_from(i + 2, s@.len() as int, binder_closes_at(s@, i as int, false));
        }
        match find_binder_close(s, i, false) {
            Some(j) => {
                let text = render_text(s, j, s.len());
                let m = match generic_param_check(text.as_str()) {
                    Some(m) => m,
                    None => String::from_str("expected generic parameter"),
                };
                return (j, m);
            },
            None => {},
        }
    }
    let text = render_text(s, i, s.len());
    let m = match binder_check(text.as_str()) {
        Some(m) => m,
        None => String::from_str("expected lifetime binder"),
    };
    (i, m)
}

/// The end of the longest stretch from the start of `s` to at most `e`
/// that `syn` parses as an expression.
pub open spec fn longest_expr(s: Seq<Tok>, e: int) -> Option<int>
    decreases e,
{
    if e <= 0 {
        None
    } else if expr_error(render_range(s, 0, e)) is None {
        Some(e)
    } else {
        longest_expr(s, e - 1)
    }
}

/// `s` is an expression followed by further tokens: `syn` reads the
/// expression and refuses only what follows it ("unexpected token"), a
/// refusal it reports once the whole input has been read.
pub open spec fn expr_then_more(s: Seq<Tok>) -> bool {
    expr_error(render_seq(s)) == Some("unexpected token"@) && longest_expr(s, s.len() as int) is Some
}

/// Where `s` does not parse whole as an expression: `Ok(k)` when an
/// expression ends at `k` and further tokens follow, else `Err` with
/// `syn`'s message; `None` when it parses whole.
pub fn check_expr(s: &Vec<Tok>) -> (r: Option<Result<usize, String>>)
    ensures
        match r {
            None => expr_error(render_seq(s@)) is None,
            Some(Ok(k)) => expr_then_more(s@) && longest_expr(s@, s@.len() as int) == Some(k as int)
                && k < s.len(),
            Some(Err(m)) => expr_error(render_seq(s@)) == Some(m@) && !expr_then_more(s@),
        },
{
    let text = render_text(s, 0, s.len());
    assert(s@.subrange(0, s@.len() as int) =~= s@);
    let m = match expr_check(text.as_str()) {
        None => {
            return None;
        },
        Some(m) => m,
    };
    if crate::token::text_is(&m, "unexpected token") {
        let mut e = s.len();
        while e > 0
            invariant
                e <= s.len(),
                longest_expr(s@, s@.len() as int) == longest_expr(s@, e as int),
                expr_error(render_seq(s@)) == Some(m@),
                m@ == "unexpected token"@,
                s@.subrange(0, s@.len() as int) == s@,
            decreases e,
        {
            let prefix = render_text(s, 0, e);
            if expr_check(prefix.as_str()).is_none() {
                if e < s.len() {
                    return Some(Ok(e));
                }
                assert(render_range(s@, 0, e as int) == render_seq(s@));
                return None;
            }
            e = e - 1;
        }
    }
    Some(Err(m))
}

/// The message for a missing identifier at `start`: `syn`'s error on the
/// tokens from `start` to the end, as when it parses an identifier from
/// there.
pub open spec fn ident_message(s: Seq<Tok>, start: int) -> Seq<char> {
    match ident_error(render_range(s, start, s.len() as int)) {
        Some(m) => m,
        None => "expected identifier"@,
    }
}

pub fn ident_message_exec(s: &Vec<Tok>, start: usize) -> (r: String)
    requires
        start <= s.len(),
    ensures
        r@ == ident_message(s@, start as int),
{
    let text = render_text(s, start, s.len());
    match ident_check(text.as_str()) {
        Some(m) => m,
        None => String::from_str("expected identifier"),
    }
}

} // verus!
