//! The token model that the macro front ends work on.
//!
//! A macro input arrives as a tree of tokens: identifiers, punctuation
//! characters (with their spacing), literals and delimited groups. The
//! macros read these trees and answer with Rust source text.
use vstd::prelude::*;
use vstd::string::*;

verus! {

/// The delimiter of a token group.
#[derive(PartialEq, Eq, Structural, Clone, Copy, Debug)]
pub enum Delim {
    Paren,
    Brace,
    Bracket,
    Invisible,
}

/// One token tree.
///
/// `Punct(c, joint)` is a punctuation character; `joint` holds when the
/// character is glued to the punctuation character that follows it
/// (as in `=>` or `::`).
#[derive(Debug)]
pub enum Tok {
    Ident(String),
    Punct(char, bool),
    Lit(String),
    Group(Delim, Vec<Tok>),
}

pub open spec fn open_text(d: Delim) -> Seq<char> {
    match d {
        Delim::Paren => "("@,
        Delim::Brace => "{"@,
        Delim::Bracket => "["@,
        Delim::Invisible => ""@,
    }
}

pub open spec fn close_text(d: Delim) -> Seq<char> {
    match d {
        Delim::Paren => ")"@,
        Delim::Brace => "}"@,
        Delim::Bracket => "]"@,
        Delim::Invisible => ""@,
    }
}

/// What separates a token from the next one in rendered text: nothing
/// after a joint punctuation character, a space after anything else.
pub open spec fn gap(t: Tok) -> Seq<char> {
    match t {
        Tok::Punct(_, true) => Seq::empty(),
        _ => " "@,
    }
}

/// The source text of one token tree.
pub open spec fn render_tok(t: Tok) -> Seq<char>
    decreases t, 1nat,
{
    match t {
        Tok::Ident(s) => s@,
        Tok::Punct(c, _) => seq![c],
        Tok::Lit(s) => s@,
        Tok::Group(d, v) => open_text(d) + render_seq(v@) + close_text(d),
    }
}

/// The source text of a sequence of token trees: each token followed by
/// its gap.
pub open spec fn render_seq(s: Seq<Tok>) -> Seq<char>
    decreases s, 0nat,
{
    if s.len() == 0 {
        Seq::empty()
    } else {
        render_seq(s.drop_last()) + render_tok(s.last()) + gap(s.last())
    }
}

/// The text of a token tree with a space after every token, whatever the
/// spacing of its punctuation: spellings of the same tokens that differ
/// only in whitespace get the same text.
pub open spec fn spaced_tok(t: Tok) -> Seq<char>
    decreases t, 1nat,
{
    match t {
        Tok::Ident(s) => s@,
        Tok::Punct(c, _) => seq![c],
        Tok::Lit(s) => s@,
        Tok::Group(d, v) => open_text(d) + spaced_seq(v@) + close_text(d),
    }
}

/// Each token of `s` as [`spaced_tok`] gives it, followed by a space.
pub open spec fn spaced_seq(s: Seq<Tok>) -> Seq<char>
    decreases s, 0nat,
{
    if s.len() == 0 {
        Seq::empty()
    } else {
        spaced_seq(s.drop_last()) + spaced_tok(s.last()) + " "@
    }
}

/// The spaced text of `s[lo..hi]`.
pub open spec fn spaced_range(s: Seq<Tok>, lo: int, hi: int) -> Seq<char> {
    spaced_seq(s.subrange(lo, hi))
}

/// `x` occurs in `a` as a contiguous piece.
pub open spec fn holds_text(a: Seq<char>, x: Seq<char>) -> bool {
    exists|i: int| 0 <= i && i + x.len() <= a.len() && #[trigger] a.subrange(i, i + x.len()) == x
}

/// A piece of the middle part of a text is a piece of the text.
pub proof fn lemma_contains_concat(a: Seq<char>, b: Seq<char>, c: Seq<char>, x: Seq<char>)
    requires
        holds_text(b, x),
    ensures
        holds_text(a + b + c, x),
{
    let i = choose|i: int| 0 <= i && i + x.len() <= b.len() && #[trigger] b.subrange(i, i + x.len()) == x;
    let j = a.len() + i;
    assert((a + b + c).subrange(j, j + x.len()) =~= b.subrange(i, i + x.len()));
}

/// A piece of a piece of a text is a piece of the text.
pub proof fn lemma_contains_trans(a: Seq<char>, x: Seq<char>, y: Seq<char>)
    requires
        holds_text(a, x),
        holds_text(x, y),
    ensures
        holds_text(a, y),
{
    let i = choose|i: int| 0 <= i && i + x.len() <= a.len() && #[trigger] a.subrange(i, i + x.len()) == x;
    let j = choose|j: int| 0 <= j && j + y.len() <= x.len() && #[trigger] x.subrange(j, j + y.len()) == y;
    assert(a.subrange(i + j, i + j + y.len()) =~= x.subrange(j, j + y.len()));
}

/// A text contains itself.
pub proof fn lemma_contains_self(x: Seq<char>)
    ensures
        holds_text(x, x),
{
    let i: int = 0;
    assert(x.subrange(i, i + x.len()) =~= x);
}

/// The text of `s[lo..hi]`.
pub open spec fn render_range(s: Seq<Tok>, lo: int, hi: int) -> Seq<char> {
    render_seq(s.subrange(lo, hi))
}

pub open spec fn is_punct(t: Tok, c: char) -> bool {
    t matches Tok::Punct(p, _) && p == c
}

pub open spec fn is_joint_punct(t: Tok, c: char) -> bool {
    t matches Tok::Punct(p, true) && p == c
}

pub open spec fn is_ident(t: Tok) -> bool {
    t is Ident
}

pub open spec fn ident_text(t: Tok) -> Seq<char> {
    match t {
        Tok::Ident(s) => s@,
        _ => Seq::empty(),
    }
}

pub open spec fn is_ident_text(t: Tok, text: Seq<char>) -> bool {
    t matches Tok::Ident(s) && s@ == text
}

pub open spec fn is_group(t: Tok, d: Delim) -> bool {
    t matches Tok::Group(e, _) && e == d
}

pub open spec fn group_content(t: Tok) -> Seq<Tok> {
    match t {
        Tok::Group(_, v) => v@,
        _ => Seq::empty(),
    }
}

/// The position `i` of `s` holds the two-character punctuation `c1 c2`.
pub open spec fn is_punct2(s: Seq<Tok>, i: int, c1: char, c2: char) -> bool {
    0 <= i && i + 1 < s.len() && is_joint_punct(s[i], c1) && is_punct(s[i + 1], c2)
}

pub open spec fn at_punct(s: Seq<Tok>, i: int, c: char) -> bool {
    0 <= i < s.len() && is_punct(s[i], c)
}

pub open spec fn at_ident_text(s: Seq<Tok>, i: int, text: Seq<char>) -> bool {
    0 <= i < s.len() && is_ident_text(s[i], text)
}

pub proof fn lemma_render_seq_push(s: Seq<Tok>, t: Tok)
    ensures
        render_seq(s.push(t)) == render_seq(s) + render_tok(t) + gap(t),
{
    assert(s.push(t).drop_last() =~= s);
}

pub proof fn lemma_render_range_step(s: Seq<Tok>, lo: int, hi: int)
    requires
        0 <= lo <= hi < s.len(),
    ensures
        render_range(s, lo, hi + 1) == render_range(s, lo, hi) + render_tok(s[hi]) + gap(s[hi]),
{
    assert(s.subrange(lo, hi + 1) =~= s.subrange(lo, hi).push(s[hi]));
    lemma_render_seq_push(s.subrange(lo, hi), s[hi]);
}

/// The tokens of the group at index `g` of `s`.
pub fn group_at(s: &Vec<Tok>, g: usize) -> (r: &Vec<Tok>)
    requires
        g < s.len(),
        s@[g as int] is Group,
    ensures
        r@ == group_content(s@[g as int]),
{
    match &s[g] {
        Tok::Group(_, v) => v,
        _ => {
            assert(false);
            &s
        },
    }
}

/// The texts of a sequence of strings.
pub open spec fn texts(v: Seq<String>) -> Seq<Seq<char>> {
    v.map_values(|x: String| x@)
}

/// Appends one character (std's `String::push`).
#[verifier::external_body]
pub(crate) fn push_char(out: &mut String, c: char)
    ensures
        final(out)@ == old(out)@.push(c),
{
    out.push(c);
}

/// Whether `s` holds exactly the text `lit`.
pub fn text_is(s: &String, lit: &str) -> (r: bool)
    ensures
        r == (s@ == lit@),
{
    let l = String::from_str(lit);
    *s == l
}

pub fn tok_is_punct(t: &Tok, c: char) -> (r: bool)
    ensures
        r == is_punct(*t, c),
{
    match t {
        Tok::Punct(p, _) => *p == c,
        _ => false,
    }
}

pub fn tok_is_joint_punct(t: &Tok, c: char) -> (r: bool)
    ensures
        r == is_joint_punct(*t, c),
{
    match t {
        Tok::Punct(p, j) => *p == c && *j,
        _ => false,
    }
}

pub fn tok_is_ident_text(t: &Tok, lit: &str) -> (r: bool)
    ensures
        r == is_ident_text(*t, lit@),
{
    match t {
        Tok::Ident(s) => text_is(s, lit),
        _ => false,
    }
}

pub fn tok_is_group(t: &Tok, d: Delim) -> (r: bool)
    ensures
        r == is_group(*t, d),
{
    match t {
        Tok::Group(e, _) => *e == d,
        _ => false,
    }
}

pub fn vec_at_punct(s: &Vec<Tok>, i: usize, c: char) -> (r: bool)
    ensures
        r == at_punct(s@, i as int, c),
{
    i < s.len() && tok_is_punct(&s[i], c)
}

pub fn vec_at_ident_text(s: &Vec<Tok>, i: usize, lit: &str) -> (r: bool)
    ensures
        r == at_ident_text(s@, i as int, lit@),
{
    i < s.len() && tok_is_ident_text(&s[i], lit)
}

pub fn vec_is_punct2(s: &Vec<Tok>, i: usize, c1: char, c2: char) -> (r: bool)
    ensures
        r == is_punct2(s@, i as int, c1, c2),
{
    i < s.len() && i + 1 < s.len() && tok_is_joint_punct(&s[i], c1) && tok_is_punct(&s[i + 1], c2)
}

fn append_delim(out: &mut String, d: Delim, open: bool)
    ensures
        final(out)@ == old(out)@ + (if open { open_text(d) } else { close_text(d) }),
{
    match d {
        Delim::Paren => out.append(if open { "(" } else { ")" }),
        Delim::Brace => out.append(if open { "{" } else { "}" }),
        Delim::Bracket => out.append(if open { "[" } else { "]" }),
        Delim::Invisible => out.append(""),
    }
}

/// Appends the text of one token tree to `out`.
pub fn render_tok_into(t: &Tok, out: &mut String)
    ensures
        final(out)@ == old(out)@ + render_tok(*t),
    decreases *t,
{
    match t {
        Tok::Ident(s) => out.append(s.as_str()),
        Tok::Punct(c, _) => {
            push_char(out, *c);
            assert(old(out)@.push(*c) =~= old(out)@ + seq![*c]);
        },
        Tok::Lit(s) => out.append(s.as_str()),
        Tok::Group(d, v) => {
            let ghost before = out@;
            append_delim(out, *d, true);
            render_range_into(v, 0, v.len(), out);
            append_delim(out, *d, false);
            assert(v@.subrange(0, v@.len() as int) =~= v@);
            assert(out@ =~= before + render_tok(*t));
        },
    }
}

/// Appends the text of `s[lo..hi]` to `out`.
pub fn render_range_into(s: &Vec<Tok>, lo: usize, hi: usize, out: &mut String)
    requires
        lo <= hi <= s.len(),
    ensures
        final(out)@ == old(out)@ + render_range(s@, lo as int, hi as int),
    decreases s@,
{
    let ghost start = out@;
    let mut i = lo;
    assert(s@.subrange(lo as int, lo as int) =~= Seq::<Tok>::empty());
    assert(start =~= start + render_range(s@, lo as int, lo as int));
    while i < hi
        invariant
            lo <= i <= hi <= s.len(),
            out@ == start + render_range(s@, lo as int, i as int),
        decreases hi - i,
    {
        proof {
            lemma_render_range_step(s@, lo as int, i as int);
        }
        let ghost mid = out@;
        assert(decreases_to!(s@ => s@[i as int]));
        render_tok_into(&s[i], out);
        let joint = match &s[i] {
            Tok::Punct(_, j) => *j,
            _ => false,
        };
        if !joint {
            out.append(" ");
        }
        assert(out@ =~= start + render_range(s@, lo as int, i + 1));
        i = i + 1;
    }
}

/// Appends the spaced text of one token tree to `out`.
pub fn spaced_tok_into(t: &Tok, out: &mut String)
    ensures
        final(out)@ == old(out)@ + spaced_tok(*t),
    decreases *t,
{
    match t {
        Tok::Ident(s) => out.append(s.as_str()),
        Tok::Punct(c, _) => {
            push_char(out, *c);
            assert(old(out)@.push(*c) =~= old(out)@ + seq![*c]);
        },
        Tok::Lit(s) => out.append(s.as_str()),
        Tok::Group(d, v) => {
            let ghost before = out@;
            append_delim(out, *d, true);
            spaced_range_into(v, 0, v.len(), out);
            append_delim(out, *d, false);
            assert(v@.subrange(0, v@.len() as int) =~= v@);
            assert(out@ =~= before + spaced_tok(*t));
        },
    }
}

/// Appends the spaced text of `s[lo..hi]` to `out`.
pub fn spaced_range_into(s: &Vec<Tok>, lo: usize, hi: usize, out: &mut String)
    requires
        lo <= hi <= s.len(),
    ensures
        final(out)@ == old(out)@ + spaced_range(s@, lo as int, hi as int),
    decreases s@,
{
    let ghost start = out@;
    let mut i = lo;
    assert(s@.subrange(lo as int, lo as int) =~= Seq::<Tok>::empty());
    assert(start =~= start + spaced_range(s@, lo as int, lo as int));
    while i < hi
        invariant
            lo <= i <= hi <= s.len(),
            out@ == start + spaced_range(s@, lo as int, i as int),
        decreases hi - i,
    {
        assert(s@.subrange(lo as int, i + 1) =~= s@.subrange(lo as int, i as int).push(s@[i as int]));
        assert(s@.subrange(lo as int, i as int).push(s@[i as int]).drop_last() =~= s@.subrange(lo as int, i as int));
        assert(decreases_to!(s@ => s@[i as int]));
        spaced_tok_into(&s[i], out);
        out.append(" ");
        assert(out@ =~= start + spaced_range(s@, lo as int, i + 1));
        i = i + 1;
    }
}

/// The text of `s[lo..hi]` as a new string.
pub fn render_text(s: &Vec<Tok>, lo: usize, hi: usize) -> (r: String)
    requires
        lo <= hi <= s.len(),
    ensures
        r@ == render_range(s@, lo as int, hi as int),
{
    let mut out = String::new();
    render_range_into(s, lo, hi, &mut out);
    assert(out@ =~= render_range(s@, lo as int, hi as int));
    out
}

} // verus!
