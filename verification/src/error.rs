//! Errors that the macro front ends report.
use vstd::prelude::*;

verus! {

/// Where an error points.
///
/// `Input(path)` names a token of the macro's main input (the `proxy!`
/// body, the derive input, or the `#[drive(..)]` arguments) by its path
/// of indices through nested groups; `Item(path)` does the same in the
/// item that `#[drive]` is attached to. An index one past the end of a
/// group names that group's closing delimiter.
#[derive(Debug)]
pub enum Site {
    CallSite,
    Input(Vec<usize>),
    Item(Vec<usize>),
}

pub enum SiteV {
    CallSite,
    Input(Seq<usize>),
    Item(Seq<usize>),
}

impl View for Site {
    type V = SiteV;

    open spec fn view(&self) -> SiteV {
        match self {
            Site::CallSite => SiteV::CallSite,
            Site::Input(p) => SiteV::Input(p@),
            Site::Item(p) => SiteV::Item(p@),
        }
    }
}

/// A macro error: the message and the place it points at.
#[derive(Debug)]
pub struct MacroError {
    pub site: Site,
    pub message: String,
}

pub struct ErrorV {
    pub site: SiteV,
    pub message: Seq<char>,
}

impl View for MacroError {
    type V = ErrorV;

    open spec fn view(&self) -> ErrorV {
        ErrorV { site: self.site@, message: self.message@ }
    }
}

pub open spec fn err_v(site: SiteV, message: Seq<char>) -> ErrorV {
    ErrorV { site, message }
}

pub open spec fn result_view<T>(r: Result<T, MacroError>) -> Result<T, ErrorV> {
    match r {
        Ok(t) => Ok(t),
        Err(e) => Err(e@),
    }
}

pub fn call_site_error(message: &str) -> (e: MacroError)
    ensures
        e@ == err_v(SiteV::CallSite, message@),
{
    MacroError { site: Site::CallSite, message: String::from_str(message) }
}

pub fn input_error1(i: usize, message: &str) -> (e: MacroError)
    ensures
        e@ == err_v(SiteV::Input(seq![i]), message@),
{
    let mut p = Vec::new();
    p.push(i);
    proof {
        assert(p@ =~= seq![i]);
    }
    MacroError { site: Site::Input(p), message: String::from_str(message) }
}

pub fn input_error2(i: usize, j: usize, message: &str) -> (e: MacroError)
    ensures
        e@ == err_v(SiteV::Input(seq![i, j]), message@),
{
    let mut p = Vec::new();
    p.push(i);
    p.push(j);
    proof {
        assert(p@ =~= seq![i, j]);
    }
    MacroError { site: Site::Input(p), message: String::from_str(message) }
}

pub fn input_error3(i: usize, j: usize, k: usize, message: &str) -> (e: MacroError)
    ensures
        e@ == err_v(SiteV::Input(seq![i, j, k]), message@),
{
    let mut p = Vec::new();
    p.push(i);
    p.push(j);
    p.push(k);
    proof {
        assert(p@ =~= seq![i, j, k]);
    }
    MacroError { site: Site::Input(p), message: String::from_str(message) }
}

pub fn item_error1(i: usize, message: &str) -> (e: MacroError)
    ensures
        e@ == err_v(SiteV::Item(seq![i]), message@),
{
    let mut p = Vec::new();
    p.push(i);
    proof {
        assert(p@ =~= seq![i]);
    }
    MacroError { site: Site::Item(p), message: String::from_str(message) }
}

} // verus!
