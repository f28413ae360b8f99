//! The path under which generated code names this crate.
use vstd::prelude::*;
use crate::error::{MacroError, ErrorV, SiteV, err_v};
use crate::syntax::{CrateLookup, CrateLookupV};

verus! {

/// The path for a lookup answer: `crate` inside this crate itself,
/// `::name` where it is a dependency named `name`; a failed lookup is an
/// error at the call site that carries the lookup's message.
pub open spec fn orchestra_path_spec(l: CrateLookupV) -> Result<Seq<char>, ErrorV> {
    match l {
        CrateLookupV::Itself => Ok("crate"@),
        CrateLookupV::Name(n) => Ok("::"@ + n),
        CrateLookupV::Failed(m) => Err(err_v(SiteV::CallSite, m)),
    }
}

pub open spec fn text_result(r: Result<String, MacroError>) -> Result<Seq<char>, ErrorV> {
    match r {
        Ok(t) => Ok(t@),
        Err(e) => Err(e@),
    }
}

/// The path under which generated code names this crate, given the answer
/// of the lookup of `poprako-orchestra` among the dependencies of the crate
/// being compiled.
pub fn orchestra_path(lookup: CrateLookup) -> (r: Result<String, MacroError>)
    ensures
        text_result(r) == orchestra_path_spec(lookup@),
{
    match lookup {
        CrateLookup::Itself => Ok(String::from_str("crate")),
        CrateLookup::Name(name) => {
            let mut path = String::from_str("::");
            path.append(name.as_str());
            Ok(path)
        },
        CrateLookup::Failed(message) => Err(MacroError { site: crate::error::Site::CallSite, message }),
    }
}

} // verus!
