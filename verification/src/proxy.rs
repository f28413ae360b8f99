//! The [`Proxy`] trait: executing an operation through a repository-backed
//! proxy, so that business logic depends only on the operations it needs.
use vstd::prelude::*;
use std::future::Future;
use crate::oper::Oper;

verus! {

/// Executes an operation `O` through a proxy. Proxies built by `proxy!`
/// forward to a provider's [`Run`](crate::step::Run) or
/// [`Step`](crate::step::Step).
pub trait Proxy<O> where O: Oper {
    /// The error returned when the proxied operation fails.
    type Error;

    /// The future that executes the operation.
    type Fut<'a>: Future<Output = Result<O::Output, Self::Error>> + Send where Self: 'a, O: 'a;

    /// Executes `oper` through the proxy's underlying provider.
    fn exec<'a>(&'a mut self, oper: &'a O) -> Self::Fut<'a>;
}

} // verus!
