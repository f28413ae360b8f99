//! The [`Step`] and [`Run`] traits: the "how" of an operation, inside a
//! transaction context or on its own.
//!
//! Each executor hands back a future that it names as an associated type,
//! `Fut<'a>`, which borrows the executor, the operation and (for a step)
//! the context for `'a`.
use vstd::prelude::*;
use std::future::Future;
use crate::level::{Context, Level, LevelGuard};
use crate::oper::Oper;

verus! {

/// An async executor that processes an operation `O` against a context `C`.
pub trait Step<O, C> where O: Oper, C: Context {
    /// The minimum transaction level this executor requires for `O`. The
    /// same executor may require different levels for different operations.
    type Level: Level;

    /// The error that executing the step may produce.
    type Error;

    /// The future that executes the step.
    type Fut<'a>: Future<Output = Result<O::Output, Self::Error>> + Send where
        Self: 'a,
        O: 'a,
        C: 'a,
    ;

    /// Executes the operation against the given context.
    fn step<'a>(&'a self, cx: &'a mut C, oper: &'a O) -> Self::Fut<'a> where
        Self: LevelGuard<<C as Context>::Level, Self::Level>,
    ;
}

/// Invokes a [`Step`] from the operation: `oper.step_on(repo, cx)` is
/// `repo.step(cx, &oper)`.
pub trait OperStep<C>: Oper where C: Context {
    /// Executes this operation with `repo` and `cx`: the future is one that
    /// `R::step` gives for `repo`, a borrow of the context that holds and
    /// leaves what `cx` holds and leaves, and this operation.
    fn step_on<'a, R>(&'a self, repo: &'a R, cx: &'a mut C) -> (r: <R as Step<Self, C>>::Fut<'a>) where
        Self: Sized,
        R: ?Sized + Step<Self, C>,
        R: LevelGuard<<C as Context>::Level, <R as Step<Self, C>>::Level>,
        ensures
            exists|c: &mut C|
                *c == *old(cx) && *final(c) == *final(cx) && call_ensures(
                    <R as Step<Self, C>>::step,
                    (repo, c, self),
                    r,
                ),
    {
        repo.step(cx, self)
    }
}

impl<O, C> OperStep<C> for O where O: Oper, C: Context {}

/// A self-contained async executor that processes an operation `O`.
pub trait Run<O> where O: Oper {
    /// The error that executing the operation may produce.
    type Error;

    /// The future that executes the operation.
    type Fut<'a>: Future<Output = Result<O::Output, Self::Error>> + Send where Self: 'a, O: 'a;

    /// Executes the operation.
    fn run<'a>(&'a self, oper: &'a O) -> Self::Fut<'a>;
}

/// Invokes a [`Run`] from the operation: `oper.run_on(repo)` is
/// `repo.run(&oper)`.
pub trait OperRun: Oper {
    /// Executes this operation with `repo`: the future is one that `R::run`
    /// gives for `repo` and this operation.
    fn run_on<'a, R>(&'a self, repo: &'a R) -> (r: <R as Run<Self>>::Fut<'a>) where
        Self: Sized,
        R: ?Sized + Run<Self>,
        ensures
            call_ensures(<R as Run<Self>>::run, (repo, self), r),
    {
        repo.run(self)
    }
}

impl<O> OperRun for O where O: Oper {}

} // verus!
