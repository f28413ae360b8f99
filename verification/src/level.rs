//! Transaction-level compatibility, checked by the type system.
//!
//! Levels are marker types chosen by the user. The crate only provides the
//! reflexive relation; a stronger level declares that it covers a weaker
//! one by implementing [`AtLeast`] explicitly.
use vstd::prelude::*;

verus! {

/// Marks a type as a transaction level.
pub trait Level {}

/// States that `Self` provides at least the guarantees required by `R`.
pub trait AtLeast<R>: Level where R: Level {}

impl<L> AtLeast<L> for L where L: Level {}

/// Associates an execution context with the transaction level it provides.
pub trait Context {
    /// The transaction level this context provides.
    type Level: Level;
}

/// A bound on a stepper stating that the level a context provides covers
/// the level a step requires.
///
/// Unlike [`AtLeast`], a relation between two levels, this bound stands on
/// the stepper itself, so that `#[drive]` can hoist per-operation level
/// requirements into the supertraits of an aggregate trait, while the
/// blanket impl below still demands the [`AtLeast`] relation wherever the
/// types are concrete.
pub trait LevelGuard<Provided: Level, Required: Level> {}

impl<P, R, S> LevelGuard<P, R> for S where P: Level, R: Level, P: AtLeast<R> {}

} // verus!
