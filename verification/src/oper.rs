//! The [`Oper`] trait: the "what" of an operation.
//!
//! An [`Oper`] carries the input of one unit of work and declares the type
//! of value it produces. How it is executed belongs to the
//! [`Step`](crate::step::Step) or [`Run`](crate::step::Run) that executes
//! it, so the same operation can be executed by different executors.
use vstd::prelude::*;

verus! {

/// A single operation: a plain data type holding the parameters of the
/// operation, with the type of value it produces on success.
pub trait Oper {
    /// The type of value produced when this operation succeeds.
    type Output;
}

} // verus!
