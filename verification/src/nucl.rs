//! The error of a transactional nucleus.
//!
//! A nucleus is the coordinator of a transaction: it supplies a context and
//! runs application logic inside it. Its failures fall into two
//! categories, which [`Error`] keeps apart so that a caller can retry
//! backend failures and pass step failures on.
use vstd::prelude::*;

verus! {

/// Discriminates between failures of the transactional backend and
/// failures of the step logic run inside the transaction.
#[derive(Debug)]
pub enum Error<BE, SE> {
    /// An error from the transactional backend (connection lost, deadlock, ...).
    Backend(BE),
    /// An error from the step or business logic run inside the transaction.
    Step(SE),
}

/// The words that introduce an error's message.
pub open spec fn error_label<BE, SE>(e: &Error<BE, SE>) -> Seq<char> {
    match e {
        Error::Backend(_) => "transaction backend error"@,
        Error::Step(_) => "transaction step error"@,
    }
}

impl<BE, SE> Error<BE, SE> {
    /// The message of this error, given the message `detail` of the error
    /// it holds: `transaction backend error: ...` or
    /// `transaction step error: ...`.
    pub fn message(&self, detail: &str) -> (r: String)
        ensures
            r@ == error_label(self) + ": "@ + detail@,
    {
        let mut out = match self {
            Error::Backend(_) => String::from_str("transaction backend error"),
            Error::Step(_) => String::from_str("transaction step error"),
        };
        out.append(": ");
        out.append(detail);
        out
    }
}

} // verus!
