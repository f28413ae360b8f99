//! Traits for composing operations and executing them with or without a
//! transaction context, and the front ends of the crate's macros.
//!
//! - [`Oper`] describes *what* to do: the operation's input and its output
//!   type.
//! - [`Step`] and [`Run`] describe *how*: inside a context that provides a
//!   transaction [`Level`], or on their own.
//! - [`Proxy`] executes operations through providers chosen at the call
//!   site; `proxy!` builds one.
//! - [`Error`](nucl::Error) separates backend failures from step failures.
//!
//! The macro front ends (`proxy`, `drive`, `derive_oper`) read token trees
//! ([`token::Tok`]) and answer with Rust source text or a [`error::MacroError`].
use vstd::prelude::*;

pub mod drive_macro;
pub mod error;
pub mod grammar;
pub mod level;
pub mod nucl;
pub mod oper;
pub mod oper_macro;
pub mod orchestra;
pub mod proxy;
pub mod proxy_macro;
pub mod step;
pub mod syntax;
pub mod token;

pub use level::{AtLeast, Context, Level, LevelGuard};
pub use nucl::Error;
pub use oper::Oper;
pub use proxy::Proxy;
pub use step::{OperRun, OperStep, Run, Step};
pub use drive_macro::drive;
pub use oper_macro::derive_oper;
pub use proxy_macro::proxy;

verus! {

} // verus!
