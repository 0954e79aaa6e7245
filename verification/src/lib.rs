//! The special forms and evaluation primitives of an Emacs Lisp interpreter,
//! written as resumable steps.
//!
//! A primitive such as [`control::or`] or [`binding::letX`] never calls the
//! evaluator. It answers with a [`machine::Step`]: a value, an error, or a
//! request to the interpreter core together with the frame in which the
//! primitive goes on once the request has been answered. The core carries the
//! request out, which may change anything on the heap, and hands the answer to
//! [`resume::resume`].
pub mod binding;
pub mod command;
pub mod control;
pub mod errors;
pub mod functions;
pub mod heap;
pub mod laws;
pub mod lists;
pub mod machine;
pub mod object;
pub mod resume;
pub mod trace;
pub mod variables;
