//! What the primitives do over a whole run, and how they work together.
//!
//! A law about the forms of a list supposes that the list itself stays as it is
//! while the forms are evaluated; everything else may change.
pub mod binding;
pub mod command;
pub mod control;
pub mod calls;
pub mod errors;
pub mod functions;
pub mod heap;
pub mod lists;
pub mod memory;
pub mod steps;
pub mod variables;
