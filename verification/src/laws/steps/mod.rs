//! How each primitive begins, and how it goes on after an answer, told by the cells of its
//! form and of the heap.
pub mod binding;
pub mod command;
pub mod control;
pub mod functions;
pub mod variables;
