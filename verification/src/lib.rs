//! Core logic of a small interactive shell and the other verified pieces
//! that grew around it: job control for the shell's worker thread, a
//! bytecode regular-expression engine, a linear-type checker with its
//! parser, and a handful of small data structures.

pub mod calc;
pub mod dbg;
pub mod engine;
pub mod helper;
pub mod list;
pub mod markdown;
pub mod parser;
pub mod shell;
pub mod sort;
pub mod text;
pub mod typing;
pub mod visibility;

pub use engine::do_matching;
