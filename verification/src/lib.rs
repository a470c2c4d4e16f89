//! Core of a compiler front end's semantic analysis: a memoizing,
//! cycle-detecting query database, and an arena-backed system of lazy,
//! fallible, memoized slots that build semantic nodes from syntax nodes
//! on demand, exactly once, with stable references.

pub mod ast;
pub mod hir;
pub mod query;
pub mod source;
pub mod table;
