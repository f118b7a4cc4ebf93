//! The implicitly typed language: constraint-based Hindley-Milner-style
//! type inference.
//!
//! `ast` holds the term tree, `inference` walks it collecting equality
//! constraints, `unify` solves the constraints into a substitution, and
//! `error` holds the errors either step can raise.

pub mod ast;
pub mod error;
pub mod inference;
pub mod unify;
