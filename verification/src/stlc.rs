//! The explicitly typed (simply typed) language: terms carry their
//! parameter types, and `typechecker` checks them by direct structural
//! comparison, with no inference.

pub mod ast;
pub mod error;
pub mod typechecker;
