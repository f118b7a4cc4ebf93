//! Type inference and type checking for two small lambda-calculus languages.
//!
//! The `hm` module infers types for an implicitly typed language by
//! collecting equality constraints over a term tree and solving them by
//! unification with an occurs check.  The `stlc` module checks an
//! explicitly typed language by direct structural comparison.

pub mod hm;
pub mod span;
pub mod stlc;
