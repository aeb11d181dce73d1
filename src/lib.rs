//! An interpreter core for an optionally typed lambda calculus: a parser for
//! its concrete syntax, capture-avoiding substitution, normal-order reduction
//! against a binding environment, a bidirectional type checker with aliases and
//! a wildcard type, and a colored printer.
pub mod eval;
pub mod parse;
pub mod print;
pub mod syntax;
pub mod text;
pub mod types;
