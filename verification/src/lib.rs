//! A substitution-based evaluator for a small Scheme-like language: a lexer, a tree
//! builder, exact rational arithmetic, an evaluator that resolves names by rewriting
//! the expression tree, and a driver for whole programs.
//!
//! Evaluation need not end, so two limits make it total. `depth` bounds how deep
//! evaluation may nest; where it does not suffice there is no result. `retries`
//! bounds how often a deferred result is tried again under the definitions; where it
//! does not suffice the result stays deferred. More depth never changes a result,
//! and more retries never change a final one.

pub mod atom;
pub mod bind;
pub mod driver;
pub mod eval;
pub mod lexer;
pub mod parser;
pub mod rational;
pub mod render;
pub mod syntax;
pub mod table;
