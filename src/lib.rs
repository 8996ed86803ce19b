//! A small evaluator for a Lisp-like language that reduces expressions to
//! values where their operands are known and otherwise to simplified
//! residual expressions, with a scoped environment of definitions.
//!
//! `semantics` states what evaluation means over the models of expressions
//! (`types::Term`) and of the environment; `evaluator` is proved to compute
//! exactly that, and `laws` proves properties of it.

pub mod scanner;
pub mod types;
pub mod env;
pub mod semantics;
pub mod reduce;
pub mod evaluator;
pub mod laws;
pub mod parser;
pub mod printer;
