//! A small interpreter for a Lisp-family expression language.
//!
//! Source text is tokenized into a flat token stream, parsed into an
//! s-expression tree, and evaluated against a lexically scoped environment
//! chain, producing a runtime value or an error from a closed taxonomy.

pub mod environment;
pub mod error;
pub mod evaluator;
pub mod interpreter;
pub mod parser;
pub mod tokenizer;
pub mod value;
