//! The closed error taxonomy shared by the tokenizer, parser and evaluator.
//!
//! Every stage returns its error to the caller; nothing in the core panics
//! or terminates the process. Each kind carries the structured payload a
//! front end needs to render a message: the offending name for an undefined
//! variable, the malformed word for a lexer failure, and a short description
//! for syntax and runtime failures.

use vstd::prelude::*;

verus! {

/// An interpreter failure.
#[derive(Debug, PartialEq, Eq)]
pub enum KirundiError {
    /// A symbol reference found no binding anywhere in the scope chain;
    /// carries the name that was looked up.
    UndefinedVariable(String),
    /// A word could not be classified into the token vocabulary (an
    /// all-digit word whose value exceeds the 64-bit signed range);
    /// carries the offending word.
    LexError(String),
    /// A malformed token sequence: unmatched parentheses, trailing tokens,
    /// or input exhausted where an expression was expected.
    SyntaxError(String),
    /// A value of the wrong kind was used where another kind was required,
    /// or an unrecognized operator was invoked.
    RuntimeError(String),
}

/// The mathematical model of an error: the same taxonomy over character
/// sequences instead of heap-allocated strings.
pub enum ErrorV {
    UndefinedVariable(Seq<char>),
    LexError(Seq<char>),
    SyntaxError(Seq<char>),
    RuntimeError(Seq<char>),
}

impl View for KirundiError {
    type V = ErrorV;

    open spec fn view(&self) -> ErrorV {
        match self {
            KirundiError::UndefinedVariable(name) => ErrorV::UndefinedVariable(name@),
            KirundiError::LexError(word) => ErrorV::LexError(word@),
            KirundiError::SyntaxError(msg) => ErrorV::SyntaxError(msg@),
            KirundiError::RuntimeError(msg) => ErrorV::RuntimeError(msg@),
        }
    }
}

} // verus!
