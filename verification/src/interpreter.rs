//! The interpreter: one persistent top-level environment fed one line of
//! source at a time through tokenize, parse and evaluate.
//!
//! Definitions made by one line are visible to later lines, and a failing
//! line leaves the environment exactly as it was, so a session survives
//! its errors.

use vstd::prelude::*;

use crate::environment::Environment;
use crate::error::{ErrorV, KirundiError};
use crate::evaluator::{spec_eval, Evaluator};
use crate::parser::{parse, spec_parse};
use crate::tokenizer::{spec_tokenize, tokenize};
use crate::value::{Value, ValueV};

verus! {

/// What running one source line against an environment yields: the value
/// or the first error of the pipeline, and the environment left behind.
/// A lexer or parser failure leaves the environment unchanged.
pub open spec fn spec_run(s: Seq<char>, env: Seq<Map<Seq<char>, ValueV>>) -> (Result<
    ValueV,
    ErrorV,
>, Seq<Map<Seq<char>, ValueV>>) {
    match spec_tokenize(s) {
        Err(e) => (Err(e), env),
        Ok(ts) => match spec_parse(ts) {
            Err(e) => (Err(e), env),
            Ok(ex) => spec_eval(ex, env),
        },
    }
}

/// A session: the whole pipeline around one persistent global scope.
pub struct Interpreter {
    env: Environment,
}

impl View for Interpreter {
    type V = Seq<Map<Seq<char>, ValueV>>;

    closed spec fn view(&self) -> Seq<Map<Seq<char>, ValueV>> {
        self.env@
    }
}

impl Interpreter {
    /// A fresh session: one empty global scope.
    pub fn new() -> (r: Interpreter)
        ensures
            r@ == seq![Map::<Seq<char>, ValueV>::empty()],
    {
        Interpreter { env: Environment::new() }
    }

    /// Runs one line of source through tokenize, parse and evaluate
    /// against the session's environment.
    pub fn eval(&mut self, source: &str) -> (r: Result<Value, KirundiError>)
        ensures
            ({
                let (res, em) = spec_run(source@, old(self)@);
                &&& final(self)@ == em
                &&& match r {
                    Ok(v) => res == Ok::<ValueV, ErrorV>(v@),
                    Err(e) => res == Err::<ValueV, ErrorV>(e@),
                }
            }),
    {
        let tokens = match tokenize(source) {
            Ok(ts) => ts,
            Err(e) => {
                return Err(e);
            },
        };
        let ast = match parse(&tokens) {
            Ok(a) => a,
            Err(e) => {
                return Err(e);
            },
        };
        let evaluator = Evaluator::new();
        evaluator.evaluate(&ast, &mut self.env)
    }
}

} // verus!
