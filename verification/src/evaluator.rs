//! The evaluator: a tree walk over expressions against an environment.
//!
//! Semantics by node kind: a number is itself; a symbol is looked up in
//! the environment chain; an empty list is nil by policy; a non-empty
//! list is dispatched on its head. The head `define`, with a symbol and
//! one operand, evaluates the operand, binds the symbol in the current
//! scope and returns the value. A built-in operator head (`+`, `-`, `*`,
//! `<`, `>`, `=`) takes exactly two operands, evaluated left to right in
//! the current environment, so a binding made by an earlier operand is
//! visible to a later one; the arithmetic operators demand numbers and
//! reject a result outside the signed 64-bit range rather than wrap.
//! Any other head is evaluated in turn: a value that is no operator is a
//! [`KirundiError::RuntimeError`], an unbound symbol a
//! [`KirundiError::UndefinedVariable`].

use vstd::prelude::*;

use crate::environment::{lookup_scopes, Environment};
use crate::error::{ErrorV, KirundiError};
use crate::parser::{exprs_view, lemma_exprs_view, Expr, ExprV};
use crate::value::{Value, ValueV};

verus! {

pub open spec fn msg_define_shape() -> Seq<char> {
    "define needs a name and one expression"@
}

pub open spec fn msg_arity() -> Seq<char> {
    "an operator needs exactly two operands"@
}

pub open spec fn msg_not_number() -> Seq<char> {
    "operand is not a number"@
}

pub open spec fn msg_overflow() -> Seq<char> {
    "arithmetic overflow"@
}

pub open spec fn msg_not_operator() -> Seq<char> {
    "the head of a form is not an operator"@
}

/// The closed set of built-in operator names.
pub open spec fn is_builtin_sym(s: Seq<char>) -> bool {
    s == "+"@ || s == "-"@ || s == "*"@ || s == "<"@ || s == ">"@ || s == "="@
}

pub open spec fn in_i64(x: int) -> bool {
    i64::MIN as int <= x <= i64::MAX as int
}

/// Applying a built-in operator to two evaluated operands.
pub open spec fn spec_apply(op: Seq<char>, v1: ValueV, v2: ValueV) -> Result<ValueV, ErrorV> {
    match (v1, v2) {
        (ValueV::Number(a), ValueV::Number(b)) => {
            if op == "+"@ {
                if in_i64(a + b) {
                    Ok(ValueV::Number(a + b))
                } else {
                    Err(ErrorV::RuntimeError(msg_overflow()))
                }
            } else if op == "-"@ {
                if in_i64(a - b) {
                    Ok(ValueV::Number(a - b))
                } else {
                    Err(ErrorV::RuntimeError(msg_overflow()))
                }
            } else if op == "*"@ {
                if in_i64(a * b) {
                    Ok(ValueV::Number(a * b))
                } else {
                    Err(ErrorV::RuntimeError(msg_overflow()))
                }
            } else if op == "<"@ {
                Ok(ValueV::Boolean(a < b))
            } else if op == ">"@ {
                Ok(ValueV::Boolean(a > b))
            } else {
                Ok(ValueV::Boolean(a == b))
            }
        },
        _ => Err(ErrorV::RuntimeError(msg_not_number())),
    }
}

/// What evaluating an expression yields, and the environment chain it
/// leaves behind.
pub open spec fn spec_eval(e: ExprV, env: Seq<Map<Seq<char>, ValueV>>) -> (Result<
    ValueV,
    ErrorV,
>, Seq<Map<Seq<char>, ValueV>>)
    decreases e,
{
    match e {
        ExprV::Number(n) => (Ok(ValueV::Number(n)), env),
        ExprV::Symbol(s) => match lookup_scopes(env, s) {
            Option::Some(v) => (Ok(v), env),
            Option::None => (Err(ErrorV::UndefinedVariable(s)), env),
        },
        ExprV::List(es) => {
            if es.len() == 0 {
                (Ok(ValueV::Nil), env)
            } else {
                match es[0] {
                    ExprV::Symbol(op) => {
                        if op == "define"@ {
                            if es.len() == 3 && es[1] is Symbol {
                                let (r2, env2) = spec_eval(es[2], env);
                                match r2 {
                                    Ok(v) => (
                                        Ok(v),
                                        env2.update(0, env2[0].insert(es[1]->Symbol_0, v)),
                                    ),
                                    Err(er) => (Err(er), env2),
                                }
                            } else {
                                (Err(ErrorV::RuntimeError(msg_define_shape())), env)
                            }
                        } else if is_builtin_sym(op) {
                            if es.len() == 3 {
                                let (r1, env1) = spec_eval(es[1], env);
                                match r1 {
                                    Ok(v1) => {
                                        let (r2, env2) = spec_eval(es[2], env1);
                                        match r2 {
                                            Ok(v2) => (spec_apply(op, v1, v2), env2),
                                            Err(er) => (Err(er), env2),
                                        }
                                    },
                                    Err(er) => (Err(er), env1),
                                }
                            } else {
                                (Err(ErrorV::RuntimeError(msg_arity())), env)
                            }
                        } else {
                            match lookup_scopes(env, op) {
                                Option::Some(_) => (
                                    Err(ErrorV::RuntimeError(msg_not_operator())),
                                    env,
                                ),
                                Option::None => (Err(ErrorV::UndefinedVariable(op)), env),
                            }
                        }
                    },
                    _ => {
                        let (r1, env1) = spec_eval(es[0], env);
                        match r1 {
                            Ok(_) => (Err(ErrorV::RuntimeError(msg_not_operator())), env1),
                            Err(er) => (Err(er), env1),
                        }
                    },
                }
            }
        },
    }
}

/// Whether a symbol equals a given literal name.
fn sym_is(op: &String, lit: &str) -> (r: bool)
    ensures
        r == (op@ == lit@),
{
    let s: String = lit.to_owned();
    *op == s
}

fn builtin_op(op: &String) -> (r: bool)
    ensures
        r == is_builtin_sym(op@),
{
    sym_is(op, "+") || sym_is(op, "-") || sym_is(op, "*") || sym_is(op, "<") || sym_is(op, ">")
        || sym_is(op, "=")
}

/// Applies a built-in operator to two evaluated operands.
fn apply_builtin(op: &String, v1: &Value, v2: &Value) -> (r: Result<Value, KirundiError>)
    requires
        is_builtin_sym(op@),
    ensures
        match r {
            Ok(v) => spec_apply(op@, v1@, v2@) == Ok::<ValueV, ErrorV>(v@),
            Err(e) => spec_apply(op@, v1@, v2@) == Err::<ValueV, ErrorV>(e@),
        },
{
    let a: i64;
    let b: i64;
    match (v1, v2) {
        (Value::Number(x), Value::Number(y)) => {
            a = *x;
            b = *y;
        },
        _ => {
            return Err(KirundiError::RuntimeError("operand is not a number".to_owned()));
        },
    }
    if sym_is(op, "+") {
        let s: i128 = a as i128 + b as i128;
        if s < i64::MIN as i128 || s > i64::MAX as i128 {
            Err(KirundiError::RuntimeError("arithmetic overflow".to_owned()))
        } else {
            Ok(Value::Number(s as i64))
        }
    } else if sym_is(op, "-") {
        let s: i128 = a as i128 - b as i128;
        if s < i64::MIN as i128 || s > i64::MAX as i128 {
            Err(KirundiError::RuntimeError("arithmetic overflow".to_owned()))
        } else {
            Ok(Value::Number(s as i64))
        }
    } else if sym_is(op, "*") {
        proof {
            assert((a as int) * (b as int) <= i128::MAX as int && (a as int) * (b as int)
                >= i128::MIN as int) by (nonlinear_arith)
                requires
                    i64::MIN as int <= a as int <= i64::MAX as int,
                    i64::MIN as int <= b as int <= i64::MAX as int,
            ;
        }
        let s: i128 = a as i128 * b as i128;
        if s < i64::MIN as i128 || s > i64::MAX as i128 {
            Err(KirundiError::RuntimeError("arithmetic overflow".to_owned()))
        } else {
            Ok(Value::Number(s as i64))
        }
    } else if sym_is(op, "<") {
        Ok(Value::Boolean(a < b))
    } else if sym_is(op, ">") {
        Ok(Value::Boolean(a > b))
    } else {
        Ok(Value::Boolean(a == b))
    }
}

/// The tree-walking evaluator. It holds no state of its own: every call
/// works on the environment handed to it.
#[derive(Debug)]
pub struct Evaluator {}

impl Evaluator {
    pub fn new() -> (r: Evaluator) {
        Evaluator {}
    }

    /// Evaluates `ast` against `env`, returning the value and leaving the
    /// environment as the evaluation's bindings dictate.
    pub fn evaluate(&self, ast: &Expr, env: &mut Environment) -> (r: Result<Value, KirundiError>)
        ensures
            ({
                let (res, em) = spec_eval(ast@, old(env)@);
                &&& final(env)@ == em
                &&& match r {
                    Ok(v) => res == Ok::<ValueV, ErrorV>(v@),
                    Err(er) => res == Err::<ValueV, ErrorV>(er@),
                }
            }),
        decreases *ast,
    {
        match ast {
            Expr::Number(n) => Ok(Value::Number(*n)),
            Expr::Symbol(s) => match env.lookup(s.as_str()) {
                Ok(v) => Ok(v.duplicate()),
                Err(e) => Err(e),
            },
            Expr::List(es) => {
                proof {
                    lemma_exprs_view(es@);
                }
                if es.len() == 0 {
                    return Ok(Value::Nil);
                }
                match &es[0] {
                    Expr::Symbol(op) => {
                        if sym_is(op, "define") {
                            if es.len() == 3 {
                                match &es[1] {
                                    Expr::Symbol(name) => {
                                        match self.evaluate(&es[2], env) {
                                            Ok(v) => {
                                                let stored = v.duplicate();
                                                env.set(name.clone(), stored);
                                                Ok(v)
                                            },
                                            Err(er) => Err(er),
                                        }
                                    },
                                    _ => Err(
                                        KirundiError::RuntimeError(
                                            "define needs a name and one expression".to_owned(),
                                        ),
                                    ),
                                }
                            } else {
                                Err(
                                    KirundiError::RuntimeError(
                                        "define needs a name and one expression".to_owned(),
                                    ),
                                )
                            }
                        } else if builtin_op(op) {
                            if es.len() == 3 {
                                match self.evaluate(&es[1], env) {
                                    Ok(v1) => match self.evaluate(&es[2], env) {
                                        Ok(v2) => apply_builtin(op, &v1, &v2),
                                        Err(er) => Err(er),
                                    },
                                    Err(er) => Err(er),
                                }
                            } else {
                                Err(
                                    KirundiError::RuntimeError(
                                        "an operator needs exactly two operands".to_owned(),
                                    ),
                                )
                            }
                        } else {
                            match env.lookup(op.as_str()) {
                                Ok(_) => Err(
                                    KirundiError::RuntimeError(
                                        "the head of a form is not an operator".to_owned(),
                                    ),
                                ),
                                Err(e) => Err(e),
                            }
                        }
                    },
                    _ => {
                        match self.evaluate(&es[0], env) {
                            Ok(_) => Err(
                                KirundiError::RuntimeError(
                                    "the head of a form is not an operator".to_owned(),
                                ),
                            ),
                            Err(er) => Err(er),
                        }
                    },
                }
            },
        }
    }
}

/// Evaluating an empty list yields nil, never errs, and leaves any
/// environment unchanged.
pub proof fn lemma_eval_empty_list(env: Seq<Map<Seq<char>, ValueV>>)
    ensures
        spec_eval(ExprV::List(Seq::empty()), env) == (Ok::<ValueV, ErrorV>(ValueV::Nil), env),
{
}

/// Evaluating a symbol bound in no scope fails with exactly
/// `UndefinedVariable` naming it, and leaves the environment untouched.
pub proof fn lemma_eval_undefined_symbol(s: Seq<char>, env: Seq<Map<Seq<char>, ValueV>>)
    requires
        lookup_scopes(env, s) is None,
    ensures
        spec_eval(ExprV::Symbol(s), env) == (
            Err::<ValueV, ErrorV>(ErrorV::UndefinedVariable(s)),
            env,
        ),
{
}

} // verus!
