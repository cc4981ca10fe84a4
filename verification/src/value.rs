//! The runtime values evaluation produces and environments store.

use vstd::prelude::*;

verus! {

/// The result of evaluating an expression: a number, a stored symbol,
/// a boolean from a comparison, or nil for an expression with no
/// meaningful result.
#[derive(Debug, PartialEq, Eq)]
pub enum Value {
    Number(i64),
    Symbol(String),
    Boolean(bool),
    Nil,
}

/// The mathematical model of a runtime value.
pub enum ValueV {
    Number(int),
    Symbol(Seq<char>),
    Boolean(bool),
    Nil,
}

impl View for Value {
    type V = ValueV;

    open spec fn view(&self) -> ValueV {
        match self {
            Value::Number(n) => ValueV::Number(*n as int),
            Value::Symbol(s) => ValueV::Symbol(s@),
            Value::Boolean(b) => ValueV::Boolean(*b),
            Value::Nil => ValueV::Nil,
        }
    }
}

impl Value {
    /// An owned copy of the value.
    pub fn duplicate(&self) -> (r: Value)
        ensures
            r == *self,
    {
        match self {
            Value::Number(n) => Value::Number(*n),
            Value::Symbol(s) => Value::Symbol(s.clone()),
            Value::Boolean(b) => Value::Boolean(*b),
            Value::Nil => Value::Nil,
        }
    }
}

} // verus!
