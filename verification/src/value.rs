//! Runtime values and the truthiness rule.

use vstd::prelude::*;

use crate::numbers::{number_text, Number};

verus! {

use vstd::string::StringExecFns;

/// A value produced by evaluation: never constructed by the parser.
#[derive(Debug)]
pub enum Value {
    Nil,
    Boolean(bool),
    Number(Number),
    String(String),
}

/// The mathematical model of a value: numbers as raw counts of millionths,
/// strings as character sequences.
pub enum ValueModel {
    Nil,
    Boolean(bool),
    Number(int),
    String(Seq<char>),
}

/// The truthiness rule: only `nil` and `false` are falsy; every other value,
/// zero and the empty string included, is truthy.
pub open spec fn truthy(v: ValueModel) -> bool {
    !(v == ValueModel::Nil || v == ValueModel::Boolean(false))
}

/// The display form of a value.
pub open spec fn value_text(v: ValueModel) -> Seq<char> {
    match v {
        ValueModel::Nil => "nil"@,
        ValueModel::Boolean(b) => if b {
            "true"@
        } else {
            "false"@
        },
        ValueModel::Number(raw) => number_text(raw),
        ValueModel::String(s) => s,
    }
}

impl Value {
    /// The model of this value.
    pub open spec fn model(self) -> ValueModel {
        match self {
            Value::Nil => ValueModel::Nil,
            Value::Boolean(b) => ValueModel::Boolean(b),
            Value::Number(n) => ValueModel::Number(n.raw as int),
            Value::String(s) => ValueModel::String(s@),
        }
    }

    /// Whether the value counts as true in a condition.
    pub fn is_truthy(&self) -> (r: bool)
        ensures
            r == truthy(self.model()),
    {
        match self {
            Value::Boolean(false) | Value::Nil => false,
            _ => true,
        }
    }

    /// The display form of this value.
    pub fn to_text(&self) -> (r: String)
        ensures
            r@ == value_text(self.model()),
    {
        match self {
            Value::Nil => String::from_str("nil"),
            Value::Boolean(b) => {
                if *b {
                    String::from_str("true")
                } else {
                    String::from_str("false")
                }
            },
            Value::Number(n) => n.to_text(),
            Value::String(s) => s.clone(),
        }
    }
}

impl Clone for Value {
    fn clone(&self) -> (r: Self)
        ensures
            r == *self,
    {
        match self {
            Value::Nil => Value::Nil,
            Value::Boolean(b) => Value::Boolean(*b),
            Value::Number(n) => Value::Number(*n),
            Value::String(s) => Value::String(s.clone()),
        }
    }
}

impl PartialEq for Value {
    fn eq(&self, other: &Self) -> (r: bool) {
        match (self, other) {
            (Value::Nil, Value::Nil) => true,
            (Value::Boolean(a), Value::Boolean(b)) => *a == *b,
            (Value::Number(a), Value::Number(b)) => a.raw == b.raw,
            (Value::String(a), Value::String(b)) => *a == *b,
            _ => false,
        }
    }
}

impl Eq for Value {}

impl vstd::std_specs::cmp::PartialEqSpecImpl for Value {
    open spec fn obeys_eq_spec() -> bool {
        true
    }

    open spec fn eq_spec(&self, other: &Self) -> bool {
        self.model() == other.model()
    }
}

} // verus!
