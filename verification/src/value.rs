//! Run-time values.

use vstd::prelude::*;

use crate::number::{Number, SpecNumber};

verus! {

/// A value that an expression evaluates to.
#[derive(Debug, PartialEq)]
pub enum Value {
    Number(Number),
    String(String),
    Boolean(bool),
    Nil,
}

/// The mathematical twin of [`Value`].
pub enum SpecValue {
    Number(SpecNumber),
    String(Seq<char>),
    Boolean(bool),
    Nil,
}

impl View for Value {
    type V = SpecValue;

    open spec fn view(&self) -> SpecValue {
        match self {
            Value::Number(n) => SpecValue::Number(n@),
            Value::String(s) => SpecValue::String(s@),
            Value::Boolean(b) => SpecValue::Boolean(*b),
            Value::Nil => SpecValue::Nil,
        }
    }
}

impl Clone for Value {
    fn clone(&self) -> (r: Value)
        ensures
            r == *self,
    {
        match self {
            Value::Number(n) => Value::Number(n.duplicate()),
            Value::String(s) => Value::String(s.clone()),
            Value::Boolean(b) => Value::Boolean(*b),
            Value::Nil => Value::Nil,
        }
    }
}

/// How a value is shown: a number as its decimal rendering, a string as
/// itself, a boolean as `true` or `false`, and nil as `nil`.
pub open spec fn shown(v: SpecValue) -> Seq<char> {
    match v {
        SpecValue::Number(n) => n.text,
        SpecValue::String(s) => s,
        SpecValue::Boolean(b) => if b { "true"@ } else { "false"@ },
        SpecValue::Nil => "nil"@,
    }
}

impl Value {
    /// The shown form of the value, as [`shown`] says.
    pub fn to_text(&self) -> (s: String)
        ensures
            s@ == shown(self@),
    {
        match self {
            Value::Number(n) => n.text.clone(),
            Value::String(s) => s.clone(),
            Value::Boolean(b) => if *b { "true".to_owned() } else { "false".to_owned() },
            Value::Nil => "nil".to_owned(),
        }
    }
}

} // verus!
