//! Runtime values.
use vstd::prelude::*;
use crate::number::Number;

verus! {

/// A runtime value.
#[derive(Debug)]
pub enum Literal {
    Nil,
    Bool(bool),
    Number(Number),
    String(String),
}

/// What a `Literal` stands for: the same four cases, a string by its
/// characters.
pub enum Value {
    Nil,
    Bool(bool),
    Number(Number),
    Text(Seq<char>),
}

impl Value {
    /// Only `nil` and `false` are falsey.
    pub open spec fn is_truthy(self) -> bool {
        !(self is Nil || self == Value::Bool(false))
    }

    /// Equality of two values: never across cases; numbers as IEEE-754
    /// compares them, the rest by content.
    pub open spec fn same(self, other: Value) -> bool {
        match (self, other) {
            (Value::Nil, Value::Nil) => true,
            (Value::Bool(a), Value::Bool(b)) => a == b,
            (Value::Number(a), Value::Number(b)) => a.spec_equals(b),
            (Value::Text(a), Value::Text(b)) => a == b,
            _ => false,
        }
    }
}

impl View for Literal {
    type V = Value;

    open spec fn view(&self) -> Value {
        match *self {
            Literal::Nil => Value::Nil,
            Literal::Bool(b) => Value::Bool(b),
            Literal::Number(n) => Value::Number(n),
            Literal::String(s) => Value::Text(s@),
        }
    }
}

impl Literal {
    /// A copy of this value.
    pub fn dup(&self) -> (r: Literal)
        ensures
            r == *self,
    {
        match self {
            Literal::Nil => Literal::Nil,
            Literal::Bool(b) => Literal::Bool(*b),
            Literal::Number(n) => Literal::Number(*n),
            Literal::String(s) => Literal::String(s.clone()),
        }
    }

    /// Whether a condition holding this value counts as met.
    pub fn is_truthy(&self) -> (r: bool)
        ensures
            r == self@.is_truthy(),
    {
        match self {
            Literal::Nil => false,
            Literal::Bool(b) => *b,
            _ => true,
        }
    }
}

impl Clone for Literal {
    fn clone(&self) -> (r: Literal)
        ensures
            r == *self,
    {
        self.dup()
    }
}

impl PartialEq for Literal {
    fn eq(&self, other: &Literal) -> (r: bool) {
        match (self, other) {
            (Literal::Nil, Literal::Nil) => true,
            (Literal::Bool(a), Literal::Bool(b)) => *a == *b,
            (Literal::Number(a), Literal::Number(b)) => a.equals(*b),
            (Literal::String(a), Literal::String(b)) => *a == *b,
            _ => false,
        }
    }
}

impl vstd::std_specs::cmp::PartialEqSpecImpl for Literal {
    open spec fn obeys_eq_spec() -> bool {
        true
    }

    open spec fn eq_spec(&self, other: &Literal) -> bool {
        self@.same(other@)
    }
}

} // verus!
