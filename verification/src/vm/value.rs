//! Runtime values.

use crate::text::{decimal_int, int_to_string};
use vstd::prelude::*;

verus! {

/// Model of a runtime value.
pub enum SpecValue {
    Int(i64),
    String(Seq<char>),
    Void,
}

impl SpecValue {
    /// Only a nonzero integer counts as true.
    pub open spec fn is_truthy(self) -> bool {
        self matches SpecValue::Int(v) && v != 0
    }

    /// The text that printing the value writes, without the line end.
    pub open spec fn rendered(self) -> Seq<char> {
        match self {
            SpecValue::Int(v) => decimal_int(v as int),
            SpecValue::String(s) => s,
            SpecValue::Void => Seq::empty(),
        }
    }
}

/// A runtime value of the stack machine.
#[derive(Debug, PartialEq, Eq)]
pub enum Value {
    Int(i64),
    String(String),
    Void,
}

impl View for Value {
    type V = SpecValue;

    open spec fn view(&self) -> SpecValue {
        match self {
            Value::Int(v) => SpecValue::Int(*v),
            Value::String(s) => SpecValue::String(s@),
            Value::Void => SpecValue::Void,
        }
    }
}

impl Clone for Value {
    fn clone(&self) -> (r: Self)
        ensures
            r@ == self@,
    {
        match self {
            Value::Int(v) => Value::Int(*v),
            Value::String(s) => Value::String(s.clone()),
            Value::Void => Value::Void,
        }
    }
}

impl Value {
    /// Only a nonzero integer counts as true; a string or void never does.
    pub fn is_truthy(&self) -> (b: bool)
        ensures
            b == self@.is_truthy(),
    {
        match self {
            Value::Int(v) => *v != 0,
            _ => false,
        }
    }

    /// The text that printing the value writes: an integer in decimal
    /// notation, a string as it is, nothing for void.
    pub fn render(&self) -> (s: String)
        ensures
            s@ == self@.rendered(),
    {
        match self {
            Value::Int(v) => int_to_string(*v),
            Value::String(s) => s.clone(),
            Value::Void => String::new(),
        }
    }
}

/// The models of a sequence of values, element by element.
pub open spec fn values_view(s: Seq<Value>) -> Seq<SpecValue> {
    Seq::new(s.len(), |i: int| s[i]@)
}

} // verus!
