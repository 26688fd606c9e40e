use vstd::prelude::*;

verus! {

/// A field value of a document: a scalar, a sequence or a nested mapping.
///
/// A number is held as its text, in the form that the YAML codec prints.
#[derive(Debug, PartialEq)]
pub enum Value {
    Null,
    Bool(bool),
    Number(String),
    String(String),
    Sequence(Vec<Value>),
    Mapping(Vec<(Value, Value)>),
}

/// `v` is a string value that holds exactly the characters `s`.
pub open spec fn is_text(v: Value, s: Seq<char>) -> bool {
    v matches Value::String(t) && t@ == s
}

/// `v` is a boolean, a number, null or a string.
pub open spec fn is_scalar(v: Value) -> bool {
    match v {
        Value::Null | Value::Bool(_) | Value::Number(_) | Value::String(_) => true,
        _ => false,
    }
}

/// Two values agree: they are equal, or both are strings with the same
/// characters.
pub open spec fn same_value(a: Value, b: Value) -> bool {
    a == b || (a matches Value::String(x) && b matches Value::String(y) && x@ == y@)
}

impl Value {
    /// Whether the value is a boolean, a number, null or a string.
    pub fn is_scalar(&self) -> (r: bool)
        ensures
            r == is_scalar(*self),
    {
        match self {
            Value::Null | Value::Bool(_) | Value::Number(_) | Value::String(_) => true,
            _ => false,
        }
    }
}

} // verus!
