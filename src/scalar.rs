use vstd::prelude::*;
use crate::text::copy_str;
use crate::value::{is_scalar, is_text, Value};
use crate::yaml::{decode_yaml, yaml_value_of};

verus! {

/// `r` is what free text `input` stands for, given what the YAML codec made
/// of it: the decoded value when that is a scalar, else the text itself as a
/// string.
pub open spec fn is_scalar_reading(r: Value, decoded: Option<Value>, input: Seq<char>) -> bool {
    match decoded {
        Some(v) => if is_scalar(v) {
            r == v
        } else {
            is_text(r, input)
        },
        None => is_text(r, input),
    }
}

/// Picks the value of free text from what the YAML codec decoded: a boolean,
/// number, null or string is kept; a sequence, a mapping or a failed decoding
/// gives the text itself as a string.
pub fn scalar_from_decoded(decoded: Option<Value>, input: &str) -> (r: Value)
    ensures
        is_scalar_reading(r, decoded, input@),
{
    match decoded {
        Some(v) => if v.is_scalar() {
            v
        } else {
            Value::String(copy_str(input))
        },
        None => Value::String(copy_str(input)),
    }
}

/// Reads free text as the most specific scalar: a YAML boolean, number, null
/// or string, and otherwise the text itself as a string. Never fails.
pub fn parse_scalar(input: &str) -> (r: Value)
    ensures
        is_scalar_reading(r, yaml_value_of(input@), input@),
{
    scalar_from_decoded(decode_yaml(input), input)
}

} // verus!
