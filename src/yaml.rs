use vstd::prelude::*;
use crate::value::Value;
use serde_yaml::Value as YamlValue;

verus! {

#[verifier::external_type_specification]
#[verifier::external_body]
pub struct ExYamlValue(YamlValue);

/// What `serde_yaml::from_str` makes of a text, as a library value; `None`
/// when the text is not YAML.
pub uninterp spec fn yaml_value_of(text: Seq<char>) -> Option<Value>;

/// Converts a value of the YAML codec into a library value, variant by
/// variant; a number becomes the text that `serde_yaml::Number`'s `Display`
/// writes, and a YAML tag is left out with its value kept.
#[verifier::external_body]
pub(crate) fn from_yaml(v: YamlValue) -> Value {
    match v {
        YamlValue::Null => Value::Null,
        YamlValue::Bool(b) => Value::Bool(b),
        YamlValue::Number(n) => Value::Number(n.to_string()),
        YamlValue::String(s) => Value::String(s),
        YamlValue::Sequence(items) => Value::Sequence(items.into_iter().map(from_yaml).collect()),
        YamlValue::Mapping(m) => Value::Mapping(
            m.into_iter().map(|(k, v)| (from_yaml(k), from_yaml(v))).collect(),
        ),
        YamlValue::Tagged(t) => from_yaml(t.value),
    }
}

/// Converts a library value into a value of the YAML codec, variant by
/// variant; a number is read back with `serde_yaml::Number`'s `FromStr`, and
/// text that it does not read stays a string.
#[verifier::external_body]
pub(crate) fn to_yaml(v: &Value) -> YamlValue {
    match v {
        Value::Null => YamlValue::Null,
        Value::Bool(b) => YamlValue::Bool(*b),
        Value::Number(t) => t.parse::<serde_yaml::Number>().map(YamlValue::Number)
            .unwrap_or_else(|_| YamlValue::String(t.clone())),
        Value::String(s) => YamlValue::String(s.clone()),
        Value::Sequence(items) => YamlValue::Sequence(items.iter().map(to_yaml).collect()),
        Value::Mapping(pairs) => YamlValue::Mapping(
            pairs.iter().map(|(k, v)| (to_yaml(k), to_yaml(v))).collect(),
        ),
    }
}

/// Relies on `serde_yaml::from_str`: parses YAML text into a value, or
/// `None` when the text is not YAML.
#[verifier::external_body]
pub(crate) fn decode_yaml(text: &str) -> (r: Option<Value>)
    ensures
        r == yaml_value_of(text@),
{
    serde_yaml::from_str::<YamlValue>(text).ok().map(from_yaml)
}

} // verus!
