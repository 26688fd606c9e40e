use membrane::scalar::{parse_scalar, scalar_from_decoded};
use membrane::value::Value;

fn text(x: &str) -> Value {
    Value::String(x.to_string())
}

#[test]
fn scalars_are_typed() {
    assert_eq!(parse_scalar("true"), Value::Bool(true));
    assert_eq!(parse_scalar("false"), Value::Bool(false));
    assert_eq!(parse_scalar("42"), Value::Number("42".to_string()));
    assert_eq!(parse_scalar("-7"), Value::Number("-7".to_string()));
    assert_eq!(parse_scalar("1.5"), Value::Number("1.5".to_string()));
    assert_eq!(parse_scalar("~"), Value::Null);
    assert_eq!(parse_scalar("null"), Value::Null);
    assert_eq!(parse_scalar("hello world"), text("hello world"));
    assert_eq!(parse_scalar("'quoted'"), text("quoted"));
}

#[test]
fn structures_and_failures_fall_back_to_text() {
    assert_eq!(parse_scalar("[1, 2]"), text("[1, 2]"));
    assert_eq!(parse_scalar("a: b"), text("a: b"));
    assert_eq!(parse_scalar("[unclosed"), text("[unclosed"));
}

#[test]
fn decoded_value_picks() {
    assert_eq!(scalar_from_decoded(Some(Value::Sequence(Vec::new())), "x"), text("x"));
    assert_eq!(scalar_from_decoded(Some(Value::Mapping(Vec::new())), "m"), text("m"));
    assert_eq!(scalar_from_decoded(None, "y"), text("y"));
    assert_eq!(scalar_from_decoded(Some(Value::Bool(false)), "no"), Value::Bool(false));
    assert_eq!(scalar_from_decoded(Some(text("inner")), "outer"), text("inner"));
}
