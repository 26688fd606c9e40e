use membrane::project::Project;
use membrane::value::Value;

fn num(x: &str) -> Value {
    Value::Number(x.to_string())
}

#[test]
fn insert_keeps_place_of_existing_key() {
    let mut p = Project::new();
    assert_eq!(p.insert("a".to_string(), num("1")), None);
    assert_eq!(p.insert("b".to_string(), num("2")), None);
    assert_eq!(p.insert("a".to_string(), num("3")), Some(num("1")));
    assert_eq!(p.keys(), vec!["a", "b"]);
    assert_eq!(p.get("a"), Some(&num("3")));
    assert_eq!(p.len(), 2);
}

#[test]
fn shift_remove_keeps_order_of_rest() {
    let mut p = Project::new();
    for k in ["a", "b", "c", "d"] {
        p.insert(k.to_string(), Value::Null);
    }
    assert_eq!(p.shift_remove("b"), Some(Value::Null));
    assert_eq!(p.shift_remove("zz"), None);
    assert_eq!(p.keys(), vec!["a", "c", "d"]);
    assert!(!p.contains_key("b"));
    assert!(p.contains_key("c"));
}

#[test]
fn index_access_and_entries() {
    let mut p = Project::new();
    p.insert("x".to_string(), Value::Bool(true));
    p.insert("y".to_string(), Value::String("s".to_string()));
    let (k, v) = p.get_index(1).unwrap();
    assert_eq!(k, "y");
    assert_eq!(v, &Value::String("s".to_string()));
    assert!(p.get_index(2).is_none());
    let entries = p.into_entries();
    assert_eq!(
        entries,
        vec![("x".to_string(), Value::Bool(true)), ("y".to_string(), Value::String("s".to_string()))]
    );
}

#[test]
fn scalar_test_on_values() {
    assert!(Value::Null.is_scalar());
    assert!(num("1").is_scalar());
    assert!(!Value::Sequence(Vec::new()).is_scalar());
    assert!(!Value::Mapping(Vec::new()).is_scalar());
}
