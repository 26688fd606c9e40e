use membrane::error::MembraneError;
use membrane::project::Project;
use membrane::store::{
    backfill_id, canonicalize_project, canonicalize_with_id, check_rename, create_project,
    load_project, project_from_value, render_project, rename_key, set_key, unset_key,
};
use membrane::value::Value;

fn text(x: &str) -> Value {
    Value::String(x.to_string())
}

fn num(x: &str) -> Value {
    Value::Number(x.to_string())
}

fn doc(fields: Vec<(&str, Value)>) -> Project {
    let mut p = Project::new();
    for (k, v) in fields {
        p.insert(k.to_string(), v);
    }
    p
}

fn keys(p: &Project) -> Vec<String> {
    p.keys()
}

#[test]
fn canonical_order_pins_metadata_then_user_keys() {
    let data = doc(vec![
        ("b", num("1")),
        ("_rogue", text("x")),
        ("a", num("2")),
        ("name", text("old")),
        ("_created", text("C")),
        ("_updated", text("U")),
    ]);
    let out = canonicalize_with_id(data, "proj", "F".to_string(), "T");
    assert_eq!(keys(&out), vec!["_id", "name", "_created", "_updated", "b", "a"]);
    assert_eq!(out.get("_id"), Some(&text("F")));
    assert_eq!(out.get("name"), Some(&text("proj")));
    assert_eq!(out.get("_created"), Some(&text("C")));
    assert_eq!(out.get("_updated"), Some(&text("T")));
    assert_eq!(out.get("b"), Some(&num("1")));
    assert_eq!(out.get("a"), Some(&num("2")));
    assert_eq!(out.get("_rogue"), None);
}

#[test]
fn canonical_keeps_existing_id_and_stamps_created() {
    let data = doc(vec![("_id", text("keep-me")), ("x", Value::Null)]);
    let out = canonicalize_with_id(data, "p", "unused".to_string(), "NOW");
    assert_eq!(out.get("_id"), Some(&text("keep-me")));
    assert_eq!(out.get("_created"), Some(&text("NOW")));
    assert_eq!(out.get("_updated"), Some(&text("NOW")));
    assert_eq!(keys(&out), vec!["_id", "name", "_created", "_updated", "x"]);
}

#[test]
fn canonicalize_twice_changes_only_updated() {
    let data = doc(vec![
        ("zeta", num("3")),
        ("_junk", Value::Bool(true)),
        ("alpha", text("a")),
    ]);
    let first = canonicalize_project(data, "demo", "2024-01-01T00:00:00Z");
    let first_keys = keys(&first);
    let id = first.get("_id").map(|v| format!("{:?}", v));
    let created = first.get("_created").map(|v| format!("{:?}", v));
    let second = canonicalize_project(first, "demo", "2024-02-02T00:00:00Z");
    assert_eq!(keys(&second), first_keys);
    assert_eq!(second.get("_id").map(|v| format!("{:?}", v)), id);
    assert_eq!(second.get("_created").map(|v| format!("{:?}", v)), created);
    assert_eq!(second.get("_updated"), Some(&text("2024-02-02T00:00:00Z")));
    assert_eq!(second.get("name"), Some(&text("demo")));
    assert_eq!(second.get("zeta"), Some(&num("3")));
    assert_eq!(second.get("alpha"), Some(&text("a")));
}

#[test]
fn canonicalize_mints_hyphenated_id() {
    let out = canonicalize_project(Project::new(), "fresh", "T");
    match out.get("_id") {
        Some(Value::String(id)) => {
            assert_eq!(id.chars().count(), 36);
            assert_eq!(id.chars().nth(8), Some('-'));
        }
        other => panic!("unexpected id {:?}", other),
    }
    assert_eq!(out.len(), 4);
}

#[test]
fn set_refuses_reserved_key_and_keeps_document() {
    let mut p = canonicalize_with_id(doc(vec![("k", num("1"))]), "p", "ID".to_string(), "T0");
    let before = render_project(&p).unwrap();
    let r = set_key(&mut p, "p", "_id", text("hack"), "T1");
    assert_eq!(r, Err(MembraneError::ReservedKey { key: "_id".to_string() }));
    assert_eq!(render_project(&p).unwrap(), before);
    let r = set_key(&mut p, "p", "_anything", text("x"), "T1");
    assert_eq!(r, Err(MembraneError::ReservedKey { key: "_anything".to_string() }));
    assert_eq!(render_project(&p).unwrap(), before);
}

#[test]
fn set_appends_new_key_and_refreshes_updated() {
    let mut p = canonicalize_with_id(doc(vec![("k", num("1"))]), "p", "ID".to_string(), "T0");
    assert_eq!(set_key(&mut p, "p", "new", Value::Bool(false), "T1"), Ok(()));
    assert_eq!(keys(&p), vec!["_id", "name", "_created", "_updated", "k", "new"]);
    assert_eq!(p.get("new"), Some(&Value::Bool(false)));
    assert_eq!(p.get("_updated"), Some(&text("T1")));
    assert_eq!(p.get("_created"), Some(&text("T0")));
}

#[test]
fn set_overwrite_keeps_position() {
    let mut p = canonicalize_with_id(
        doc(vec![("a", num("1")), ("b", num("2"))]),
        "p",
        "ID".to_string(),
        "T0",
    );
    assert_eq!(set_key(&mut p, "p", "a", text("one"), "T1"), Ok(()));
    assert_eq!(keys(&p), vec!["_id", "name", "_created", "_updated", "a", "b"]);
    assert_eq!(p.get("a"), Some(&text("one")));
}

#[test]
fn unset_guards_and_removes() {
    let mut p = canonicalize_with_id(
        doc(vec![("a", num("1")), ("b", num("2"))]),
        "p",
        "ID".to_string(),
        "T0",
    );
    let before = render_project(&p).unwrap();
    assert_eq!(
        unset_key(&mut p, "p", "_created", "T1"),
        Err(MembraneError::ReservedKey { key: "_created".to_string() })
    );
    assert_eq!(render_project(&p).unwrap(), before);
    assert_eq!(
        unset_key(&mut p, "p", "zzz", "T1"),
        Err(MembraneError::KeyNotFound { key: "zzz".to_string(), project: "p".to_string() })
    );
    assert_eq!(render_project(&p).unwrap(), before);
    assert_eq!(unset_key(&mut p, "p", "a", "T1"), Ok(()));
    assert_eq!(keys(&p), vec!["_id", "name", "_created", "_updated", "b"]);
    assert_eq!(p.get("_updated"), Some(&text("T1")));
}

#[test]
fn rename_guards() {
    assert_eq!(
        check_rename("_id", "x"),
        Err(MembraneError::ReservedKey { key: "_id".to_string() })
    );
    assert_eq!(
        check_rename("x", "_x"),
        Err(MembraneError::ReservedKey { key: "_x".to_string() })
    );
    assert_eq!(check_rename("same", "same"), Err(MembraneError::SameKey { key: "same".to_string() }));
    assert_eq!(check_rename("a", "b"), Ok(()));
}

#[test]
fn rename_reserved_leaves_document() {
    let mut p = canonicalize_with_id(doc(vec![("a", num("1"))]), "p", "ID".to_string(), "T0");
    let before = render_project(&p).unwrap();
    assert_eq!(
        rename_key(&mut p, "p", "_updated", "x", "T1"),
        Err(MembraneError::ReservedKey { key: "_updated".to_string() })
    );
    assert_eq!(
        rename_key(&mut p, "p", "a", "_a", "T1"),
        Err(MembraneError::ReservedKey { key: "_a".to_string() })
    );
    assert_eq!(render_project(&p).unwrap(), before);
}

#[test]
fn rename_moves_value_to_new_key() {
    let mut p = canonicalize_with_id(
        doc(vec![("a", num("1")), ("b", num("2"))]),
        "p",
        "ID".to_string(),
        "T0",
    );
    assert_eq!(rename_key(&mut p, "p", "a", "c", "T1"), Ok(true));
    assert_eq!(keys(&p), vec!["_id", "name", "_created", "_updated", "b", "c"]);
    assert_eq!(p.get("c"), Some(&num("1")));
    assert_eq!(p.get("_updated"), Some(&text("T1")));
}

#[test]
fn rename_absent_key_or_collision() {
    let mut p = canonicalize_with_id(
        doc(vec![("a", num("1")), ("b", num("2"))]),
        "p",
        "ID".to_string(),
        "T0",
    );
    let before = render_project(&p).unwrap();
    assert_eq!(rename_key(&mut p, "p", "missing", "c", "T1"), Ok(false));
    assert_eq!(render_project(&p).unwrap(), before);
    assert_eq!(
        rename_key(&mut p, "p", "a", "b", "T1"),
        Err(MembraneError::KeyCollision { project: "p".to_string(), key: "b".to_string() })
    );
    assert_eq!(render_project(&p).unwrap(), before);
}

#[test]
fn create_refuses_existing_name() {
    assert_eq!(
        create_project("taken", Project::new(), true, "T").map(|p| p.len()),
        Err(MembraneError::AlreadyExists { name: "taken".to_string() })
    );
    let p = create_project("fresh", Project::new(), false, "T").unwrap();
    assert_eq!(keys(&p), vec!["_id", "name", "_created", "_updated"]);
    assert_eq!(p.get("name"), Some(&text("fresh")));
}

#[test]
fn load_keeps_order_and_existing_id() {
    let (p, added) = load_project("_id: abc\nname: demo\nzeta: 1\nalpha: two\n").unwrap();
    assert!(!added);
    assert_eq!(keys(&p), vec!["_id", "name", "zeta", "alpha"]);
    assert_eq!(p.get("zeta"), Some(&num("1")));
    assert_eq!(p.get("alpha"), Some(&text("two")));
}

#[test]
fn load_backfills_missing_id() {
    let (p, added) = load_project("name: demo\nlist:\n  - 1\n  - x\n").unwrap();
    assert!(added);
    assert_eq!(keys(&p), vec!["name", "list", "_id"]);
    match p.get("_id") {
        Some(Value::String(id)) => assert_eq!(id.chars().count(), 36),
        other => panic!("unexpected id {:?}", other),
    }
    assert_eq!(
        p.get("list"),
        Some(&Value::Sequence(vec![num("1"), text("x")]))
    );
}

#[test]
fn load_rejects_non_mappings() {
    assert_eq!(load_project("- a\n- b\n").map(|r| r.1), Err(MembraneError::Format));
    assert_eq!(load_project("just text").map(|r| r.1), Err(MembraneError::Format));
    assert_eq!(load_project("a: [unclosed").map(|r| r.1), Err(MembraneError::Format));
    assert_eq!(load_project("1: one\n").map(|r| r.1), Err(MembraneError::Format));
}

#[test]
fn value_to_document() {
    assert_eq!(project_from_value(None).map(|p| p.len()), Err(MembraneError::Format));
    assert_eq!(project_from_value(Some(Value::Null)).map(|p| p.len()), Err(MembraneError::Format));
    let pairs = vec![(text("a"), num("1")), (text("b"), Value::Null), (text("a"), num("2"))];
    let p = project_from_value(Some(Value::Mapping(pairs))).unwrap();
    assert_eq!(keys(&p), vec!["a", "b"]);
    assert_eq!(p.get("a"), Some(&num("2")));
    let bad = vec![(text("a"), num("1")), (Value::Bool(true), num("2"))];
    assert_eq!(
        project_from_value(Some(Value::Mapping(bad))).map(|p| p.len()),
        Err(MembraneError::Format)
    );
}

#[test]
fn backfill_only_when_missing() {
    let mut p = doc(vec![("_id", text("x"))]);
    assert!(!backfill_id(&mut p));
    assert_eq!(keys(&p), vec!["_id"]);
    let mut q = doc(vec![("k", Value::Null)]);
    assert!(backfill_id(&mut q));
    assert_eq!(keys(&q), vec!["k", "_id"]);
}

#[test]
fn write_then_load_round_trip() {
    let nested = Value::Mapping(vec![(text("inner"), Value::Sequence(vec![Value::Bool(true), Value::Null]))]);
    let p = canonicalize_with_id(
        doc(vec![("count", num("7")), ("ratio", num("2.5")), ("nested", nested), ("note", text("hi: there"))]),
        "round",
        "11111111-2222-3333-4444-555555555555".to_string(),
        "2024-03-03T10:00:00Z",
    );
    let yaml = render_project(&p).unwrap();
    assert!(yaml.starts_with("_id: 11111111-2222-3333-4444-555555555555\nname: round\n"));
    let (q, added) = load_project(&yaml).unwrap();
    assert!(!added);
    assert_eq!(keys(&q), keys(&p));
    for k in keys(&p) {
        assert_eq!(q.get(&k), p.get(&k), "field {}", k);
    }
}
