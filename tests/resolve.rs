use membrane::error::MembraneError;
use membrane::project::Project;
use membrane::resolve::resolve_project;
use membrane::value::Value;

fn named(name: &str, id: &str) -> (String, Project) {
    let mut p = Project::new();
    p.insert("_id".to_string(), Value::String(id.to_string()));
    p.insert("name".to_string(), Value::String(name.to_string()));
    (name.to_string(), p)
}

fn id_of(p: &Project) -> Option<&Value> {
    p.get("_id")
}

#[test]
fn exact_name_beats_id_prefix() {
    let docs = vec![
        named("other", "abc12345-0000-0000-0000-000000000000"),
        named("abc", "ffff0000-0000-0000-0000-000000000000"),
    ];
    let (name, p) = resolve_project(docs, "abc").unwrap();
    assert_eq!(name, "abc");
    assert_eq!(id_of(&p), Some(&Value::String("ffff0000-0000-0000-0000-000000000000".to_string())));
}

#[test]
fn ambiguous_prefix_lists_short_ids() {
    let docs = vec![
        named("one", "aa11aaaa-0000-0000-0000-000000000000"),
        named("two", "aa12bbbb-0000-0000-0000-000000000000"),
        named("three", "bbcccccc-0000-0000-0000-000000000000"),
    ];
    let r = resolve_project(docs, "aa1");
    match r {
        Err(MembraneError::Ambiguous { token, candidates }) => {
            assert_eq!(token, "aa1");
            assert_eq!(candidates, vec!["aa11aaaa".to_string(), "aa12bbbb".to_string()]);
        }
        other => panic!("expected ambiguity, got {:?}", other.map(|x| x.0)),
    }
}

#[test]
fn longer_prefix_resolves_uniquely() {
    let docs = vec![
        named("one", "aa11aaaa-0000-0000-0000-000000000000"),
        named("two", "aa12bbbb-0000-0000-0000-000000000000"),
        named("three", "bbcccccc-0000-0000-0000-000000000000"),
    ];
    let (name, _) = resolve_project(docs, "aa11").unwrap();
    assert_eq!(name, "one");
}

#[test]
fn no_match_is_not_found() {
    let docs = vec![named("one", "aa11aaaa-0000-0000-0000-000000000000")];
    assert_eq!(
        resolve_project(docs, "zz").map(|x| x.0),
        Err(MembraneError::ProjectNotFound { token: "zz".to_string() })
    );
    assert_eq!(
        resolve_project(Vec::new(), "a").map(|x| x.0),
        Err(MembraneError::ProjectNotFound { token: "a".to_string() })
    );
}

#[test]
fn short_ids_shorter_than_eight_are_kept_whole() {
    let docs = vec![named("x", "ab"), named("y", "abc")];
    match resolve_project(docs, "a") {
        Err(MembraneError::Ambiguous { candidates, .. }) => {
            assert_eq!(candidates, vec!["ab".to_string(), "abc".to_string()]);
        }
        other => panic!("expected ambiguity, got {:?}", other.map(|x| x.0)),
    }
}

#[test]
fn non_string_id_never_matches() {
    let mut p = Project::new();
    p.insert("_id".to_string(), Value::Number("123".to_string()));
    let docs = vec![("n".to_string(), p)];
    assert_eq!(
        resolve_project(docs, "12").map(|x| x.0),
        Err(MembraneError::ProjectNotFound { token: "12".to_string() })
    );
}
