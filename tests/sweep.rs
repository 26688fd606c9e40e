use membrane::project::Project;
use membrane::sweep::{duplicate_groups, flat_keys, normalize, sweep_keys, sweep_similar_keys};
use membrane::value::Value;

fn doc(keys: &[&str]) -> Project {
    let mut p = Project::new();
    for k in keys {
        p.insert(k.to_string(), Value::Null);
    }
    p
}

#[test]
fn normalize_folds_case_and_separators() {
    assert_eq!(normalize("API_KEY"), "apikey");
    assert_eq!(normalize("api-key"), "apikey");
    assert_eq!(normalize("apikey"), "apikey");
    assert_eq!(normalize("_-_"), "");
    assert_eq!(normalize("Mixed_Case-Key"), "mixedcasekey");
}

#[test]
fn usage_counts_documents() {
    let docs = vec![doc(&["_id", "a", "b"]), doc(&["_id", "b"]), doc(&["c"])];
    let counts = sweep_keys(&docs);
    assert_eq!(
        counts,
        vec![
            ("_id".to_string(), 2),
            ("a".to_string(), 1),
            ("b".to_string(), 2),
            ("c".to_string(), 1),
        ]
    );
    assert_eq!(sweep_keys(&Vec::new()), Vec::new());
}

#[test]
fn flat_keys_in_scan_order() {
    let docs = vec![doc(&["x", "y"]), doc(&[]), doc(&["x"])];
    assert_eq!(flat_keys(&docs), vec!["x", "y", "x"]);
}

#[test]
fn similar_keys_group_by_normal_form() {
    let docs = vec![doc(&["API_KEY", "name"]), doc(&["api-key"]), doc(&["apikey", "Name"])];
    let groups = sweep_similar_keys(&docs);
    assert_eq!(
        groups,
        vec![
            ("apikey".to_string(), vec!["API_KEY".to_string(), "api-key".to_string(), "apikey".to_string()]),
            ("name".to_string(), vec!["name".to_string(), "Name".to_string()]),
        ]
    );
}

#[test]
fn three_spellings_form_one_duplicate_group() {
    let docs = vec![doc(&["API_KEY"]), doc(&["api-key"]), doc(&["apikey"])];
    let report = duplicate_groups(&sweep_similar_keys(&docs));
    assert_eq!(
        report,
        vec![vec!["API_KEY".to_string(), "api-key".to_string(), "apikey".to_string()]]
    );
}

#[test]
fn one_spelling_repeated_is_not_a_duplicate() {
    let docs = vec![
        doc(&["apikey"]),
        doc(&["apikey"]),
        doc(&["apikey"]),
        doc(&["apikey"]),
        doc(&["apikey"]),
    ];
    let groups = sweep_similar_keys(&docs);
    assert_eq!(groups.len(), 1);
    assert_eq!(groups[0].1.len(), 5);
    assert_eq!(duplicate_groups(&groups), Vec::<Vec<String>>::new());
}

#[test]
fn duplicate_report_lists_distinct_spellings_once() {
    let groups = vec![
        ("k".to_string(), vec!["K".to_string(), "k".to_string(), "K".to_string()]),
        ("solo".to_string(), vec!["solo".to_string()]),
    ];
    assert_eq!(duplicate_groups(&groups), vec![vec!["K".to_string(), "k".to_string()]]);
}
