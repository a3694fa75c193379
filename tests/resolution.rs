use benchmark_sets::{
    get_metas_from_meta, get_sets_from_meta, metas_from_document, BenchmarkSet, Mod,
    ProcedureError, TopLevel,
};

fn set_with_ticks(ticks: u32) -> BenchmarkSet {
    BenchmarkSet {
        save_subdirectory: None,
        mods: vec![Mod::new("base", "base_1.0.zip", "1.0", "abc")],
        maps: Vec::new(),
        ticks,
        runs: 1,
    }
}

fn meta(doc: &mut TopLevel, name: &str, members: &[&str]) {
    doc.insert_meta_set(name.to_string(), members.iter().map(|m| m.to_string()).collect());
}

fn keys(found: &[(String, BenchmarkSet)]) -> Vec<String> {
    let mut k: Vec<String> = found.iter().map(|e| e.0.clone()).collect();
    k.sort();
    k
}

#[test]
fn unknown_key_resolves_to_nothing() {
    let mut doc = TopLevel::new();
    meta(&mut doc, "a", &["b"]);
    doc.insert_benchmark_set("b".to_string(), set_with_ticks(10));
    assert!(get_sets_from_meta("zzz".to_string(), &doc).is_empty());
    assert!(metas_from_document("zzz".to_string(), &doc).is_empty());
    assert_eq!(get_metas_from_meta("zzz".to_string(), Ok(doc)), Ok(Vec::new()));
}

#[test]
fn cycle_terminates() {
    let mut doc = TopLevel::new();
    meta(&mut doc, "a", &["b"]);
    meta(&mut doc, "b", &["a"]);
    assert_eq!(
        metas_from_document("a".to_string(), &doc),
        vec!["b".to_string(), "a".to_string()]
    );
    assert!(get_sets_from_meta("a".to_string(), &doc).is_empty());
}

#[test]
fn self_reference_terminates() {
    let mut doc = TopLevel::new();
    meta(&mut doc, "a", &["a", "s"]);
    doc.insert_benchmark_set("s".to_string(), set_with_ticks(5));
    assert_eq!(metas_from_document("a".to_string(), &doc), vec!["a".to_string()]);
    assert_eq!(keys(&get_sets_from_meta("a".to_string(), &doc)), vec!["s".to_string()]);
}

#[test]
fn diamond_is_deduplicated() {
    let mut doc = TopLevel::new();
    meta(&mut doc, "a", &["b", "c"]);
    meta(&mut doc, "b", &["d"]);
    meta(&mut doc, "c", &["d"]);
    doc.insert_benchmark_set("d".to_string(), set_with_ticks(42));
    let found = get_sets_from_meta("a".to_string(), &doc);
    assert_eq!(found.len(), 1);
    assert_eq!(found[0].0, "d");
    assert_eq!(found[0].1.ticks, 42);
    assert_eq!(
        metas_from_document("a".to_string(), &doc),
        vec!["b".to_string(), "c".to_string(), "a".to_string()]
    );
}

#[test]
fn dual_role_key_counts_as_both() {
    let mut doc = TopLevel::new();
    meta(&mut doc, "x", &["y"]);
    doc.insert_benchmark_set("x".to_string(), set_with_ticks(1));
    doc.insert_benchmark_set("y".to_string(), set_with_ticks(2));
    let found = get_sets_from_meta("x".to_string(), &doc);
    assert_eq!(keys(&found), vec!["x".to_string(), "y".to_string()]);
    for (name, set) in &found {
        let expected = if name == "x" { 1 } else { 2 };
        assert_eq!(set.ticks, expected);
    }
}

#[test]
fn benchmark_key_alone_resolves_to_itself() {
    let mut doc = TopLevel::new();
    doc.insert_benchmark_set("solo".to_string(), set_with_ticks(7));
    let found = get_sets_from_meta("solo".to_string(), &doc);
    assert_eq!(keys(&found), vec!["solo".to_string()]);
    assert!(metas_from_document("solo".to_string(), &doc).is_empty());
}

#[test]
fn unknown_members_are_ignored() {
    let mut doc = TopLevel::new();
    meta(&mut doc, "a", &["ghost", "b"]);
    meta(&mut doc, "b", &["nothing"]);
    assert_eq!(
        metas_from_document("a".to_string(), &doc),
        vec!["b".to_string(), "a".to_string()]
    );
    assert!(get_sets_from_meta("a".to_string(), &doc).is_empty());
}

#[test]
fn post_order_of_nested_metas() {
    let mut doc = TopLevel::new();
    meta(&mut doc, "top", &["mid", "side"]);
    meta(&mut doc, "mid", &["leaf"]);
    meta(&mut doc, "leaf", &[]);
    meta(&mut doc, "side", &["leaf"]);
    assert_eq!(
        metas_from_document("top".to_string(), &doc),
        vec![
            "leaf".to_string(),
            "mid".to_string(),
            "side".to_string(),
            "top".to_string()
        ]
    );
}

#[test]
fn load_failure_is_passed_on() {
    assert_eq!(
        get_metas_from_meta("a".to_string(), Err(ProcedureError::FileNotFound)),
        Err(ProcedureError::FileNotFound)
    );
    assert_eq!(
        get_metas_from_meta("a".to_string(), Err(ProcedureError::MalformedJSON)),
        Err(ProcedureError::MalformedJSON)
    );
}

#[test]
fn members_are_walked_in_increasing_order() {
    let mut doc = TopLevel::new();
    meta(&mut doc, "z", &["y", "x", "y"]);
    meta(&mut doc, "y", &[]);
    meta(&mut doc, "x", &[]);
    assert_eq!(doc.meta_set("z").unwrap(), vec!["x".to_string(), "y".to_string()]);
    assert_eq!(
        metas_from_document("z".to_string(), &doc),
        vec!["x".to_string(), "y".to_string(), "z".to_string()]
    );
}
