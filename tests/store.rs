use benchmark_sets::{
    read_benchmark_set_from_file, read_meta_from_file, write_benchmark_set_to_file,
    write_meta_to_file, BenchmarkSet, ProcedureError, ProcedureOverwrite, TopLevel,
};

fn set(ticks: u32) -> BenchmarkSet {
    BenchmarkSet {
        save_subdirectory: None,
        mods: Vec::new(),
        maps: Vec::new(),
        ticks,
        runs: 2,
    }
}

fn stored_with(name: &str, ticks: u32) -> TopLevel {
    write_benchmark_set_to_file(name, set(ticks), ProcedureOverwrite::False, Ok(TopLevel::new()))
        .unwrap()
}

#[test]
fn write_without_overwrite_is_refused() {
    let stored = stored_with("s", 100);
    let r = write_benchmark_set_to_file("s", set(200), ProcedureOverwrite::False, Ok(stored));
    assert_eq!(r.err(), Some(ProcedureError::ProcedureAlreadyExists));
    let stored = stored_with("s", 100);
    let again = read_benchmark_set_from_file("s", &Ok(stored)).unwrap();
    assert_eq!(again.ticks, 100);
}

#[test]
fn write_with_overwrite_replaces() {
    let stored = stored_with("s", 100);
    let written =
        write_benchmark_set_to_file("s", set(200), ProcedureOverwrite::True, Ok(stored)).unwrap();
    let again = read_benchmark_set_from_file("s", &Ok(written)).unwrap();
    assert_eq!(again.ticks, 200);
}

#[test]
fn write_after_failed_load_starts_empty() {
    let written = write_benchmark_set_to_file(
        "new",
        set(5),
        ProcedureOverwrite::False,
        Err(ProcedureError::FileNotFound),
    )
    .unwrap();
    assert_eq!(written.benchmark_set_names(), vec!["new".to_string()]);
    assert!(written.meta_set_names().is_empty());
    let written = write_benchmark_set_to_file(
        "other",
        set(6),
        ProcedureOverwrite::False,
        Err(ProcedureError::MalformedJSON),
    )
    .unwrap();
    assert_eq!(written.benchmark_set_names(), vec!["other".to_string()]);
}

#[test]
fn read_after_failed_load_is_absent() {
    assert!(read_benchmark_set_from_file("s", &Err(ProcedureError::FileNotFound)).is_none());
    assert!(read_meta_from_file("m", &Err(ProcedureError::UnknownReadError)).is_none());
}

#[test]
fn read_missing_name_is_absent() {
    let stored = stored_with("s", 1);
    assert!(read_benchmark_set_from_file("t", &Ok(stored)).is_none());
}

#[test]
fn meta_write_guard_and_read_back() {
    let members = vec!["b".to_string(), "a".to_string(), "b".to_string()];
    let stored =
        write_meta_to_file("m", members, ProcedureOverwrite::False, Err(ProcedureError::FileNotFound))
            .unwrap();
    let again = read_meta_from_file("m", &Ok(stored)).unwrap();
    assert_eq!(again, vec!["a".to_string(), "b".to_string()]);

    let stored = write_meta_to_file(
        "m",
        vec!["x".to_string()],
        ProcedureOverwrite::False,
        Ok(TopLevel::new()),
    )
    .unwrap();
    let refused = write_meta_to_file("m", vec!["y".to_string()], ProcedureOverwrite::False, Ok(stored));
    assert_eq!(refused.err(), Some(ProcedureError::ProcedureAlreadyExists));

    let stored = write_meta_to_file(
        "m",
        vec!["x".to_string()],
        ProcedureOverwrite::False,
        Ok(TopLevel::new()),
    )
    .unwrap();
    let replaced =
        write_meta_to_file("m", vec!["y".to_string()], ProcedureOverwrite::True, Ok(stored)).unwrap();
    assert_eq!(read_meta_from_file("m", &Ok(replaced)).unwrap(), vec!["y".to_string()]);
}

#[test]
fn records_of_both_kinds_coexist() {
    let mut doc = TopLevel::new();
    doc.insert_benchmark_set("n".to_string(), set(1));
    doc.insert_meta_set("n".to_string(), vec!["n".to_string()]);
    assert!(doc.contains_benchmark_set("n"));
    assert!(doc.contains_meta_set("n"));
    assert!(!doc.contains_meta_set("o"));
    assert_eq!(doc.benchmark_set("n").unwrap().ticks, 1);
    assert_eq!(doc.meta_set("n").unwrap(), vec!["n".to_string()]);
}
