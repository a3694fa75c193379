use benchmark_sets::order::{sorted_members, text_lt};
use benchmark_sets::{BenchmarkSet, GameMap, Mod, ProcedureKind, ProcedureOverwrite};

#[test]
fn mods_with_one_hash_are_equal() {
    let a = Mod::new("a", "a.zip", "1.0", "deadbeef");
    let b = Mod::new("b", "b.zip", "2.0", "deadbeef");
    assert!(a == b);
    let c = Mod::new("a", "a.zip", "1.0", "cafe");
    assert!(a != c);
}

#[test]
fn mods_without_hash_are_never_equal() {
    let a = Mod::new("a", "a.zip", "1.0", "");
    let b = Mod::new("a", "a.zip", "1.0", "");
    assert!(a != b);
    assert!(a != a.clone());
}

#[test]
fn maps_with_one_hash_are_equal() {
    let a = GameMap::new("/maps/one.zip", "f00d", "https://example.org/one");
    let b = GameMap::new("/other/two.zip", "f00d", "https://example.org/two");
    assert!(a == b);
    let c = GameMap::new("/maps/one.zip", "beef", "https://example.org/one");
    assert!(a != c);
}

#[test]
fn maps_with_empty_hashes_are_equal() {
    let a = GameMap::new("/maps/one.zip", "", "x");
    let b = GameMap::new("/maps/two.zip", "", "y");
    assert!(a == b);
}

#[test]
fn map_name_is_final_path_component() {
    let m = GameMap::new("/srv/maps/big-base.zip", "h", "l");
    assert_eq!(m.name, "big-base.zip");
    assert_eq!(m.path, "/srv/maps/big-base.zip");
    assert_eq!(m.sha256, "h");
    assert_eq!(m.download_link, "l");
}

#[test]
fn map_from_path_without_file_name() {
    assert!(GameMap::from_path("/", "h", "l").is_none());
    assert!(GameMap::from_path("maps/..", "h", "l").is_none());
    let m = GameMap::from_path("maps/a.zip", "h", "l").unwrap();
    assert_eq!(m.name, "a.zip");
}

#[test]
fn mod_new_keeps_fields() {
    let m = Mod::new("name", "file.zip", "0.1.2", "hash");
    assert_eq!(m.name, "name");
    assert_eq!(m.file_name, "file.zip");
    assert_eq!(m.version, "0.1.2");
    assert_eq!(m.sha1, "hash");
}

#[test]
fn benchmark_set_default_is_empty() {
    let s = BenchmarkSet::default();
    assert!(s.save_subdirectory.is_none());
    assert!(s.mods.is_empty());
    assert!(s.maps.is_empty());
    assert_eq!(s.ticks, 0);
    assert_eq!(s.runs, 0);
}

#[test]
fn benchmark_set_equality_uses_member_identity() {
    let with = |hash: &str, ticks: u32| BenchmarkSet {
        save_subdirectory: Some("out".to_string()),
        mods: vec![Mod::new("m", "m.zip", "1", hash)],
        maps: vec![GameMap::new("/a/b.zip", "h", "l")],
        ticks,
        runs: 3,
    };
    assert!(with("abc", 10) == with("abc", 10));
    assert!(with("abc", 10) != with("abc", 11));
    assert!(with("", 10) != with("", 10));
    let copy = with("abc", 10).clone();
    assert!(copy == with("abc", 10));
    assert_eq!(copy.save_subdirectory, Some("out".to_string()));
}

#[test]
fn kind_parses_ignoring_case() {
    assert_eq!("BENCHMARK".parse::<ProcedureKind>(), Ok(ProcedureKind::Benchmark));
    assert_eq!("Meta".parse::<ProcedureKind>(), Ok(ProcedureKind::Meta));
    assert_eq!("both".parse::<ProcedureKind>(), Ok(ProcedureKind::Both));
    assert_eq!(
        ProcedureKind::parse("neither"),
        Err("Error: UnknownProcedureType".to_string())
    );
    assert_eq!(
        ProcedureKind::from_lowercase("Meta"),
        Err("Error: UnknownProcedureType".to_string())
    );
}

#[test]
fn kind_selects_listings() {
    assert!(ProcedureKind::Benchmark.lists_benchmarks());
    assert!(!ProcedureKind::Benchmark.lists_metas());
    assert!(ProcedureKind::Meta.lists_metas());
    assert!(!ProcedureKind::Meta.lists_benchmarks());
    assert!(ProcedureKind::Both.lists_benchmarks() && ProcedureKind::Both.lists_metas());
}

#[test]
fn overwrite_from_bool_and_not() {
    assert_eq!(ProcedureOverwrite::from(true), ProcedureOverwrite::True);
    assert_eq!(ProcedureOverwrite::from(false), ProcedureOverwrite::False);
    assert_eq!(!ProcedureOverwrite::True, ProcedureOverwrite::False);
    assert_eq!(!ProcedureOverwrite::False, ProcedureOverwrite::True);
}

#[test]
fn names_compare_lexicographically() {
    let s = |t: &str| t.to_string();
    assert!(text_lt(&s("a"), &s("b")));
    assert!(text_lt(&s("ab"), &s("b")));
    assert!(text_lt(&s("a"), &s("ab")));
    assert!(text_lt(&s(""), &s("a")));
    assert!(!text_lt(&s("a"), &s("a")));
    assert!(!text_lt(&s("b"), &s("ab")));
    assert!(text_lt(&s("Z"), &s("a")));
    assert!(text_lt(&s("z"), &s("\u{e9}")));
    assert_eq!(s("z") < s("\u{e9}"), text_lt(&s("z"), &s("\u{e9}")));
}

#[test]
fn members_sorted_and_unique() {
    let v: Vec<String> = ["m", "b", "m", "a", "\u{e9}", "B"].iter().map(|t| t.to_string()).collect();
    let mut expected = v.clone();
    expected.sort();
    expected.dedup();
    assert_eq!(sorted_members(&v), expected);
    assert!(sorted_members(&Vec::new()).is_empty());
}
