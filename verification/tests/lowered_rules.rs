use path_editor_core::backup::lowered_is_system_directory;
use path_editor_core::cli::listed_hives;
use path_editor_core::disabled::{merge_hive, merge_keyed};
use path_editor_core::env_var::EnvHive;
use path_editor_core::fs::{
    csv_flag_enabled_lowered, csv_header_lowered, csv_row_hive_lowered, path_extension,
};
use path_editor_core::path_entry::PathEntry;
use path_editor_core::scanner::{conflicts_of, query_keeps_lowered};

fn entry(path: &str, enabled: bool) -> PathEntry {
    PathEntry { path: path.into(), enabled }
}

fn strings(v: &[&str]) -> Vec<String> {
    v.iter().map(|s| s.to_string()).collect()
}

#[test]
fn csv_rows_are_classified_from_lowered_fields() {
    assert!(csv_header_lowered("type", "path"));
    assert!(!csv_header_lowered("type", "dir"));
    assert_eq!(csv_row_hive_lowered("sys"), Some(EnvHive::System));
    assert_eq!(csv_row_hive_lowered("system"), Some(EnvHive::System));
    assert_eq!(csv_row_hive_lowered("usr"), Some(EnvHive::User));
    assert_eq!(csv_row_hive_lowered("machine"), None);
    assert!(!csv_flag_enabled_lowered("false"));
    assert!(csv_flag_enabled_lowered("no"));
}

#[test]
fn system_directory_test_on_lowered_text() {
    assert!(lowered_is_system_directory("c:\\windows\\temp"));
    assert!(lowered_is_system_directory("c:\\program files\\x"));
    assert!(!lowered_is_system_directory("d:\\backups"));
}

#[test]
fn query_test_on_lowered_text() {
    assert!(query_keeps_lowered("", "anything.exe"));
    assert!(query_keeps_lowered("py", "python.exe"));
    assert!(!query_keeps_lowered("java", "python.exe"));
}

#[test]
fn extension_drops_trailing_current_dir() {
    assert_eq!(path_extension("a.json/."), "json");
    assert_eq!(path_extension("dir\\b.CSV\\.\\"), "csv");
    assert_eq!(path_extension("x/.."), "");
    assert_eq!(path_extension("/."), "");
}

#[test]
fn list_shows_both_hives_unless_one_is_flagged() {
    assert_eq!(listed_hives(false, false), (true, true));
    assert_eq!(listed_hives(true, false), (true, false));
    assert_eq!(listed_hives(false, true), (false, true));
    assert_eq!(listed_hives(true, true), (true, true));
}

#[test]
fn conflicts_from_lowered_occurrences() {
    let occ = vec![
        ("python.exe".to_string(), 0usize, "C:\\a".to_string()),
        ("git.exe".to_string(), 0usize, "C:\\a".to_string()),
        ("python.exe".to_string(), 1usize, "D:\\b".to_string()),
    ];
    let cs = conflicts_of(&occ);
    assert_eq!(cs.len(), 1);
    assert_eq!(cs[0].name, "python.exe");
    assert_eq!(cs[0].locations.len(), 2);
    assert_eq!(cs[0].locations[0].dir, "C:\\a");
    assert_eq!(cs[0].locations[1].priority, 1);
}

#[test]
fn keyed_merge_agrees_with_the_merge() {
    let registry = strings(&["C:\\A", "D:\\new"]);
    let legacy = strings(&["E:\\old"]);
    let snapshot = vec![entry("c:\\a", true), entry("C:\\gone", false)];
    let keyed = merge_keyed(
        registry.clone(),
        strings(&["c:\\a", "d:\\new"]),
        legacy.clone(),
        strings(&["e:\\old"]),
        snapshot.clone(),
        strings(&["c:\\a", "c:\\gone"]),
    );
    assert_eq!(
        keyed,
        vec![
            entry("C:\\A", true),
            entry("C:\\gone", false),
            entry("D:\\new", true),
            entry("E:\\old", false)
        ]
    );
    assert_eq!(merge_hive(registry, legacy, snapshot), keyed);
}
