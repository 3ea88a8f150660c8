use path_editor_core::disabled::{
    disabled_lists, load_disabled_state, load_path_snapshot, merge_hive, path_key, pending_snapshot,
    save_disabled_state, save_path_snapshot, DisabledState,
};
use path_editor_core::path_entry::PathEntry;

fn entry(path: &str, enabled: bool) -> PathEntry {
    PathEntry {
        path: path.to_string(),
        enabled,
    }
}

#[test]
fn merge_preserves_disabled_orphan_and_snapshot_order() {
    let merged = merge_hive(
        vec!["C:\\A".into(), "C:\\C".into(), "C:\\D".into()],
        vec!["C:\\B".into()],
        vec![
            entry("C:\\A", true),
            entry("C:\\B", false),
            entry("C:\\C", true),
        ],
    );
    assert_eq!(
        merged,
        vec![
            entry("C:\\A", true),
            entry("C:\\B", false),
            entry("C:\\C", true),
            entry("C:\\D", true),
        ]
    );
}

#[test]
fn merge_drops_enabled_entries_missing_from_registry() {
    let merged = merge_hive(
        vec!["C:\\A".into()],
        vec![],
        vec![entry("C:\\A", true), entry("C:\\Gone", true)],
    );
    assert_eq!(merged, vec![entry("C:\\A", true)]);
}

#[test]
fn legacy_disabled_orphan_is_restored_without_snapshot() {
    let merged = merge_hive(vec!["C:\\A".into()], vec!["C:\\Old".into()], vec![]);
    assert_eq!(merged, vec![entry("C:\\A", true), entry("C:\\Old", false)]);
}

#[test]
fn merge_takes_registry_spelling_and_skips_duplicates() {
    let merged = merge_hive(
        vec!["C:\\Tools ".into(), "c:\\tools".into(), "".into()],
        vec![],
        vec![entry("  C:\\TOOLS", true), entry("c:\\Tools", false)],
    );
    // the snapshot gives the order; the registry gives the spelling (the last
    // registry path of a key wins); later entries of the same key are skipped
    assert_eq!(merged, vec![entry("c:\\tools", true)]);
}

#[test]
fn merge_keeps_legacy_disabled_registry_entries_disabled() {
    let merged = merge_hive(
        vec!["C:\\A".into(), "C:\\B".into()],
        vec!["c:\\b".into()],
        vec![entry("C:\\B", true)],
    );
    assert_eq!(merged, vec![entry("C:\\B", false), entry("C:\\A", true)]);
}

#[test]
fn path_key_trims_and_lowercases() {
    assert_eq!(path_key("  C:\\Program Files\\X  "), "c:\\program files\\x");
    assert_eq!(path_key("   "), "");
}

#[test]
fn saved_snapshot_survives_a_restart() {
    let snapshot = vec![
        entry("C:\\one", true),
        entry("C:\\two", false),
        entry("C:\\three", true),
        entry("D:\\four", false),
    ];
    let mut state = DisabledState::new();
    save_path_snapshot(&mut state, None, Some(snapshot.clone()));
    let registry_user: Vec<String> = snapshot
        .iter()
        .filter(|e| e.enabled)
        .map(|e| e.path.clone())
        .collect();
    let loaded = load_path_snapshot(vec![], registry_user, &state);
    assert_eq!(loaded.user, snapshot);
    assert!(loaded.system.is_empty());
}

#[test]
fn disabled_state_roundtrip() {
    let mut state = DisabledState::new();
    let sys = vec!["C:\\sys1".to_string(), "C:\\sys2".to_string()];
    let usr = vec!["D:\\usr1".to_string()];
    save_disabled_state(&mut state, sys.clone(), usr.clone());
    let (loaded_sys, loaded_usr) = load_disabled_state(&state);
    assert_eq!(loaded_sys, sys);
    assert_eq!(loaded_usr, usr);
    save_disabled_state(&mut state, vec![], vec![]);
    let (a, b) = load_disabled_state(&state);
    assert!(a.is_empty() && b.is_empty());
}

#[test]
fn save_path_snapshot_derives_disabled_lists_and_keeps_other_hive() {
    let mut state = DisabledState::new();
    save_disabled_state(&mut state, vec!["C:\\old".into()], vec![]);
    save_path_snapshot(
        &mut state,
        None,
        Some(vec![entry("D:\\a", true), entry("D:\\b", false)]),
    );
    assert_eq!(state.system, vec!["C:\\old".to_string()]);
    assert_eq!(state.user, vec!["D:\\b".to_string()]);
    assert_eq!(state.user_snapshot.len(), 2);
}

#[test]
fn disabled_lists_picks_disabled_entries_in_order() {
    let list = vec![entry("a", false), entry("b", true), entry("c", false)];
    assert_eq!(disabled_lists(&list), vec!["a".to_string(), "c".to_string()]);
}

#[test]
fn pending_snapshot_records_missing_hive_as_empty() {
    let p = pending_snapshot(Some(vec![entry("C:\\x", true)]), None);
    assert_eq!(p.system, vec![entry("C:\\x", true)]);
    assert!(p.user.is_empty());
}
