use path_editor_core::backup::{
    check_backup_dir, collect_hive_vars_in_store, env_backup_file_name, parse_env_backup_keep,
    parse_usize, path_backup_content, path_backup_file_name, select_backups_to_remove,
    ENV_BACKUP_KEEP,
};
use path_editor_core::env_var::{revision_of, EnvHive, EnvValueKind, REG_DWORD, REG_EXPAND_SZ, REG_SZ};
use path_editor_core::error::ErrorCode;
use path_editor_core::reg_store::MemoryHive;

#[test]
fn collect_hive_vars_excludes_reserved_and_unsupported() {
    let mut hive = MemoryHive::new(true);
    hive.seed("JAVA_HOME", "C:\\jdk17", REG_SZ);
    hive.seed("API_TOKEN", "secret-value", REG_SZ);
    hive.seed("Path", "C:\\Windows", REG_EXPAND_SZ);
    hive.seed("SomeDword", "1", REG_DWORD);
    let vars = collect_hive_vars_in_store(&hive, EnvHive::User).expect("unsupported values are skipped");
    let names: Vec<&str> = vars.iter().map(|v| v.name.as_str()).collect();
    assert!(names.contains(&"JAVA_HOME"));
    assert!(names.contains(&"API_TOKEN"));
    assert!(!names.contains(&"Path"));
    assert!(!names.contains(&"SomeDword"));
    let java = vars.iter().find(|v| v.name == "JAVA_HOME").unwrap();
    assert_eq!(java.value, "C:\\jdk17");
    assert_eq!(java.kind, EnvValueKind::String);
    assert_eq!(java.revision.len(), 16);
}

#[test]
fn collect_hive_vars_keeps_others_when_unsupported_present() {
    let mut hive = MemoryHive::new(true);
    hive.seed("A_DWORD", "1", REG_DWORD);
    hive.seed("B_NORMAL", "b", REG_SZ);
    hive.seed("C_DWORD", "2", REG_DWORD);
    hive.seed("D_NORMAL", "d", REG_EXPAND_SZ);
    let vars = collect_hive_vars_in_store(&hive, EnvHive::User).expect("skipped, not failed");
    let names: Vec<&str> = vars.iter().map(|v| v.name.as_str()).collect();
    assert_eq!(vars.len(), 2);
    assert!(names.contains(&"B_NORMAL"));
    assert!(names.contains(&"D_NORMAL"));
}

#[test]
fn collect_hive_vars_revision_matches_revision_of() {
    let mut hive = MemoryHive::new(true);
    hive.seed("MY_VAR", "value-1", REG_SZ);
    let vars = collect_hive_vars_in_store(&hive, EnvHive::User).expect("collect");
    assert_eq!(vars[0].revision, revision_of("MY_VAR", REG_SZ, "value-1"));
}

#[test]
fn collect_fails_when_a_read_fails() {
    let mut hive = MemoryHive::new(true);
    hive.seed("A", "1", REG_SZ);
    hive.set_fail_get(Some("a".into()));
    let e = collect_hive_vars_in_store(&hive, EnvHive::System).unwrap_err();
    assert_eq!(e.code, ErrorCode::Io);
    assert_eq!(e.hive, Some(EnvHive::System));
    hive.set_fail_get(None);
    hive.set_fail_enum(true);
    assert!(collect_hive_vars_in_store(&hive, EnvHive::System).is_err());
}

#[test]
fn rotate_env_backups_never_deletes_foreign_files() {
    let mut names: Vec<String> = (0..25)
        .map(|i| format!("env_backup_202601{:02}_120000_000.json", i))
        .collect();
    for foreign in [
        "path_backup_20260920_152446_043.txt",
        "env_backup_20250101_000000_000.json.bak",
        "env_backup_old.json.bak",
        "disabled.json.corrupt-20260920-120000000",
        "我的笔记.txt",
        "env_backup_note.md",
    ] {
        names.push(foreign.to_string());
    }
    let removed = select_backups_to_remove(&names, ENV_BACKUP_KEEP);
    assert_eq!(removed.len(), 5);
    for name in &removed {
        assert!(name.starts_with("env_backup_") && name.ends_with(".json"), "{name}");
    }
    let expected: Vec<String> = (0..5)
        .rev()
        .map(|i| format!("env_backup_202601{:02}_120000_000.json", i))
        .collect();
    assert_eq!(removed, expected);
}

#[test]
fn rotate_env_backups_keeps_exactly_keep_files() {
    let names: Vec<String> = (0..25)
        .map(|i| format!("env_backup_202601{:02}_120000_000.json", i))
        .collect();
    let removed = select_backups_to_remove(&names, ENV_BACKUP_KEEP);
    assert_eq!(names.len() - removed.len(), ENV_BACKUP_KEEP);
    assert!(!removed.contains(&"env_backup_20260124_120000_000.json".to_string()));
    assert!(select_backups_to_remove(&names[..3].to_vec(), 3).is_empty());
    assert_eq!(select_backups_to_remove(&names[..3].to_vec(), 0).len(), 3);
}

#[test]
fn config_missing_returns_default_and_creates_nothing() {
    assert_eq!(parse_env_backup_keep(""), ENV_BACKUP_KEEP);
}

#[test]
fn config_invalid_values_fall_back_to_default() {
    for body in [
        "; 只有注释\n",
        "env_backup_keep = abc\n",
        "env_backup_keep = -5\n",
        "env_backup_keep =\n",
        "other_key = 1\n",
    ] {
        assert_eq!(parse_env_backup_keep(body), ENV_BACKUP_KEEP, "{body:?}");
    }
}

#[test]
fn config_reads_valid_value_with_comments_and_spaces() {
    assert_eq!(
        parse_env_backup_keep("; 注释行\n# 另一种注释\nenv_backup_keep   =   7   \n"),
        7
    );
    assert_eq!(parse_env_backup_keep("env_backup_keep=+0\nenv_backup_keep=9\n"), 0);
}

#[test]
fn usize_parsing_follows_from_str() {
    assert_eq!(parse_usize("42"), Some(42));
    assert_eq!(parse_usize("+7"), Some(7));
    assert_eq!(parse_usize("+"), None);
    assert_eq!(parse_usize(""), None);
    assert_eq!(parse_usize("-1"), None);
    assert_eq!(parse_usize("1 2"), None);
    assert_eq!(parse_usize("99999999999999999999999999"), None);
    assert_eq!(parse_usize(&usize::MAX.to_string()), Some(usize::MAX));
}

#[test]
fn backup_dir_refuses_system_directories() {
    assert_eq!(
        check_backup_dir("C:/Windows/Temp").unwrap_err(),
        "不允许备份到系统目录"
    );
    assert!(check_backup_dir("c:\\PROGRAM FILES\\x").is_err());
    assert!(check_backup_dir("D:\\backups").is_ok());
    assert!(check_backup_dir("C:\\Windows").is_ok());
}

#[test]
fn path_backup_text_lists_both_hives() {
    let text = path_backup_content(
        "2026-01-01 00:00:00",
        &vec!["C:\\a".to_string()],
        &vec!["D:\\b".to_string(), "D:\\c".to_string()],
    );
    assert_eq!(
        text,
        "PathEditor Backup - 2026-01-01 00:00:00\n\n[System PATH]\nC:\\a\n\n[User PATH]\nD:\\b\nD:\\c\n"
    );
    assert_eq!(path_backup_file_name("20260101_000000_000"), "path_backup_20260101_000000_000.txt");
    assert_eq!(env_backup_file_name("20260101_000000_000"), "env_backup_20260101_000000_000.json");
}
