use path_editor_core::env_var::{REG_DWORD, REG_EXPAND_SZ, REG_SZ};
use path_editor_core::path_value::{
    clean_path_list, join_path_value, select_path_value_type, split_path_value,
    validate_and_join_paths,
};

fn strings(v: &[&str]) -> Vec<String> {
    v.iter().map(|s| s.to_string()).collect()
}

#[test]
fn split_drops_blank_segments_and_keeps_order() {
    assert_eq!(
        split_path_value("C:\\a;;  ;D:\\b;C:\\a;"),
        strings(&["C:\\a", "D:\\b", "C:\\a"])
    );
    assert!(split_path_value("").is_empty());
    assert_eq!(split_path_value(" C:\\x "), strings(&[" C:\\x "]));
}

#[test]
fn join_uses_semicolons_without_trailing_one() {
    assert_eq!(join_path_value(&strings(&["C:\\a", "D:\\b"])), "C:\\a;D:\\b");
    assert_eq!(join_path_value(&strings(&["C:\\a"])), "C:\\a");
    assert_eq!(join_path_value(&vec![]), "");
}

#[test]
fn join_then_split_gives_back_clean_entries() {
    let entries = strings(&["C:\\Windows", "%JAVA_HOME%\\bin", "D:\\Tools"]);
    assert_eq!(split_path_value(&join_path_value(&entries)), entries);
}

#[test]
fn clean_removes_missing_blank_and_duplicates() {
    let paths = strings(&["C:\\a", "c:\\A ", "D:\\gone", "  ", "E:\\e"]);
    let exists = vec![true, true, false, true, true];
    let (kept, removed) = clean_path_list(&paths, &exists);
    assert_eq!(kept, strings(&["C:\\a", "E:\\e"]));
    assert_eq!(removed, strings(&["c:\\A ", "D:\\gone", "  "]));
}

#[test]
fn validate_and_join_accepts_a_normal_list() {
    let paths = strings(&["C:\\a", "D:\\b"]);
    assert_eq!(validate_and_join_paths(&paths, "系统").unwrap(), "C:\\a;D:\\b");
}

#[test]
fn validate_and_join_rejects_overlong_value_with_label_first() {
    let paths = vec!["C:\\a".to_string(), "a".repeat(32767)];
    let err = validate_and_join_paths(&paths, "系统").unwrap_err();
    assert!(err.starts_with("系统"));
    assert!(err.contains("32767"));
    assert!(err.contains("32772"));
}

#[test]
fn validate_and_join_accepts_exactly_the_limit() {
    let paths = vec!["C:\\a".to_string(), "a".repeat(32767 - 5)];
    assert!(validate_and_join_paths(&paths, "用户").is_ok());
    let paths = vec!["C:\\a".to_string(), "a".repeat(32767 - 4)];
    assert!(validate_and_join_paths(&paths, "用户").is_err());
}

#[test]
fn validate_and_join_rejects_semicolons_and_nul() {
    let err = validate_and_join_paths(&strings(&["C:\\a;D:\\b"]), "用户").unwrap_err();
    assert_eq!(err, "用户 PATH 条目不能包含分号: C:\\a;D:\\b");
    let err = validate_and_join_paths(&strings(&["ok", "bad\0x"]), "用户").unwrap_err();
    assert_eq!(err, "用户 PATH 条目包含 null 字节: bad\0x");
}

#[test]
fn value_type_keeps_reg_sz_and_defaults_to_expand() {
    assert_eq!(select_path_value_type(Some(REG_SZ)), REG_SZ);
    assert_eq!(select_path_value_type(Some(REG_EXPAND_SZ)), REG_EXPAND_SZ);
    assert_eq!(select_path_value_type(Some(REG_DWORD)), REG_EXPAND_SZ);
    assert_eq!(select_path_value_type(None), REG_EXPAND_SZ);
}
