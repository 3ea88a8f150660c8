use path_editor_core::error::ErrorCode;
use path_editor_core::persist::{is_blank_content, migrate, PERSIST_SCHEMA_VERSION};

#[test]
fn current_and_older_versions_are_accepted() {
    assert!(migrate(PERSIST_SCHEMA_VERSION, "disabled.json").is_ok());
    assert!(migrate(0, "disabled.json").is_ok());
}

#[test]
fn future_schema_version_returns_parse_with_hint() {
    let err = migrate(999, "配置文件").unwrap_err();
    assert_eq!(err.code, ErrorCode::Parse);
    assert!(err.message.contains("更新版本"), "{}", err.message);
    assert_eq!(
        err.message,
        "配置文件 的 schemaVersion 为 999，高于当前支持的 1，文件由更新版本写入，请升级 PathEditor"
    );
}

#[test]
fn blank_files_read_as_default() {
    assert!(is_blank_content(""));
    assert!(is_blank_content(" \n\t "));
    assert!(!is_blank_content("{}"));
}
