use path_editor_core::app_error::AppError;
use path_editor_core::env_var::EnvHive;
use path_editor_core::error::{CoreError, ErrorCode};
use path_editor_core::registry::conflict::{conflict_error, conflict_message};

#[test]
fn conflict_result_maps_to_exit_3() {
    let e = CoreError::new(ErrorCode::Conflict, "update_env_var", "冲突");
    assert_eq!(e.exit_code(), 3);
    assert_eq!(CoreError::new(ErrorCode::NotFound, "op", "不存在").exit_code(), 1);
}

#[test]
fn conflict_maps_to_exit_code_3() {
    let e = CoreError::new(ErrorCode::Conflict, "update_env_var", "冲突");
    assert_eq!(e.exit_code(), 3);
    assert!(e.retryable);
}

#[test]
fn other_codes_map_to_exit_code_1() {
    let e = CoreError::new(ErrorCode::Protected, "update_env_var", "保护");
    assert_eq!(e.exit_code(), 1);
    assert!(!e.retryable);
}

#[test]
fn core_conflict_maps_to_exit_code_3() {
    let m = conflict_message();
    let e = CoreError::new(ErrorCode::Conflict, "update_env_var", &m);
    assert_eq!(e.exit_code(), 3);
}

#[test]
fn core_other_errors_map_to_exit_code_1() {
    let e = CoreError::new(ErrorCode::Protected, "op", "保护");
    assert_eq!(e.exit_code(), 1);
}

#[test]
fn conflict_prefix_matches_core_constant() {
    let msg = conflict_message();
    assert!(msg.starts_with("[E_CONFLICT]"));
}

#[test]
fn conflict_message_matches_frontend_contract() {
    let msg = conflict_message();
    assert!(msg.starts_with("[E_CONFLICT] "));
    assert!(msg.contains("已被其他进程修改"));
}

#[test]
fn conflict_error_carries_target() {
    let e = conflict_error("delete_env_var", EnvHive::System, "JAVA_HOME");
    assert_eq!(e.code, ErrorCode::Conflict);
    assert_eq!(e.operation, "delete_env_var");
    assert_eq!(e.hive, Some(EnvHive::System));
    assert_eq!(e.name.as_deref(), Some("JAVA_HOME"));
    assert!(e.retryable);
    assert_eq!(e.exit_code(), 3);
}

#[test]
fn with_target_keeps_code_and_message() {
    let e = CoreError::new(ErrorCode::Io, "op", "boom").with_target(EnvHive::User, "X");
    assert_eq!(e.code, ErrorCode::Io);
    assert_eq!(e.message, "boom");
    assert_eq!(e.to_string(), "boom");
    assert_eq!(e.hive, Some(EnvHive::User));
    assert_eq!(e.name.as_deref(), Some("X"));
}

#[test]
fn legacy_text_becomes_internal_error() {
    let e = CoreError::from_legacy("旧接口错误");
    assert_eq!(e.code, ErrorCode::Internal);
    assert_eq!(e.operation, "legacy");
    assert_eq!(e.message, "旧接口错误");
    assert_eq!(e.exit_code(), 1);
}

#[test]
fn app_error_keeps_message() {
    let e = AppError::from("无法写入".to_string());
    assert_eq!(e.message, "无法写入");
    assert_eq!(e.to_string(), "无法写入");
}
