use path_editor_core::env_var::{revision_of, EnvHive, EnvValueKind, REG_DWORD, REG_EXPAND_SZ, REG_SZ};
use path_editor_core::error::ErrorCode;
use path_editor_core::reg_store::{MemoryHive, RegValue};
use path_editor_core::registry::env_var::{
    create_env_var_in_store, delete_env_var_force_in_store, delete_env_var_in_store,
    list_env_vars_in_store, read_env_var, reject_reserved_and_protected,
    reveal_env_var_in_store, update_env_var_force_in_store, update_env_var_in_store,
    validate_env_name, validate_env_value, write_env_var,
};

#[test]
fn read_env_var_returns_real_type_and_value() {
    let mut hive = MemoryHive::new(true);
    hive.seed("JAVA_HOME", "C:\\Java", REG_EXPAND_SZ);
    let (vtype, value) = read_env_var(&hive, "JAVA_HOME").expect("read");
    assert_eq!(vtype, REG_EXPAND_SZ);
    assert_eq!(value, "C:\\Java");
}

#[test]
fn read_env_var_is_case_insensitive_and_reports_missing() {
    let mut hive = MemoryHive::new(true);
    hive.seed("JAVA_HOME", "C:\\Java", REG_SZ);
    assert_eq!(read_env_var(&hive, "java_home").unwrap().1, "C:\\Java");
    let err = read_env_var(&hive, "MISSING").unwrap_err();
    assert_eq!(err.code, ErrorCode::Io);
    assert_eq!(err.operation, "read_env_var");
}

#[test]
fn write_env_var_preserves_expand_sz_type() {
    let mut hive = MemoryHive::new(true);
    hive.seed("GOPATH", "C:\\Old", REG_EXPAND_SZ);
    write_env_var(&mut hive, "GOPATH", "C:\\New", REG_EXPAND_SZ).expect("write");
    let raw = hive.get_raw("GOPATH").expect("read");
    assert_eq!(raw.vtype, REG_EXPAND_SZ);
    assert_eq!(raw.value, "C:\\New");
}

#[test]
fn write_env_var_preserves_sz_type() {
    let mut hive = MemoryHive::new(true);
    hive.seed("JAVA_HOME", "C:\\Old", REG_SZ);
    write_env_var(&mut hive, "JAVA_HOME", "C:\\New", REG_SZ).expect("write");
    let raw = hive.get_raw("JAVA_HOME").expect("read");
    assert_eq!(raw.vtype, REG_SZ);
}

#[test]
fn validate_env_name_rejects_invalid() {
    assert!(validate_env_name("JAVA_HOME").is_ok());
    assert!(validate_env_name("").is_err());
    assert!(validate_env_name("BAD\0NAME").is_err());
    assert!(validate_env_name("BAD=NAME").is_err());
    assert_eq!(validate_env_name("   ").unwrap_err(), "变量名不能为空");
    assert_eq!(validate_env_name("A=B").unwrap_err(), "变量名不能包含等号");
    assert!(validate_env_name(&"n".repeat(32768)).is_err());
    assert!(validate_env_name(&"n".repeat(32767)).is_ok());
}

#[test]
fn validate_env_value_rejects_null_and_oversize() {
    assert!(validate_env_value("C:\\Java", "测试").is_ok());
    assert!(validate_env_value("bad\0value", "测试").is_err());
    let oversized = "x".repeat(32768);
    assert!(validate_env_value(&oversized, "测试").is_err());
    assert_eq!(
        validate_env_value(&oversized, "V").unwrap_err(),
        "V 的值长度 32768 超出 Windows 限制 32767 字符"
    );
    assert_eq!(
        validate_env_value("a\0", "V").unwrap_err(),
        "V 的值包含 null 字节"
    );
}

#[test]
fn reserved_names_are_never_writable_through_generic_path() {
    let mut hive = MemoryHive::new(true);
    hive.seed("Path", "C:\\Windows", REG_EXPAND_SZ);
    assert!(read_env_var(&hive, "Path").is_ok());
    let e = reject_reserved_and_protected(EnvHive::User, "path", "update_env_var", "不允许修改")
        .unwrap_err();
    assert_eq!(e.code, ErrorCode::ReservedName);
    assert_eq!(e.message, "path 由专用 PATH 通路管理，请使用 PATH 视图编辑");
    let e = reject_reserved_and_protected(EnvHive::User, "windir", "delete_env_var", "不允许删除")
        .unwrap_err();
    assert_eq!(e.code, ErrorCode::Protected);
    assert_eq!(e.message, "windir 是系统内置变量，不允许删除");
    assert!(reject_reserved_and_protected(EnvHive::User, "JAVA_HOME", "op", "v").is_ok());
}

#[test]
fn revision_detects_external_change() {
    let mut hive = MemoryHive::new(true);
    hive.seed("MY_VAR", "original", REG_SZ);
    let (vtype, value) = read_env_var(&hive, "MY_VAR").expect("read");
    let revision = revision_of("MY_VAR", vtype, &value);
    hive.seed("MY_VAR", "changed-by-other-process", REG_SZ);
    let (vtype2, value2) = read_env_var(&hive, "MY_VAR").expect("read");
    let current = revision_of("MY_VAR", vtype2, &value2);
    assert_ne!(revision, current);
}

#[test]
fn unsupported_type_is_not_writable() {
    let mut hive = MemoryHive::new(true);
    hive.seed_raw("MY_DWORD", RegValue::new(REG_DWORD, ""));
    let err = read_env_var(&hive, "MY_DWORD").unwrap_err();
    assert_eq!(err.code, ErrorCode::UnsupportedType);
    let stored = hive.get_raw("MY_DWORD").expect("raw");
    let kind = EnvValueKind::from_reg_type(stored.vtype);
    assert_eq!(kind, EnvValueKind::Unsupported);
    assert!(!kind.is_writable());
}

#[test]
fn list_path_is_filtered_and_name_case_preserved() {
    let mut hive = MemoryHive::new(true);
    hive.seed("Path", "C:\\Windows", REG_EXPAND_SZ);
    hive.seed("path", "C:\\ShouldNotAppear", REG_EXPAND_SZ);
    hive.seed("MyApp_Home", "C:\\MyApp", REG_SZ);
    hive.seed("another_var", "C:\\another", REG_EXPAND_SZ);
    let metas = list_env_vars_in_store(EnvHive::User, &hive).expect("list");
    let names: Vec<&str> = metas.iter().map(|m| m.name.as_str()).collect();
    assert!(!names.iter().any(|n| n.eq_ignore_ascii_case("path")));
    assert!(names.contains(&"MyApp_Home"));
    assert!(names.contains(&"another_var"));
    assert!(metas
        .iter()
        .all(|m| !m.preview.as_deref().unwrap_or("").contains("ShouldNotAppear")));
}

#[test]
fn list_entry_carries_kind_capabilities_and_revision() {
    let mut hive = MemoryHive::new(false);
    hive.seed("JAVA_HOME", "C:\\Java", REG_EXPAND_SZ);
    hive.seed("ComSpec", "C:\\Windows\\cmd.exe", REG_SZ);
    hive.seed("FLAGS", "1", REG_DWORD);
    let metas = list_env_vars_in_store(EnvHive::System, &hive).expect("list");
    assert_eq!(metas.len(), 3);
    let java = &metas[0];
    assert_eq!(java.kind, EnvValueKind::ExpandString);
    assert_eq!(java.hive, EnvHive::System);
    assert!(!java.can_edit && !java.can_delete, "read-only hive");
    assert_eq!(java.revision, revision_of("JAVA_HOME", REG_EXPAND_SZ, "C:\\Java"));
    let flags = &metas[2];
    assert_eq!(flags.kind, EnvValueKind::Unsupported);
    assert_eq!(flags.preview, None);
    assert_eq!(flags.revision, revision_of("FLAGS", REG_DWORD, ""));
}

#[test]
fn update_env_var_rejects_revision_mismatch_and_keeps_value() {
    let mut hive = MemoryHive::new(true);
    hive.seed("MY_VAR", "original", REG_SZ);
    let (vtype, value) = read_env_var(&hive, "MY_VAR").expect("read");
    let stale_revision = revision_of("MY_VAR", vtype, &value);
    hive.seed("MY_VAR", "changed-by-other", REG_SZ);
    let result = update_env_var_in_store(&mut hive, EnvHive::User, "MY_VAR", "mine", &stale_revision);
    assert!(result.is_err());
    assert_eq!(result.unwrap_err().code, ErrorCode::Conflict);
    let raw = hive.get_raw("MY_VAR").expect("read");
    assert_eq!(raw.value, "changed-by-other");
}

#[test]
fn update_env_var_rejects_dword_and_keeps_value() {
    let mut hive = MemoryHive::new(true);
    hive.seed_raw("MY_DWORD", RegValue::new(REG_DWORD, ""));
    let stored = hive.get_raw("MY_DWORD").expect("read");
    let revision = revision_of("MY_DWORD", stored.vtype, "");
    let result = update_env_var_in_store(&mut hive, EnvHive::User, "MY_DWORD", "1", &revision);
    let err = result.unwrap_err();
    assert_eq!(err.code, ErrorCode::UnsupportedType);
    assert!(err.message.contains("类型不受支持"), "{}", err.message);
    let after = hive.get_raw("MY_DWORD").expect("read");
    assert_eq!(after.vtype, REG_DWORD);
    assert_eq!(after.value, "");
}

#[test]
fn update_env_var_succeeds_when_revision_matches() {
    let mut hive = MemoryHive::new(true);
    hive.seed("MY_VAR", "original", REG_SZ);
    let (vtype, value) = read_env_var(&hive, "MY_VAR").expect("read");
    let revision = revision_of("MY_VAR", vtype, &value);
    update_env_var_in_store(&mut hive, EnvHive::User, "MY_VAR", "updated", &revision)
        .expect("matching revision");
    let raw = hive.get_raw("MY_VAR").expect("read");
    assert_eq!(raw.value, "updated");
    assert_eq!(raw.vtype, REG_SZ);
}

#[test]
fn update_env_var_rejects_invalid_value_and_reports_target() {
    let mut hive = MemoryHive::new(true);
    hive.seed("MY_VAR", "original", REG_SZ);
    let revision = revision_of("MY_VAR", REG_SZ, "original");
    let err = update_env_var_in_store(&mut hive, EnvHive::User, "MY_VAR", "bad\0", &revision)
        .unwrap_err();
    assert_eq!(err.code, ErrorCode::InvalidValue);
    assert_eq!(err.hive, Some(EnvHive::User));
    assert_eq!(err.name.as_deref(), Some("MY_VAR"));
    assert_eq!(hive.get_raw("MY_VAR").unwrap().value, "original");
}

#[test]
fn update_env_var_of_missing_variable_is_a_read_error() {
    let mut hive = MemoryHive::new(true);
    let err = update_env_var_in_store(&mut hive, EnvHive::System, "NOPE", "v", "0000000000000000")
        .unwrap_err();
    assert_eq!(err.code, ErrorCode::Io);
    assert_eq!(err.operation, "read_env_var");
    assert_eq!(err.hive, Some(EnvHive::System));
    assert!(err.message.starts_with("读取系统环境变量 NOPE 失败: "), "{}", err.message);
}

#[test]
fn delete_env_var_succeeds_when_revision_matches() {
    let mut hive = MemoryHive::new(true);
    hive.seed("MY_VAR", "original", REG_SZ);
    let (vtype, value) = read_env_var(&hive, "MY_VAR").expect("read");
    let revision = revision_of("MY_VAR", vtype, &value);
    delete_env_var_in_store(&mut hive, EnvHive::User, "MY_VAR", &revision).expect("delete");
    assert!(!hive.contains("MY_VAR"));
}

#[test]
fn create_env_var_rejects_protected_and_duplicate() {
    let mut hive = MemoryHive::new(true);
    hive.seed("Existing", "already-here", REG_SZ);
    let protected =
        create_env_var_in_store(&mut hive, EnvHive::User, "windir", "C:\\evil", EnvValueKind::String);
    assert_eq!(protected.unwrap_err().code, ErrorCode::Protected);
    let duplicate =
        create_env_var_in_store(&mut hive, EnvHive::User, "EXISTING", "dup", EnvValueKind::String);
    assert_eq!(duplicate.unwrap_err().code, ErrorCode::NameExists);
    let raw = hive.get_raw("Existing").expect("read");
    assert_eq!(raw.value, "already-here");
}

#[test]
fn create_env_var_stores_the_kind_type() {
    let mut hive = MemoryHive::new(true);
    create_env_var_in_store(&mut hive, EnvHive::User, "NEW_A", "a", EnvValueKind::String).unwrap();
    create_env_var_in_store(&mut hive, EnvHive::User, "NEW_B", "%A%", EnvValueKind::ExpandString)
        .unwrap();
    assert_eq!(hive.get_raw("NEW_A").unwrap().vtype, REG_SZ);
    assert_eq!(hive.get_raw("NEW_B").unwrap().vtype, REG_EXPAND_SZ);
    let err = create_env_var_in_store(&mut hive, EnvHive::User, "NEW_C", "c", EnvValueKind::Unsupported)
        .unwrap_err();
    assert_eq!(err.code, ErrorCode::UnsupportedType);
    let err = create_env_var_in_store(&mut hive, EnvHive::User, "Path", "c", EnvValueKind::String)
        .unwrap_err();
    assert_eq!(err.code, ErrorCode::ReservedName);
    assert_eq!(err.message, "Path 由专用 PATH 通路管理，无法通过通用通路创建");
}

#[test]
fn create_env_var_refuses_when_enumeration_fails() {
    let mut hive = MemoryHive::new(true);
    hive.set_fail_enum(true);
    let err = create_env_var_in_store(&mut hive, EnvHive::User, "NEW", "v", EnvValueKind::String)
        .unwrap_err();
    assert_eq!(err.code, ErrorCode::Io);
    hive.set_fail_enum(false);
    assert!(!hive.contains("NEW"));
}

#[test]
fn reveal_returns_value_with_matching_revision() {
    let mut hive = MemoryHive::new(true);
    hive.seed("MY_VAR", "hello", REG_SZ);
    let revealed = reveal_env_var_in_store(&hive, EnvHive::User, "MY_VAR").expect("reveal");
    assert_eq!(revealed.value, "hello");
    let raw = hive.get_raw("MY_VAR").unwrap();
    let expected = revision_of("MY_VAR", raw.vtype, "hello");
    assert_eq!(revealed.revision, expected);
}

#[test]
fn reveal_revision_changes_after_external_edit() {
    let mut hive = MemoryHive::new(true);
    hive.seed("MY_VAR", "one", REG_SZ);
    let first = reveal_env_var_in_store(&hive, EnvHive::User, "MY_VAR").unwrap().revision;
    hive.seed("MY_VAR", "two", REG_SZ);
    let second = reveal_env_var_in_store(&hive, EnvHive::User, "MY_VAR").unwrap().revision;
    assert_ne!(first, second);
}

#[test]
fn reveal_env_var_returns_plaintext_and_sensitive_preview_is_none() {
    let mut hive = MemoryHive::new(true);
    hive.seed("MY_PLAIN", "C:\\plain value", REG_SZ);
    hive.seed("MY_API_TOKEN", "super-secret-plaintext", REG_SZ);
    let revealed = reveal_env_var_in_store(&hive, EnvHive::User, "MY_API_TOKEN").expect("reveal");
    assert_eq!(revealed.value, "super-secret-plaintext");
    let metas = list_env_vars_in_store(EnvHive::User, &hive).expect("list");
    let token_meta = metas.iter().find(|m| m.name == "MY_API_TOKEN").expect("listed");
    assert!(token_meta.sensitive);
    assert_eq!(token_meta.preview, None);
    let plain_meta = metas.iter().find(|m| m.name == "MY_PLAIN").expect("listed");
    assert_eq!(plain_meta.preview.as_deref(), Some("C:\\plain value"));
}

#[test]
fn reveal_refuses_path_but_reads_protected() {
    let mut hive = MemoryHive::new(true);
    hive.seed("Path", "C:\\Windows", REG_EXPAND_SZ);
    hive.seed("windir", "C:\\Windows", REG_EXPAND_SZ);
    let err = reveal_env_var_in_store(&hive, EnvHive::User, "PATH").unwrap_err();
    assert_eq!(err.code, ErrorCode::ReservedName);
    assert_eq!(err.operation, "reveal_env_var");
    assert_eq!(
        reveal_env_var_in_store(&hive, EnvHive::User, "windir").unwrap().value,
        "C:\\Windows"
    );
}

#[test]
fn delete_env_var_rejects_revision_mismatch_and_keeps_var() {
    let mut hive = MemoryHive::new(true);
    hive.seed("MY_VAR", "original", REG_SZ);
    let (vtype, value) = read_env_var(&hive, "MY_VAR").expect("read");
    let stale_revision = revision_of("MY_VAR", vtype, &value);
    hive.seed("MY_VAR", "changed-by-other", REG_SZ);
    let result = delete_env_var_in_store(&mut hive, EnvHive::User, "MY_VAR", &stale_revision);
    assert_eq!(result.unwrap_err().code, ErrorCode::Conflict);
    assert!(hive.contains("MY_VAR"));
}

#[test]
fn list_fails_when_enum_fails() {
    let mut hive = MemoryHive::new(true);
    hive.seed("MY_VAR", "v", REG_SZ);
    hive.set_fail_enum(true);
    assert!(list_env_vars_in_store(EnvHive::User, &hive).is_err());
}

#[test]
fn list_fails_when_single_read_fails() {
    let mut hive = MemoryHive::new(true);
    hive.seed("MY_VAR", "v", REG_SZ);
    hive.seed("BAD_VAR", "v", REG_SZ);
    hive.set_fail_get(Some("BAD_VAR".into()));
    let err = list_env_vars_in_store(EnvHive::User, &hive).unwrap_err();
    assert_eq!(err.code, ErrorCode::Io);
    assert_eq!(err.hive, Some(EnvHive::User));
    assert_eq!(err.name.as_deref(), Some("BAD_VAR"));
}

#[test]
fn update_env_var_force_overwrites_after_external_change() {
    let mut hive = MemoryHive::new(true);
    hive.seed("MY_VAR", "original", REG_SZ);
    hive.seed("MY_VAR", "changed-by-other", REG_SZ);
    update_env_var_force_in_store(&mut hive, EnvHive::User, "MY_VAR", "mine").expect("force");
    let raw = hive.get_raw("MY_VAR").expect("read");
    assert_eq!(raw.value, "mine");
}

#[test]
fn update_env_var_force_preserves_registry_type() {
    let mut hive = MemoryHive::new(true);
    hive.seed("GOPATH", "C:\\Old", REG_EXPAND_SZ);
    update_env_var_force_in_store(&mut hive, EnvHive::User, "GOPATH", "C:\\New").expect("force");
    assert_eq!(hive.get_raw("GOPATH").unwrap().vtype, REG_EXPAND_SZ);
}

#[test]
fn update_env_var_force_still_rejects_protected_and_reserved() {
    let mut hive = MemoryHive::new(true);
    hive.seed("windir", "C:\\Windows", REG_EXPAND_SZ);
    assert!(update_env_var_force_in_store(&mut hive, EnvHive::User, "windir", "x").is_err());
    assert!(update_env_var_force_in_store(&mut hive, EnvHive::User, "Path", "x").is_err());
    assert_eq!(hive.get_raw("windir").unwrap().value, "C:\\Windows");
}

#[test]
fn delete_env_var_force_removes_after_external_change() {
    let mut hive = MemoryHive::new(true);
    hive.seed("MY_VAR", "original", REG_SZ);
    hive.seed("MY_VAR", "changed-by-other", REG_SZ);
    delete_env_var_force_in_store(&mut hive, EnvHive::User, "MY_VAR").expect("force delete");
    assert!(!hive.contains("MY_VAR"));
}

#[test]
fn writes_leave_other_variables_alone() {
    let mut hive = MemoryHive::new(true);
    hive.seed("A", "1", REG_SZ);
    hive.seed("B", "2", REG_EXPAND_SZ);
    update_env_var_force_in_store(&mut hive, EnvHive::User, "A", "one").unwrap();
    delete_env_var_force_in_store(&mut hive, EnvHive::User, "A").unwrap();
    let b = hive.get_raw("B").unwrap();
    assert_eq!((b.vtype, b.value.as_str()), (REG_EXPAND_SZ, "2"));
}

#[test]
fn memory_hive_roundtrip_is_case_insensitive() {
    let mut hive = MemoryHive::new(true);
    hive.seed("JAVA_HOME", "C:\\Java", REG_SZ);

    assert!(hive.contains("java_home"));
    let raw = hive.get_raw("java_Home").expect("读取失败");
    assert_eq!(raw.value, "C:\\Java");
    assert_eq!(hive.enum_names().unwrap(), vec!["JAVA_HOME".to_string()]);
}

#[test]
fn memory_hive_overwrites_in_place_preserving_original_name() {
    let mut hive = MemoryHive::new(true);
    hive.seed("MY_VAR", "old", REG_SZ);
    hive.seed("my_var", "new", REG_SZ);

    assert_eq!(hive.enum_names().unwrap(), vec!["MY_VAR".to_string()]);
    let raw = hive.get_raw("MY_VAR").unwrap();
    assert_eq!(raw.value, "new");
}

#[test]
fn memory_hive_delete_reports_missing() {
    let mut hive = MemoryHive::new(true);
    assert!(hive.delete_value("NOPE").is_err());
    hive.seed("MY_VAR", "v", REG_SZ);
    assert!(hive.delete_value("my_var").is_ok());
    assert!(!hive.contains("MY_VAR"));
}

#[test]
fn memory_hive_injects_failures() {
    let mut hive = MemoryHive::new(true);
    hive.seed("MY_VAR", "v", REG_SZ);

    hive.set_fail_enum(true);
    assert!(hive.enum_names().is_err());
    hive.set_fail_enum(false);

    hive.set_fail_get(Some("my_var".into()));
    assert!(hive.get_raw("MY_VAR").is_err());
    assert!(hive.get_raw("MY_VAR").unwrap_err().contains("注入的读取失败"));
}

#[test]
fn failure_texts_name_the_hive_and_the_variable() {
    let mut hive = MemoryHive::new(true);
    hive.seed("MY_VAR", "v", REG_SZ);
    hive.set_fail_enum(true);
    let err = list_env_vars_in_store(EnvHive::User, &hive).unwrap_err();
    assert_eq!(err.message, "读取用户环境变量列表失败: 无法枚举环境变量: 注入的枚举失败");
    assert!(!err.retryable);
    hive.set_fail_enum(false);

    let err = reveal_env_var_in_store(&hive, EnvHive::System, "MISSING").unwrap_err();
    assert_eq!(err.message, "读取系统环境变量 MISSING 失败: 无法读取环境变量 MISSING: 找不到");
    assert_eq!(err.operation, "read_env_var");

    hive.set_fail_get(Some("my_var".into()));
    let err = update_env_var_force_in_store(&mut hive, EnvHive::User, "MY_VAR", "x").unwrap_err();
    assert_eq!(err.message, "读取用户环境变量 MY_VAR 失败: 无法读取环境变量 MY_VAR: 注入的读取失败");

    hive.set_fail_get(None);
    let err = create_env_var_in_store(&mut hive, EnvHive::User, "my_var", "x", EnvValueKind::String)
        .unwrap_err();
    assert_eq!(err.message, "变量 my_var 已存在，请使用编辑功能");
    assert_eq!(err.code, ErrorCode::NameExists);
}
