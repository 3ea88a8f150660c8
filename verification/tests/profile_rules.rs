use path_editor_core::error::ErrorCode;
use path_editor_core::path_entry::PathEntry;
use path_editor_core::profiles::{
    check_load_profile, check_rename_profile, list_profiles, prepare_saved_profile,
    profile_file_name, rename_profile_data, validate_profile_name, ProfileCandidate, ProfileMeta,
};

fn meta(name: &str) -> ProfileMeta {
    ProfileMeta {
        name: name.to_string(),
        created: "2026-01-01T00:00:00".to_string(),
        modified: "2026-01-02T00:00:00".to_string(),
    }
}

#[test]
fn validate_name_rejects_empty() {
    assert!(validate_profile_name("").is_err());
}

#[test]
fn validate_name_rejects_path_traversal() {
    assert!(validate_profile_name("../../evil").is_err());
    assert!(validate_profile_name("foo\\bar").is_err());
}

#[test]
fn validate_name_rejects_reserved_chars() {
    assert!(validate_profile_name("foo:bar").is_err());
    assert!(validate_profile_name("foo<bar").is_err());
}

#[test]
fn validate_name_rejects_null_bytes() {
    assert!(validate_profile_name("foo\0bar").is_err());
}

#[test]
fn validate_name_rejects_control_chars() {
    assert!(validate_profile_name("foo\tbar").is_err());
    assert!(validate_profile_name("foo\nbar").is_err());
}

#[test]
fn validate_name_rejects_too_long() {
    let long_name = "a".repeat(256);
    assert!(validate_profile_name(&long_name).is_err());
}

#[test]
fn validate_name_accepts_255_chars() {
    let name = "a".repeat(255);
    assert!(validate_profile_name(&name).is_ok());
}

#[test]
fn validate_name_counts_bytes_and_reports_messages() {
    // 86 three-byte characters are 258 bytes
    let wide = "配".repeat(86);
    let e = validate_profile_name(&wide).unwrap_err();
    assert_eq!(e.code, ErrorCode::InvalidName);
    assert_eq!(e.message, "配置名称过长（最大 255 字符）");
    assert_eq!(validate_profile_name("").unwrap_err().message, "配置名称不能为空");
    assert_eq!(
        validate_profile_name("a\u{85}b").unwrap_err().message,
        "配置名称包含非法字符"
    );
    assert!(validate_profile_name("工作 配置-1").is_ok());
}

#[test]
fn profile_file_is_name_dot_json() {
    assert_eq!(profile_file_name("work"), "work.json");
}

#[test]
fn load_requires_existing_file() {
    assert!(check_load_profile("work", true).is_ok());
    let e = check_load_profile("work", false).unwrap_err();
    assert_eq!(e.code, ErrorCode::NotFound);
    assert_eq!(e.message, "配置文件不存在: work");
    assert_eq!(check_load_profile("a/b", true).unwrap_err().code, ErrorCode::InvalidName);
}

#[test]
fn saving_keeps_the_original_creation_time() {
    let sys = vec![PathEntry {
        path: "C:\\sys".into(),
        enabled: true,
    }];
    let d = prepare_saved_profile("work", sys.clone(), vec![], Some("T0".into()), "T1").unwrap();
    assert_eq!(d.created, "T0");
    assert_eq!(d.modified, "T1");
    assert_eq!(d.sys, sys);
    let d = prepare_saved_profile("work", vec![], vec![], None, "T1").unwrap();
    assert_eq!(d.created, "T1");
    assert!(prepare_saved_profile("bad|name", vec![], vec![], None, "T1").is_err());
}

#[test]
fn rename_checks_names_and_targets() {
    assert!(check_rename_profile("a", "b", true, false).is_ok());
    assert!(check_rename_profile("a", "a", true, true).is_ok());
    let e = check_rename_profile("a", "b", false, false).unwrap_err();
    assert_eq!(e.code, ErrorCode::NotFound);
    let e = check_rename_profile("a", "b", true, true).unwrap_err();
    assert_eq!(e.code, ErrorCode::NameExists);
    assert_eq!(e.message, "目标配置名已存在: b");
    assert_eq!(
        check_rename_profile("a", "..", true, false).unwrap_err().code,
        ErrorCode::InvalidName
    );
}

#[test]
fn renamed_profile_keeps_its_content() {
    let d = prepare_saved_profile("old", vec![], vec![], Some("T0".into()), "T1").unwrap();
    let r = rename_profile_data(d, "new", "T2");
    assert_eq!(r.name, "new");
    assert_eq!(r.created, "T0");
    assert_eq!(r.modified, "T2");
}

#[test]
fn listing_sorts_by_name_and_skips_newer_versions() {
    let cands = vec![
        ProfileCandidate {
            schema_version: 1,
            meta: meta("zeta"),
        },
        ProfileCandidate {
            schema_version: 999,
            meta: meta("future"),
        },
        ProfileCandidate {
            schema_version: 0,
            meta: meta("alpha"),
        },
        ProfileCandidate {
            schema_version: 1,
            meta: meta("Beta"),
        },
    ];
    let names: Vec<String> = list_profiles(cands).into_iter().map(|m| m.name).collect();
    assert_eq!(names, vec!["Beta", "alpha", "zeta"]);
}
