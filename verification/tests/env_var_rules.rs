use path_editor_core::env_var::{
    capabilities_for_with, is_protected, is_reserved, is_sensitive, revision_of, sanitize_preview,
    EnvValueKind, REG_BINARY, REG_DWORD, REG_EXPAND_SZ, REG_SZ,
};

#[test]
fn reserved_matches_path_case_insensitively() {
    assert!(is_reserved("Path"));
    assert!(is_reserved("path"));
    assert!(is_reserved("PATH"));
    assert!(!is_reserved("PATHEXT"));
    assert!(!is_reserved("PSModulePath"));
}

#[test]
fn protected_matches_builtin_names_case_insensitively() {
    assert!(is_protected("windir"));
    assert!(is_protected("Windir"));
    assert!(is_protected("ComSpec"));
    assert!(is_protected("PATHEXT"));
    assert!(!is_protected("PSModulePath"));
    assert!(!is_protected("JAVA_HOME"));
}

#[test]
fn sensitive_matches_secret_like_names() {
    assert!(is_sensitive("HALO_MCP_TOKEN"));
    assert!(is_sensitive("MINIMAX_API_KEY"));
    assert!(is_sensitive("MY_SECRET"));
    assert!(is_sensitive("DB_PASSWORD"));
    assert!(is_sensitive("AZURE_CREDENTIAL"));
    assert!(is_sensitive("OPENAI_API"));
    assert!(!is_sensitive("JAVA_HOME"));
    assert!(!is_sensitive("GOPATH"));
    assert!(!is_sensitive("TEMP"));
}

#[test]
fn revision_changes_with_any_component() {
    let base = revision_of("JAVA_HOME", REG_SZ, "C:\\Java");
    assert_eq!(base, revision_of("JAVA_HOME", REG_SZ, "C:\\Java"));
    assert_ne!(base, revision_of("JAVA_HOME", REG_SZ, "C:\\Other"));
    assert_ne!(base, revision_of("JAVA_HOME", REG_EXPAND_SZ, "C:\\Java"));
    assert_ne!(base, revision_of("GOPATH", REG_SZ, "C:\\Java"));
}

#[test]
fn revision_does_not_leak_value_and_detects_same_length_change() {
    let a = revision_of("MY_TOKEN", REG_SZ, "secret-A");
    let b = revision_of("MY_TOKEN", REG_SZ, "secret-B");
    assert_ne!(a, b);
    assert!(!a.contains("secret"));
    assert_eq!(a, revision_of("MY_TOKEN", REG_SZ, "secret-A"));
}

#[test]
fn revision_is_immune_to_separator_injection() {
    assert_ne!(
        revision_of("A", REG_SZ, "B\u{1}C"),
        revision_of("A\u{1}B", REG_SZ, "C")
    );
    assert_ne!(
        revision_of("A", REG_SZ, "B\u{1}C"),
        revision_of("a\u{1}b", REG_SZ, "C")
    );
    assert_ne!(
        revision_of("A|B", REG_SZ, "C"),
        revision_of("A", REG_SZ, "B|C")
    );
    assert_ne!(
        revision_of("A|B", REG_SZ, "C"),
        revision_of("a|b", REG_SZ, "c")
    );
    assert_ne!(
        revision_of("A", REG_SZ, "B|C\u{1}D"),
        revision_of("A\u{1}B|C", REG_SZ, "D")
    );
    assert_ne!(
        revision_of("A", REG_SZ, "B\u{1}C"),
        revision_of("A", REG_SZ, "BC")
    );
}

#[test]
fn revision_is_sixteen_lowercase_hex_digits() {
    let r = revision_of("Name", REG_EXPAND_SZ, "value");
    assert_eq!(r.chars().count(), 16);
    assert!(r.chars().all(|c| c.is_ascii_digit() || ('a'..='f').contains(&c)));
    // the name is compared without ASCII case
    assert_eq!(r, revision_of("NAME", REG_EXPAND_SZ, "value"));
}

#[test]
fn sanitize_preview_truncates_and_strips_control_chars() {
    assert_eq!(sanitize_preview("C:\\Java"), Some("C:\\Java".to_string()));
    assert_eq!(
        sanitize_preview("line1\nline2"),
        Some("line1line2".to_string())
    );
    assert_eq!(sanitize_preview("a\rb\0c"), Some("abc".to_string()));
    assert_eq!(sanitize_preview(""), None);
    assert_eq!(sanitize_preview("\n\r\0"), None);
    let long = "x".repeat(300);
    let sanitized = sanitize_preview(&long).expect("a long value keeps a preview");
    assert_eq!(sanitized.chars().count(), 257);
    assert!(sanitized.ends_with('…'));
}

#[test]
fn sanitize_preview_keeps_exactly_256_characters() {
    let exact = "y".repeat(256);
    assert_eq!(sanitize_preview(&exact), Some(exact.clone()));
}

#[test]
fn capabilities_deny_unsupported_kind() {
    for writable in [true, false] {
        let (can_edit, can_delete) =
            capabilities_for_with(writable, "SOME_BINARY_VAR", EnvValueKind::Unsupported);
        assert!(!can_edit);
        assert!(!can_delete);
    }
}

#[test]
fn capabilities_deny_protected_even_when_writable() {
    for writable in [true, false] {
        let (can_edit, can_delete) = capabilities_for_with(writable, "windir", EnvValueKind::String);
        assert!(!can_edit);
        assert!(!can_delete);
    }
}

#[test]
fn capabilities_follow_hive_permission_otherwise() {
    assert_eq!(
        capabilities_for_with(true, "JAVA_HOME", EnvValueKind::ExpandString),
        (true, true)
    );
    assert_eq!(
        capabilities_for_with(false, "JAVA_HOME", EnvValueKind::String),
        (false, false)
    );
    assert_eq!(
        capabilities_for_with(true, "Path", EnvValueKind::ExpandString),
        (false, false)
    );
}

#[test]
fn kind_maps_from_reg_type() {
    assert_eq!(EnvValueKind::from_reg_type(REG_SZ), EnvValueKind::String);
    assert_eq!(
        EnvValueKind::from_reg_type(REG_EXPAND_SZ),
        EnvValueKind::ExpandString
    );
    assert_eq!(
        EnvValueKind::from_reg_type(REG_DWORD),
        EnvValueKind::Unsupported
    );
    assert_eq!(
        EnvValueKind::from_reg_type(REG_BINARY),
        EnvValueKind::Unsupported
    );
    assert!(EnvValueKind::String.is_writable());
    assert!(!EnvValueKind::Unsupported.is_writable());
}

#[test]
fn preview_removes_every_control_character() {
    assert_eq!(sanitize_preview("a\tb\u{1b}[0mc"), Some("ab[0mc".to_string()));
    assert_eq!(sanitize_preview("x\u{7f}y\u{85}z\u{9f}"), Some("xyz".to_string()));
    assert_eq!(sanitize_preview("\t\u{1}"), None);
    assert_eq!(sanitize_preview("é\u{a0}ü"), Some("é\u{a0}ü".to_string()));
}
