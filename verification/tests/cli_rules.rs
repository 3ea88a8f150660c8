use path_editor_core::cli::{
    add_entry, channel_count, concurrency_count, disabled_paths, edit_entry, enabled_paths,
    ensure_single_target, format_get_output, hive_label, index_error, kind_label, move_entry,
    other_hive_hint, parse_kind, remove_entry, render_name, render_path_listing, render_preview, render_table,
    resolve_concurrency, resolve_value, select_hive, sidecar_failure_message, strip_trailing_newline,
    toggle_entry, verify_unchanged, Concurrency, ValueSource,
};
use path_editor_core::env_var::{EnvHive, EnvValueKind, EnvVarMeta, EnvVarSnapshot};
use path_editor_core::path_entry::PathEntry;

#[test]
fn value_source_argv_alone_is_accepted() {
    let src = resolve_value(Some("C:\\Java".into()), false, None, true).unwrap();
    assert!(matches!(src, ValueSource::Argv(v) if v == "C:\\Java"));
}

#[test]
fn value_source_stdin_alone_is_accepted() {
    let src = resolve_value(None, true, None, true).unwrap();
    assert!(matches!(src, ValueSource::Stdin));
}

#[test]
fn value_source_file_alone_is_accepted() {
    let src = resolve_value(None, false, Some("secret.txt".into()), true).unwrap();
    assert!(matches!(src, ValueSource::File(f) if f == "secret.txt"));
}

#[test]
fn value_source_rejects_multiple_channels() {
    assert_eq!(channel_count(Some("v"), true, None), 2);
    assert_eq!(channel_count(Some("v"), false, Some("f")), 2);
    assert_eq!(channel_count(None, true, Some("f")), 2);
    assert_eq!(channel_count(Some("v"), true, Some("f")), 3);
    assert_eq!(channel_count(Some("v"), false, None), 1);
    assert_eq!(channel_count(None, false, None), 0);
    assert!(resolve_value(Some("v".into()), true, None, true).is_err());
}

#[test]
fn value_source_missing_when_required() {
    assert_eq!(channel_count(None, false, None), 0);
    assert!(resolve_value(None, false, None, true).is_err());
    let src = resolve_value(None, false, None, false).unwrap();
    assert!(matches!(src, ValueSource::Argv(v) if v.is_empty()));
}

#[test]
fn strips_single_lf() {
    assert_eq!(strip_trailing_newline("C:\\Java\n"), "C:\\Java");
}

#[test]
fn strips_single_crlf() {
    assert_eq!(strip_trailing_newline("C:\\Java\r\n"), "C:\\Java");
}

#[test]
fn strips_only_one_trailing_sequence() {
    assert_eq!(strip_trailing_newline("a\n\n"), "a\n");
    assert_eq!(strip_trailing_newline("a\r\n\r\n"), "a\r\n");
}

#[test]
fn leaves_value_without_newline_untouched() {
    assert_eq!(strip_trailing_newline("C:\\Java"), "C:\\Java");
    assert_eq!(strip_trailing_newline(""), "");
}

#[test]
fn strips_lone_cr() {
    assert_eq!(strip_trailing_newline("a\r"), "a");
}

#[test]
fn concurrency_accepts_revision_alone() {
    let mode = resolve_concurrency(Some("a1b2c3".into()), false).unwrap();
    assert!(matches!(mode, Concurrency::Revision(r) if r == "a1b2c3"));
}

#[test]
fn concurrency_accepts_force_alone() {
    let mode = resolve_concurrency(None, true).unwrap();
    assert!(matches!(mode, Concurrency::Force));
}

#[test]
fn concurrency_channel_count_rule() {
    assert_eq!(concurrency_count(Some("r"), false), 1);
    assert_eq!(concurrency_count(None, true), 1);
    assert_eq!(concurrency_count(Some("r"), true), 2);
    assert_eq!(concurrency_count(None, false), 0);
    assert_eq!(
        resolve_concurrency(None, false).unwrap_err(),
        "需要提供 --revision（并发校验）或 --force（跳过校验）"
    );
    assert_eq!(
        resolve_concurrency(Some("r".into()), true).unwrap_err(),
        "--revision 与 --force 互斥，只能指定一个"
    );
}

#[test]
fn force_mode_never_carries_a_revision() {
    let mode = resolve_concurrency(None, true).unwrap();
    assert!(matches!(mode, Concurrency::Force));
}

#[test]
fn get_output_is_bare_value() {
    assert_eq!(format_get_output("C:\\Java"), "C:\\Java\n");
    assert_eq!(format_get_output(""), "\n");
    assert_eq!(format_get_output("a b"), "a b\n");
}

#[test]
fn get_output_preserves_inner_newlines() {
    assert_eq!(format_get_output("a\nb"), "a\nb\n");
}

#[test]
fn parse_kind_maps_both_writable_kinds() {
    assert_eq!(parse_kind("string"), EnvValueKind::String);
    assert_eq!(parse_kind("expand"), EnvValueKind::ExpandString);
    assert_eq!(parse_kind("EXPAND"), EnvValueKind::ExpandString);
}

fn meta(name: &str, kind: EnvValueKind, preview: Option<&str>, can_edit: bool, sensitive: bool) -> EnvVarMeta {
    EnvVarMeta {
        name: name.into(),
        kind,
        hive: EnvHive::User,
        can_edit,
        can_delete: can_edit,
        sensitive,
        preview: preview.map(|p| p.to_string()),
        revision: "0000000000000000".into(),
    }
}

#[test]
fn kind_label_maps_all_variants() {
    assert_eq!(kind_label(EnvValueKind::String), "string");
    assert_eq!(kind_label(EnvValueKind::ExpandString), "expand");
    assert_eq!(kind_label(EnvValueKind::Unsupported), "unsupported");
}

#[test]
fn sensitive_variable_hides_preview() {
    let m = meta("MY_TOKEN", EnvValueKind::String, None, true, true);
    assert_eq!(render_preview(&m), "(敏感)");
}

#[test]
fn non_sensitive_variable_shows_preview() {
    let m = meta("JAVA_HOME", EnvValueKind::String, Some("C:\\Java"), true, false);
    assert_eq!(render_preview(&m), "C:\\Java");
}

#[test]
fn empty_preview_renders_dash() {
    let m = meta("EMPTY_VAR", EnvValueKind::String, None, true, false);
    assert_eq!(render_preview(&m), "-");
}

#[test]
fn unwritable_variable_shows_readonly_marker() {
    let m = meta("windir", EnvValueKind::String, Some("C:\\Windows"), false, false);
    assert_eq!(render_name(&m), "windir (只读)");
}

#[test]
fn writable_variable_has_no_marker() {
    let m = meta("JAVA_HOME", EnvValueKind::String, Some("C:\\Java"), true, false);
    assert_eq!(render_name(&m), "JAVA_HOME");
}

#[test]
fn table_contains_header_and_rows() {
    let metas = vec![
        meta("JAVA_HOME", EnvValueKind::String, Some("C:\\Java"), true, false),
        meta("MY_TOKEN", EnvValueKind::String, None, true, true),
    ];
    let table = render_table(&metas);
    assert!(table.contains("NAME"));
    assert!(table.contains("KIND"));
    assert!(table.contains("PREVIEW"));
    assert!(table.contains("JAVA_HOME"));
    assert!(table.contains("string"));
    assert!(table.contains("C:\\Java"));
    assert!(table.contains("(敏感)"));
}

#[test]
fn table_pads_columns_to_the_widest_cell() {
    let metas = vec![
        meta("A", EnvValueKind::ExpandString, Some("x"), true, false),
        meta("LONGER_NAME", EnvValueKind::Unsupported, None, true, false),
    ];
    let table = render_table(&metas);
    let expected = "NAME         KIND         PREVIEW\n\
A            expand       x\n\
LONGER_NAME  unsupported  -";
    assert_eq!(table, expected);
}

#[test]
fn empty_table_reports_none() {
    assert_eq!(render_table(&vec![]), "（无变量）");
}

#[test]
fn hive_defaults_to_user() {
    assert_eq!(select_hive(false, false), EnvHive::User);
}

#[test]
fn hive_system_flag_wins() {
    assert_eq!(select_hive(true, false), EnvHive::System);
}

#[test]
fn hive_user_flag_selects_user() {
    assert_eq!(select_hive(false, true), EnvHive::User);
}

#[test]
fn hive_label_is_chinese() {
    assert_eq!(hive_label(EnvHive::System), "系统");
    assert_eq!(hive_label(EnvHive::User), "用户");
}

#[test]
fn parse_kind_is_case_insensitive() {
    assert_eq!(parse_kind("STRING"), EnvValueKind::String);
    assert_eq!(parse_kind("Expand"), EnvValueKind::ExpandString);
}

#[test]
fn other_hive_hint_names_the_other_hive() {
    let snapshot = EnvVarSnapshot {
        system: vec![meta("JAVA_HOME", EnvValueKind::String, None, true, false)],
        user: vec![],
        captured_at: 0,
    };
    assert_eq!(
        other_hive_hint("java_home", EnvHive::User, &snapshot).as_deref(),
        Some("提示：java_home 存在于系统 hive，请加 --system")
    );
    assert_eq!(other_hive_hint("JAVA_HOME", EnvHive::System, &snapshot), None);
}

#[test]
fn single_target_rule() {
    assert_eq!(ensure_single_target(false, false).unwrap(), "user");
    assert_eq!(ensure_single_target(true, false).unwrap(), "system");
    assert_eq!(
        ensure_single_target(true, true).unwrap_err(),
        "不能同时指定 --system 和 --user"
    );
}

#[test]
fn sidecar_failure_message_pending_ok_mentions_registry_written_and_pending() {
    let msg = sidecar_failure_message("磁盘已满", true);
    assert!(msg.contains("注册表已写入"), "{msg}");
    assert!(msg.contains("待补写"), "{msg}");
    assert!(msg.contains("磁盘已满"), "{msg}");
}

#[test]
fn sidecar_failure_message_pending_failed_mentions_registry_written_and_manual_check() {
    let msg = sidecar_failure_message("磁盘已满", false);
    assert!(msg.contains("注册表已写入"), "{msg}");
    assert!(msg.contains("手工核对"), "{msg}");
    assert!(msg.contains("磁盘已满"), "{msg}");
}

fn entry(path: &str, enabled: bool) -> PathEntry {
    PathEntry {
        path: path.into(),
        enabled,
    }
}

#[test]
fn enabled_and_disabled_paths_split_the_list() {
    let list = vec![entry("a", true), entry("b", false), entry("c", true)];
    assert_eq!(enabled_paths(&list), vec!["a".to_string(), "c".to_string()]);
    assert_eq!(disabled_paths(&list), vec!["b".to_string()]);
}

#[test]
fn move_entry_stops_at_the_ends() {
    let list = vec![entry("a", true), entry("b", true), entry("c", false), entry("d", true)];
    let up = move_entry(list.clone(), 2, 5, true).unwrap();
    assert_eq!(up, vec![entry("c", false), entry("a", true), entry("b", true), entry("d", true)]);
    let down = move_entry(list.clone(), 1, 1, false).unwrap();
    assert_eq!(down, vec![entry("a", true), entry("c", false), entry("b", true), entry("d", true)]);
    let bottom = move_entry(list.clone(), 0, 99, false).unwrap();
    assert_eq!(bottom, vec![entry("b", true), entry("c", false), entry("d", true), entry("a", true)]);
    assert_eq!(move_entry(list, 4, 1, true).unwrap_err(), "索引 4 超出范围 (共 4 条)");
}

#[test]
fn edit_toggle_remove_and_add() {
    let list = vec![entry("a", true), entry("b", false)];
    let (edited, old) = edit_entry(list.clone(), 1, "B").unwrap();
    assert_eq!(old, "b");
    assert_eq!(edited, vec![entry("a", true), entry("B", false)]);
    let toggled = toggle_entry(list.clone(), 0, false).unwrap();
    assert_eq!(toggled, vec![entry("a", false), entry("b", false)]);
    let (rest, removed) = remove_entry(list.clone(), 0).unwrap();
    assert_eq!(rest, vec![entry("b", false)]);
    assert_eq!(removed, entry("a", true));
    assert_eq!(add_entry(list.clone(), "c"), vec![entry("a", true), entry("b", false), entry("c", true)]);
    assert!(toggle_entry(list, 2, true).is_err());
    assert_eq!(index_error(7, 2), "索引 7 超出范围 (共 2 条)");
}

#[test]
fn optimistic_write_requires_unchanged_registry() {
    let a = vec!["x".to_string(), "y".to_string()];
    assert!(verify_unchanged(&a.clone(), &a).is_ok());
    assert_eq!(
        verify_unchanged(&vec!["x".to_string()], &a).unwrap_err(),
        "注册表已被其他进程修改，请重新执行操作"
    );
    assert!(verify_unchanged(&vec!["x".to_string(), "z".to_string()], &a).is_err());
}

#[test]
fn path_listing_text_counts_and_marks_entries() {
    let entries = vec![entry("C:\\a", true), entry("D:\\b", false)];
    assert_eq!(
        render_path_listing("系统", &entries),
        "═══ 系统 PATH (2 条，其中禁用 1 条) ═══\n  [0] [✓] C:\\a\n  [1] [✗] D:\\b\n"
    );
    assert_eq!(render_path_listing("用户", &vec![]), "");
}
