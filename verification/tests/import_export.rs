use path_editor_core::fs::{
    check_text_file_extension, export_csv, export_txt, import_csv, import_paths, import_txt,
    parse_csv_line, parse_export_format, path_extension, sanitize_entries, ExportFormat,
};
use path_editor_core::path_entry::PathEntry;

fn entry(path: &str) -> PathEntry {
    PathEntry {
        path: path.into(),
        enabled: true,
    }
}

fn entry_disabled(path: &str) -> PathEntry {
    PathEntry {
        path: path.into(),
        enabled: false,
    }
}

fn no_json() -> Result<(Vec<PathEntry>, Vec<PathEntry>), String> {
    Err("not decoded".to_string())
}

#[test]
fn import_csv_valid() {
    let csv = "type,path\nsystem,C:\\sys1\nuser,D:\\usr1\n";
    let (sys, usr) = import_csv(csv).unwrap();
    assert_eq!(sys.len(), 1);
    assert_eq!(sys[0].path, "C:\\sys1");
    assert!(sys[0].enabled);
    assert_eq!(usr.len(), 1);
    assert_eq!(usr[0].path, "D:\\usr1");
    assert!(usr[0].enabled);
}

#[test]
fn import_csv_with_bom() {
    let csv = "\u{FEFF}type,path\nsystem,C:\\sys1\n";
    let (sys, _) = import_csv(csv).unwrap();
    assert_eq!(sys[0].path, "C:\\sys1");
}

#[test]
fn import_csv_empty() {
    assert!(import_csv("type,path\n").is_err());
    assert_eq!(import_csv("").unwrap_err(), "CSV 文件中未找到有效路径");
}

#[test]
fn import_csv_alternate_type_names() {
    let csv = "type,path\nsys,D:\\a\nusr,D:\\b\n";
    let (sys, usr) = import_csv(csv).unwrap();
    assert_eq!(sys[0].path, "D:\\a");
    assert_eq!(usr[0].path, "D:\\b");
}

#[test]
fn import_csv_reads_enabled_column() {
    let csv = "type,path,enabled\nsystem,C:\\ok,true\nsystem,C:\\disabled,false\n";
    let (sys, _) = import_csv(csv).unwrap();
    assert_eq!(sys.len(), 2);
    assert_eq!(sys[0].path, "C:\\ok");
    assert!(sys[0].enabled);
    assert_eq!(sys[1].path, "C:\\disabled");
    assert!(!sys[1].enabled);
}

#[test]
fn import_csv_enabled_defaults_true() {
    let csv = "type,path\nsystem,C:\\x\n";
    let (sys, _) = import_csv(csv).unwrap();
    assert!(sys[0].enabled);
}

#[test]
fn import_csv_without_header_keeps_first_row() {
    let csv = "SYSTEM, C:\\first ,FALSE\r\n\r\nbogus,C:\\skip\nuser\n";
    let (sys, usr) = import_csv(csv).unwrap();
    assert_eq!(sys, vec![entry_disabled("C:\\first")]);
    assert!(usr.is_empty());
}

#[test]
fn import_paths_detects_format() {
    let (sys, _) = import_paths("test.csv", "type,path\nsystem,C:\\x\n", no_json()).unwrap();
    assert_eq!(sys[0].path, "C:\\x");
}

#[test]
fn import_paths_txt_to_user() {
    let (sys, usr) = import_paths("test.txt", "C:\\x\nD:\\y\n", no_json()).unwrap();
    assert!(sys.is_empty());
    assert_eq!(usr.len(), 2);
    assert_eq!(usr[0].path, "C:\\x");
    assert_eq!(usr[1].path, "D:\\y");
}

#[test]
fn import_paths_json_uses_decoded_entries() {
    let decoded = Ok((vec![entry(" C:\\sys1 "), entry("C:\\bad;x")], vec![entry_disabled("D:\\u")]));
    let (sys, usr) = import_paths("dir.d/Export.JSON", "{}", decoded).unwrap();
    assert_eq!(sys, vec![entry("C:\\sys1")]);
    assert_eq!(usr, vec![entry_disabled("D:\\u")]);
    let err = import_paths("a.json", "{", Err("EOF".to_string())).unwrap_err();
    assert_eq!(err, "JSON 解析失败: EOF");
}

#[test]
fn import_paths_rejects_unknown_format() {
    assert_eq!(
        import_paths("notes.md", "x", no_json()).unwrap_err(),
        "不支持的格式: .md"
    );
    assert_eq!(
        import_paths("noext", "x", no_json()).unwrap_err(),
        "不支持的格式: ."
    );
}

#[test]
fn path_extension_follows_the_final_component() {
    assert_eq!(path_extension("C:\\dir.x\\file.TXT"), "txt");
    assert_eq!(path_extension("/etc/passwd"), "");
    assert_eq!(path_extension(".bashrc"), "");
    assert_eq!(path_extension("a/b.csv/"), "csv");
    assert_eq!(path_extension("archive.tar.gz"), "gz");
}

#[test]
fn read_text_file_rejects_non_whitelisted_ext() {
    let result = check_text_file_extension("C:\\Windows\\System32\\evil.dll");
    assert!(result.is_err());
    assert!(result.unwrap_err().contains("不支持的文件类型"));
}

#[test]
fn read_text_file_rejects_no_ext() {
    assert!(check_text_file_extension("/etc/passwd").is_err());
    assert!(check_text_file_extension("paths.Json").is_ok());
}

#[test]
fn sanitize_entries_filters_null_byte_paths() {
    let entries = vec![entry("C:\\safe"), entry("C:\\bad\0path")];
    let result = sanitize_entries(entries);
    assert_eq!(result.len(), 1);
    assert_eq!(result[0].path, "C:\\safe");
}

#[test]
fn import_csv_filters_semicolon_paths() {
    let csv = "type,path\nsystem,C:\\good\nsystem,C:\\bad;path\n";
    let (sys, _) = import_csv(csv).unwrap();
    assert_eq!(sys.len(), 1);
    assert_eq!(sys[0].path, "C:\\good");
}

#[test]
fn import_txt_trims_and_filters() {
    let txt = "  C:\\trimmed  \n\nC:\\bad\0path\n# comment\n";
    let (_, usr) = import_txt(txt).unwrap();
    assert_eq!(usr.len(), 1);
    assert_eq!(usr[0].path, "C:\\trimmed");
}

#[test]
fn import_txt_without_paths_is_an_error() {
    assert_eq!(import_txt("# only\n\n").unwrap_err(), "TXT 文件中未找到路径");
}

#[test]
fn sanitize_entries_removes_empty_after_trim() {
    let result = sanitize_entries(vec![entry("  "), entry("C:\\ok")]);
    assert_eq!(result.len(), 1);
    assert_eq!(result[0].path, "C:\\ok");
}

#[test]
fn sanitize_entries_preserves_enabled_flag() {
    let result = sanitize_entries(vec![entry_disabled("C:\\keep")]);
    assert_eq!(result.len(), 1);
    assert_eq!(result[0].path, "C:\\keep");
    assert!(!result[0].enabled);
}

#[test]
fn parse_csv_line_basic() {
    assert_eq!(parse_csv_line("a,b,c"), vec!["a", "b", "c"]);
}

#[test]
fn parse_csv_line_quoted_comma() {
    assert_eq!(
        parse_csv_line(r#"system,"C:\Program Files, Inc\bin""#),
        vec!["system", r#"C:\Program Files, Inc\bin"#]
    );
}

#[test]
fn parse_csv_line_escaped_quotes() {
    assert_eq!(
        parse_csv_line(r#"system,"He said ""hello""""#),
        vec!["system", r#"He said "hello""#]
    );
}

#[test]
fn parse_csv_line_edges() {
    assert_eq!(parse_csv_line(""), vec![""]);
    assert_eq!(parse_csv_line(",,"), vec!["", "", ""]);
    assert_eq!(parse_csv_line("\"unterminated,x"), vec!["unterminated,x"]);
}

#[test]
fn import_csv_quoted_comma_path() {
    let csv = "type,path\nsystem,\"C:\\Program Files, Inc\\bin\"\n";
    let (sys, _) = import_csv(csv).unwrap();
    assert_eq!(sys[0].path, "C:\\Program Files, Inc\\bin");
}

#[test]
fn csv_roundtrip_preserves_enabled() {
    let csv = "type,path,enabled\nsystem,C:\\on,true\nsystem,C:\\off,false\n";
    let (sys, _) = import_csv(csv).unwrap();
    assert_eq!(sys.len(), 2);
    assert!(sys[0].enabled);
    assert!(!sys[1].enabled);
}

#[test]
fn export_csv_includes_enabled_column() {
    let sys = vec!["C:\\a".to_string()];
    let usr = vec!["D:\\b".to_string()];
    let exported = export_csv(&sys, &usr);
    assert!(exported.starts_with("type,path,enabled"));
    assert!(exported.contains("system,C:\\a,true"));
    assert!(exported.contains("user,D:\\b,true"));
    assert_eq!(exported, "type,path,enabled\nsystem,C:\\a,true\nuser,D:\\b,true\n");
}

#[test]
fn export_csv_reimports() {
    let sys = vec!["C:\\a".to_string(), "C:\\b".to_string()];
    let usr = vec!["D:\\c".to_string()];
    let exported = export_csv(&sys, &usr);
    let (s, u) = import_csv(&exported).unwrap();
    assert_eq!(s, vec![entry("C:\\a"), entry("C:\\b")]);
    assert_eq!(u, vec![entry("D:\\c")]);
}

#[test]
fn export_txt_roundtrip() {
    let sys = vec!["C:\\a".to_string()];
    let usr = vec!["D:\\b".to_string()];
    let exported = export_txt(&sys, &usr);
    assert!(exported.contains("C:\\a") && exported.contains("D:\\b"));
    assert_eq!(exported, "# 系统 PATH (1)\nC:\\a\n# 用户 PATH (1)\nD:\\b\n");
    let (_, u) = import_txt(&exported).unwrap();
    assert_eq!(u, vec![entry("C:\\a"), entry("D:\\b")]);
}

#[test]
fn export_txt_skips_empty_sections() {
    assert_eq!(export_txt(&vec![], &vec![]), "");
}

#[test]
fn export_invalid_format_errors() {
    assert!(parse_export_format("xml").is_err());
    assert_eq!(parse_export_format("xml").unwrap_err(), "不支持的导出格式: xml");
    assert_eq!(parse_export_format("json").unwrap(), ExportFormat::Json);
    assert_eq!(parse_export_format("csv").unwrap(), ExportFormat::Csv);
    assert_eq!(parse_export_format("txt").unwrap(), ExportFormat::Txt);
    assert!(parse_export_format("CSV").is_err());
}
