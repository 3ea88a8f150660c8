use path_editor_core::scanner::{is_executable_name, scan_conflicts, scan_paths, scan_tools, DirListing};

fn listing(dir: &str, exists: bool, exes: &[&str]) -> DirListing {
    DirListing {
        dir: dir.to_string(),
        exists,
        exes: exes.iter().map(|s| s.to_string()).collect(),
    }
}

#[test]
fn scan_conflicts_no_duplicates() {
    let conflicts = scan_conflicts(vec![
        listing("C:\\a", true, &["a.exe"]),
        listing("C:\\b", true, &["b.exe"]),
    ])
    .unwrap();
    assert!(conflicts.is_empty());
}

#[test]
fn scan_conflicts_detects_duplicate() {
    let conflicts = scan_conflicts(vec![
        listing("C:\\dup1", true, &["shared.exe"]),
        listing("C:\\dup2", true, &["shared.exe"]),
    ])
    .unwrap();
    assert_eq!(conflicts.len(), 1);
    assert_eq!(conflicts[0].locations.len(), 2);
    assert_eq!(conflicts[0].locations[0].priority, 0);
    assert_eq!(conflicts[0].locations[1].priority, 1);
    assert_eq!(conflicts[0].locations[0].dir, "C:\\dup1");
}

#[test]
fn conflicts_ignore_case_and_are_sorted_by_name() {
    let result = scan_paths(
        vec![
            listing("C:\\one", true, &["Zip.EXE", "git.exe"]),
            listing("C:\\missing", false, &[]),
            listing("C:\\two", true, &["zip.exe", "GIT.cmd", "Git.exe"]),
        ],
        String::new(),
    )
    .unwrap();
    let names: Vec<&str> = result.conflicts.iter().map(|c| c.name.as_str()).collect();
    assert_eq!(names, vec!["git.exe", "zip.exe"]);
    let git = &result.conflicts[0];
    let places: Vec<(&str, usize)> = git.locations.iter().map(|l| (l.dir.as_str(), l.priority)).collect();
    assert_eq!(places, vec![("C:\\one", 0), ("C:\\two", 2)]);
    assert_eq!(result.tools.len(), 3);
    assert!(!result.tools[1].exists);
}

#[test]
fn scan_tools_returns_groups() {
    let groups = scan_tools(vec![listing("C:\\t_a", true, &["tool.exe", "helper.bat"])], String::new())
        .unwrap();
    assert_eq!(groups.len(), 1);
    assert!(groups[0].exists);
    assert!(groups[0].exes.contains(&"helper.bat".to_string()));
    assert!(groups[0].exes.contains(&"tool.exe".to_string()));
    assert_eq!(groups[0].exes, vec!["helper.bat".to_string(), "tool.exe".to_string()]);
}

#[test]
fn scan_tools_with_query_filters() {
    let groups = scan_tools(vec![listing("C:\\t_q", true, &["apple.exe", "banana.exe"])], "apple".into())
        .unwrap();
    assert_eq!(groups[0].exes.len(), 1);
    assert_eq!(groups[0].exes[0], "apple.exe");
}

#[test]
fn scan_tools_query_ignores_case() {
    let groups = scan_tools(vec![listing("C:\\t", true, &["Apple.EXE", "pear.exe"])], "APP".into())
        .unwrap();
    assert_eq!(groups[0].exes, vec!["Apple.EXE".to_string()]);
}

#[test]
fn executables_are_recognised_by_extension() {
    assert!(is_executable_name("tool.exe"));
    assert!(is_executable_name("SETUP.BAT"));
    assert!(is_executable_name("run.cmd"));
    assert!(is_executable_name("old.com"));
    assert!(is_executable_name("script.ps1"));
    assert!(!is_executable_name("readme.txt"));
    assert!(!is_executable_name("exe"));
    assert!(!is_executable_name(".exe"));
}
