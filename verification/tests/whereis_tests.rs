use wux::commands::whereis::{
    default_ignore_patterns, drive_roots, entry_matches, record_entry, file_name_matches, path_file_name, run,
    run_with_ignores, search_roots, should_ignore, WhereisError,
};

#[test]
fn should_ignore_returns_true_for_matching_pattern() {
    let path = "/home/user/node_modules/package.json";
    let patterns = vec!["node_modules".to_string()];
    assert!(should_ignore(path, &patterns, false));
}

#[test]
fn should_ignore_returns_false_for_non_matching_pattern() {
    let path = "/home/user/src/index.js";
    let patterns = vec!["node_modules".to_string()];
    assert!(!should_ignore(path, &patterns, false));
}

#[test]
fn should_ignore_returns_false_for_empty_patterns() {
    let path = "/home/user/node_modules/package.json";
    let patterns: Vec<String> = vec![];
    assert!(!should_ignore(path, &patterns, false));
}

#[test]
fn should_ignore_matches_whole_components_only() {
    let patterns = vec!["node_modules".to_string()];
    assert!(!should_ignore("/home/user/my_node_modules/a.js", &patterns, false));
    assert!(!should_ignore("/home/user/node_modules2/a.js", &patterns, false));
    assert!(should_ignore("node_modules", &patterns, false));
}

#[test]
fn should_ignore_skips_dot_components() {
    let dot = vec![".".to_string()];
    assert!(!should_ignore("./a/./b", &dot, false));
    let dotdot = vec!["..".to_string()];
    assert!(!should_ignore("../a", &dotdot, false));
}

#[test]
fn should_ignore_windows_separators_and_drive() {
    let patterns = vec![".git".to_string()];
    assert!(should_ignore("C:\\repo\\.git\\config", &patterns, true));
    assert!(!should_ignore("C:\\repo\\.git\\config", &patterns, false));
    let drive = vec!["C:".to_string()];
    assert!(!should_ignore("C:\\repo", &drive, true));
    assert!(!should_ignore("C:\\repo", &drive, false));
    let whole = vec!["C:\\repo".to_string()];
    assert!(should_ignore("C:\\repo", &whole, false));
    assert!(!should_ignore("C:\\repo", &whole, true));
}

#[test]
fn file_name_matching_depends_on_platform() {
    assert!(file_name_matches("Needle.TXT", "needle.txt", true));
    assert!(!file_name_matches("Needle.TXT", "needle.txt", false));
    assert!(file_name_matches("needle.txt", "needle.txt", false));
}

#[test]
fn file_name_is_last_component() {
    assert_eq!(path_file_name("/a/b/c.txt", false), Some("c.txt".to_string()));
    assert_eq!(path_file_name("/a/b/", false), Some("b".to_string()));
    assert_eq!(path_file_name("/a/b/.", false), Some("b".to_string()));
    assert_eq!(path_file_name("/a/..", false), None);
    assert_eq!(path_file_name("/", false), None);
    assert_eq!(path_file_name(".", false), None);
    assert_eq!(path_file_name("C:\\x\\y.rs", true), Some("y.rs".to_string()));
    assert_eq!(path_file_name("C:", true), None);
}

#[test]
fn entry_reported_only_for_unignored_matching_files() {
    let defaults = default_ignore_patterns();
    assert!(entry_matches("/tmp/one/two/needle.txt", true, "needle.txt", &[], false));
    assert!(!entry_matches("/tmp/one/two/needle.txt", false, "needle.txt", &[], false));
    assert!(!entry_matches("/tmp/other.txt", true, "needle.txt", &[], false));
    assert!(!entry_matches("/tmp/node_modules/package.json", true, "package.json", &defaults, false));
    assert!(entry_matches("/tmp/node_modules/package.json", true, "package.json", &[], false));
    assert!(!entry_matches("/tmp/.git/config", true, "config", &defaults, false));
    let custom = vec!["skip_this".to_string()];
    assert!(!entry_matches("/tmp/skip_this/secret.txt", true, "secret.txt", &custom, false));
}

#[test]
fn default_patterns_are_the_usual_build_and_vcs_directories() {
    assert_eq!(
        default_ignore_patterns(),
        vec!["node_modules", ".git", "target", "__pycache__", ".svn", ".hg"]
    );
}

#[test]
fn run_trims_name_and_uses_defaults() {
    let plan = run("  needle.txt \n").ok().unwrap();
    assert_eq!(plan.file_name, "needle.txt");
    assert_eq!(plan.ignore_patterns, default_ignore_patterns());
}

#[test]
fn run_refuses_blank_name() {
    let err = run("   \t").err().unwrap();
    assert_eq!(err, WhereisError::MissingFileName);
    assert_eq!(err.message(), "Please provide a file name to search for.");
    assert!(run("").is_err());
}

#[test]
fn run_with_ignores_chooses_patterns() {
    let custom = vec!["skip_this".to_string()];
    let plan = run_with_ignores("a", Some(custom.clone()), false).ok().unwrap();
    assert_eq!(plan.ignore_patterns, custom);
    let plan = run_with_ignores("a", Some(custom), true).ok().unwrap();
    assert!(plan.ignore_patterns.is_empty());
    let plan = run_with_ignores("a", None, true).ok().unwrap();
    assert!(plan.ignore_patterns.is_empty());
}

#[test]
fn search_roots_by_platform() {
    assert_eq!(search_roots(false, vec!["D:\\".to_string()]), vec!["/"]);
    assert_eq!(search_roots(true, vec![]), vec!["C:\\"]);
    assert_eq!(search_roots(true, vec!["D:\\".to_string()]), vec!["D:\\"]);
    let drives = drive_roots();
    assert_eq!(drives.len(), 26);
    assert_eq!(drives[0], "A:\\");
    assert_eq!(drives[2], "C:\\");
    assert_eq!(drives[25], "Z:\\");
}

#[test]
fn finds_file_in_nested_directory() {
    let patterns: Vec<String> = Vec::new();
    assert!(entry_matches("/tmp/w1/one/two/needle.txt", true, "needle.txt", &patterns, false));
    assert!(!entry_matches("/tmp/w1/one/two", false, "needle.txt", &patterns, false));
}

#[test]
fn returns_no_matches_for_missing_file() {
    let patterns: Vec<String> = Vec::new();
    assert!(!entry_matches("/tmp/w2/other.txt", true, "needle.txt", &patterns, false));
}

#[test]
fn ignores_node_modules_by_default() {
    let plan = run("package.json").unwrap();
    assert!(!entry_matches(
        "/tmp/w3/node_modules/package.json",
        true,
        &plan.file_name,
        &plan.ignore_patterns,
        false
    ));
}

#[test]
fn ignores_git_directory_by_default() {
    let plan = run("config").unwrap();
    assert!(!entry_matches("/tmp/w4/.git/config", true, &plan.file_name, &plan.ignore_patterns, false));
}

#[test]
fn no_ignore_finds_all_files() {
    let plan = run_with_ignores("package.json", None, true).unwrap();
    assert!(entry_matches(
        "/tmp/w5/node_modules/package.json",
        true,
        &plan.file_name,
        &plan.ignore_patterns,
        false
    ));
}

#[test]
fn custom_ignore_pattern() {
    let plan = run_with_ignores("secret.txt", Some(vec!["skip_this".to_string()]), false).unwrap();
    assert!(!entry_matches("/tmp/w6/skip_this/secret.txt", true, &plan.file_name, &plan.ignore_patterns, false));
    assert!(entry_matches("/tmp/w6/keep/secret.txt", true, &plan.file_name, &plan.ignore_patterns, false));
}

#[test]
fn record_entry_appends_only_matches() {
    let patterns = default_ignore_patterns();
    let mut matches = vec!["/earlier/needle.txt".to_string()];
    assert!(!record_entry(&mut matches, "/a/node_modules/needle.txt", true, "needle.txt", &patterns, false));
    assert!(!record_entry(&mut matches, "/a/needle.txt", false, "needle.txt", &patterns, false));
    assert!(record_entry(&mut matches, "/a/b/needle.txt", true, "needle.txt", &patterns, false));
    assert!(!record_entry(&mut matches, "/a/other.txt", true, "needle.txt", &patterns, false));
    assert!(record_entry(&mut matches, "/c/needle.txt", true, "needle.txt", &patterns, false));
    assert_eq!(matches, vec!["/earlier/needle.txt", "/a/b/needle.txt", "/c/needle.txt"]);
}

#[test]
fn windows_prefixes_are_not_components() {
    let patterns = vec!["node_modules".to_string()];
    assert!(!should_ignore("\\\\srv\\node_modules\\a", &patterns, true));
    assert!(should_ignore("\\\\srv\\share\\node_modules\\a", &patterns, true));
    assert!(!should_ignore("\\\\.\\node_modules\\a", &patterns, true));
    assert!(!should_ignore("\\\\?\\node_modules\\a", &patterns, true));
    assert!(!should_ignore("\\\\?\\UNC\\srv\\node_modules\\a", &patterns, true));
    assert!(should_ignore("\\\\?\\C:\\node_modules\\a", &patterns, true));
    assert_eq!(path_file_name("\\\\srv\\share", true), None);
    assert_eq!(path_file_name("\\\\srv\\share\\x.txt", true), Some("x.txt".to_string()));
    assert_eq!(path_file_name("\\\\?\\C:\\a/b", true), Some("a/b".to_string()));
    assert_eq!(path_file_name("\\\\srv", true), Some("srv".to_string()));
}
