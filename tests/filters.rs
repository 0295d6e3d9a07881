use files_to_prompt::paths::{is_hidden_unix, relative_to_absolute};
use files_to_prompt::policy::{check_ignore_match, classify, decide, does_extension_match, PathKind, Verdict};
use files_to_prompt::config::{get_config, AppConfig};

fn config(include_hidden: bool, ignore: Vec<String>, extension: Option<Vec<String>>) -> AppConfig {
    get_config(
        vec!["root".to_string()],
        include_hidden,
        ignore,
        false,
        "output.txt".to_string(),
        extension,
        false,
        8,
    )
    .unwrap()
}

#[test]
fn test_is_hidden_unix() {
    assert!(is_hidden_unix(".hidden"));
    assert!(!is_hidden_unix("visible"));
    assert!(!is_hidden_unix("."));
    assert!(!is_hidden_unix(".."));
}

#[test]
fn test_does_extension_match() {
    let path = "main.rs";
    let exts = Some(vec!["rs".to_string(), "py".to_string()]);
    assert!(does_extension_match(path, &exts));

    let other = "main.txt";
    assert!(!does_extension_match(other, &exts));

    assert!(does_extension_match(other, &None));
}

#[test]
fn test_check_ignore_match() {
    let path = "src/lib.rs";
    let patterns = vec!["src/*".to_string()];
    assert!(check_ignore_match(path, &patterns));
}

#[test]
fn hidden_names_and_special_components() {
    assert!(is_hidden_unix(".git"));
    assert!(is_hidden_unix(".env"));
    assert!(is_hidden_unix("/home/u/project/.git"));
    assert!(is_hidden_unix("project/.git/"));
    assert!(!is_hidden_unix("project/."));
    assert!(!is_hidden_unix("project/.."));
    assert!(!is_hidden_unix(".git/config"));
    assert!(!is_hidden_unix(""));
    assert!(!is_hidden_unix("/"));
}

#[test]
fn allow_list_rs_py() {
    let exts = Some(vec!["rs".to_string(), "py".to_string()]);
    assert!(does_extension_match("a.rs", &exts));
    assert!(does_extension_match("a.py", &exts));
    assert!(!does_extension_match("a.txt", &exts));
    assert!(!does_extension_match("a", &exts));
    assert!(!does_extension_match(".rs", &exts));
    assert!(!does_extension_match("a.RS", &exts));
    assert!(does_extension_match("dir.d/a.rs", &exts));
    assert!(does_extension_match("a.rs", &None));
    assert!(does_extension_match("a.txt", &None));
    assert!(does_extension_match("a.rs", &Some(vec![])));
    assert!(does_extension_match("a.txt", &Some(vec![])));
}

#[test]
fn ignore_pattern_is_anchored_to_the_path() {
    let patterns = vec!["src/*".to_string()];
    assert!(check_ignore_match("src/lib.rs", &patterns));
    assert!(!check_ignore_match("lib.rs", &patterns));
}

#[test]
fn malformed_pattern_matches_nothing() {
    let patterns = vec!["[".to_string()];
    assert!(!check_ignore_match("[", &patterns));
    assert!(!check_ignore_match("a", &patterns));
    let mixed = vec!["[".to_string(), "*.log".to_string()];
    assert!(check_ignore_match("run.log", &mixed));
    assert!(!check_ignore_match("run.txt", &mixed));
    assert!(!check_ignore_match("run.log", &vec![]));
}

#[test]
fn verdicts_follow_the_policy_order() {
    let c = config(false, vec!["*.lock".to_string()], Some(vec!["rs".to_string()]));
    assert_eq!(classify(&c, ".hidden.rs", PathKind::File), Verdict::SkipHidden);
    assert_eq!(classify(&c, "Cargo.lock", PathKind::File), Verdict::SkipIgnored);
    assert_eq!(classify(&c, "main.rs", PathKind::File), Verdict::Render);
    assert_eq!(classify(&c, "notes.txt", PathKind::File), Verdict::SkipExtension);
    assert_eq!(classify(&c, "src", PathKind::Dir), Verdict::Expand);
    assert_eq!(classify(&c, "fifo", PathKind::Other), Verdict::SkipOther);
    assert_eq!(classify(&c, ".git", PathKind::Dir), Verdict::SkipHidden);

    let shown = config(true, vec![], None);
    assert_eq!(classify(&shown, ".hidden.rs", PathKind::File), Verdict::Render);
    assert_eq!(classify(&shown, ".git", PathKind::Dir), Verdict::Expand);
}

#[test]
fn decide_takes_the_ignore_outcome() {
    let c = config(false, vec![], None);
    assert_eq!(decide(&c, "main.rs", PathKind::File, true), Verdict::SkipIgnored);
    assert_eq!(decide(&c, "main.rs", PathKind::File, false), Verdict::Render);
    assert_eq!(decide(&c, ".env", PathKind::File, true), Verdict::SkipHidden);
}

#[test]
fn trailing_dot_component_is_dropped() {
    assert!(is_hidden_unix("a/.git/."));
    assert!(is_hidden_unix("a/.git/./"));
    assert!(!is_hidden_unix("./."));
    assert!(!is_hidden_unix("/."));
    assert!(!is_hidden_unix("a/.."));
    let exts = Some(vec!["rs".to_string()]);
    assert!(does_extension_match("a.rs/.", &exts));
    assert!(!does_extension_match(".", &exts));
}

#[test]
fn relative_paths_take_their_canonical_form() {
    assert_eq!(relative_to_absolute("src/a.rs", Some("/w/src/a.rs".to_string())), "/w/src/a.rs");
    assert_eq!(relative_to_absolute("src/a.rs", None), "src/a.rs");
    assert_eq!(relative_to_absolute("/abs/a.rs", Some("/real/a.rs".to_string())), "/abs/a.rs");
    assert_eq!(relative_to_absolute("", Some("/w".to_string())), "/w");
}
