use files_to_prompt::config::{get_config, AppConfig};
use files_to_prompt::policy::{PathKind, Verdict};
use files_to_prompt::walker::{VisitedSet, Walker};

fn config(paths: Vec<&str>, markdown: bool, depth: u64) -> AppConfig {
    get_config(
        paths.into_iter().map(|p| p.to_string()).collect(),
        false,
        vec![],
        markdown,
        "output.txt".to_string(),
        None,
        false,
        depth,
    )
    .unwrap()
}

#[test]
fn visited_set_admits_each_key_once() {
    let mut v = VisitedSet::new();
    assert!(v.try_enter((1, 10)));
    assert!(!v.try_enter((1, 10)));
    assert!(v.try_enter((2, 10)));
    assert!(v.try_enter((1, 11)));
    assert!(!v.try_enter((2, 10)));
}

#[test]
fn entries_come_out_in_the_order_given() {
    let mut w = Walker::new(config(vec!["a", "b"], false, 4));
    let first = w.next_entry().unwrap();
    assert_eq!((first.path.as_str(), first.depth), ("a", 0));
    w.add_children(0, vec!["a/x".to_string(), "a/y".to_string()]);
    let x = w.next_entry().unwrap();
    assert_eq!((x.path.as_str(), x.depth), ("a/x", 1));
    let y = w.next_entry().unwrap();
    assert_eq!((y.path.as_str(), y.depth), ("a/y", 1));
    let b = w.next_entry().unwrap();
    assert_eq!((b.path.as_str(), b.depth), ("b", 0));
    assert!(w.next_entry().is_none());
}

#[test]
fn one_directory_through_two_aliases_is_expanded_once() {
    let mut w = Walker::new(config(vec!["/r/dir", "/r/link"], false, 4));
    let e = w.next_entry().unwrap();
    assert_eq!(w.classify(&e.path, PathKind::Dir), Verdict::Expand);
    assert!(w.enter_dir(e.depth, Some((7, 42))));
    w.add_children(e.depth, vec!["/r/dir/f.txt".to_string()]);
    let f = w.next_entry().unwrap();
    assert_eq!(w.classify(&f.path, PathKind::File), Verdict::Render);
    w.add_file(&f.path, "hello\n".to_string());
    let alias = w.next_entry().unwrap();
    assert_eq!(alias.path, "/r/link");
    assert!(!w.enter_dir(alias.depth, Some((7, 42))));
    assert!(w.next_entry().is_none());
    assert_eq!(w.output, "/r/dir/f.txt\nhello\n");
    assert_eq!(w.output.matches("hello").count(), 1);
}

#[test]
fn unreadable_metadata_is_not_expanded() {
    let mut w = Walker::new(config(vec!["d"], false, 4));
    assert!(!w.enter_dir(0, None));
    assert!(w.enter_dir(0, Some((1, 1))));
}

#[test]
fn depth_bound_stops_expansion() {
    let mut w = Walker::new(config(vec!["d"], false, 1));
    assert!(w.enter_dir(0, Some((1, 1))));
    assert!(w.enter_dir(1, Some((1, 2))));
    assert!(!w.enter_dir(2, Some((1, 3))));
    w.add_children(u64::MAX, vec!["deep".to_string()]);
    assert_eq!(w.next_entry().unwrap().depth, u64::MAX);
}

/// Feeds a walker the answers a directory holding `a.py` and `.hidden.py` gives.
fn run_small_tree(markdown: bool) -> String {
    let mut w = Walker::new(config(vec!["/t"], markdown, 4));
    while let Some(e) = w.next_entry() {
        let kind = if e.path == "/t" { PathKind::Dir } else { PathKind::File };
        match w.classify(&e.path, kind) {
            Verdict::Render => {
                let contents = if e.path == "/t/a.py" { "print(1)" } else { "print(2)" };
                w.add_file(&e.path, contents.to_string());
            }
            Verdict::Expand => {
                if w.enter_dir(e.depth, Some((3, 9))) {
                    w.add_children(e.depth, vec!["/t/a.py".to_string(), "/t/.hidden.py".to_string()]);
                }
            }
            _ => {}
        }
    }
    w.output
}

#[test]
fn end_to_end_small_tree() {
    let out = run_small_tree(false);
    assert_eq!(out, "/t/a.py\nprint(1)");
    assert_eq!(out.matches("/t/a.py").count(), 1);
    assert!(!out.contains(".hidden.py"));
    assert!(!out.contains("print(2)"));

    let md = run_small_tree(true);
    assert_eq!(md, "/t/a.py\n```python\nprint(1)\n```\n");
}

#[test]
fn same_answers_same_output() {
    assert_eq!(run_small_tree(false), run_small_tree(false));
    assert_eq!(run_small_tree(true), run_small_tree(true));
}
