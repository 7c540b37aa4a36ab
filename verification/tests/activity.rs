use swab::activity::activity_time;
use swab::activity::is_activity_ignored;
use swab::activity::leads_through_ignored;
use swab::activity::ActivityEntry;
use swab::age::Timestamp;
use swab::context::Context;

fn at(seconds: u64, nanos: u32) -> Timestamp {
    Timestamp { seconds, nanos }
}

fn file(path: &str, modified: Timestamp) -> ActivityEntry {
    ActivityEntry { path: path.to_string(), is_file: true, modified: Some(modified) }
}

fn dir(path: &str, modified: Timestamp) -> ActivityEntry {
    ActivityEntry { path: path.to_string(), is_file: false, modified: Some(modified) }
}

#[test]
fn activity_modified_time_skips_junk_directories() {
    let entries = vec![
        dir("", at(900, 0)),
        dir(".git", at(500, 0)),
        file(".git/HEAD", at(500, 0)),
        dir("node_modules", at(700, 0)),
        dir("node_modules/left-pad", at(700, 0)),
        file("node_modules/left-pad/index.js", at(700, 0)),
        dir("src", at(100, 0)),
        file("src/main.rs", at(100, 10_000_000)),
    ];
    let context = Context::new("/p".to_string(), false, &vec![]).unwrap();

    let activity = context.activity_modified_time(&entries, at(900, 0));

    assert_eq!(activity, at(100, 10_000_000));
}

#[test]
fn activity_falls_back_to_the_root() {
    let root = at(42, 7);
    assert_eq!(activity_time(&vec![], root), root);
    let only_junk = vec![file("target/debug/app", at(99, 0)), dir("src", at(98, 0))];
    assert_eq!(activity_time(&only_junk, root), root);
    let unreadable =
        vec![ActivityEntry { path: "a.rs".to_string(), is_file: true, modified: None }];
    assert_eq!(activity_time(&unreadable, root), root);
    assert_eq!(activity_time(&vec![file("a.rs", at(0, 0))], root), root);
}

#[test]
fn activity_is_the_latest_file_that_counts() {
    let entries = vec![
        file("a.rs", at(10, 5)),
        file("deep/er/b.rs", at(10, 6)),
        file("c.rs", at(9, 999_999_999)),
        file("build/out.o", at(50, 0)),
        file("x/vendor/lib.rs", at(60, 0)),
        file("vendor", at(10, 7)),
    ];
    assert_eq!(activity_time(&entries, at(1, 0)), at(10, 7));
}

#[test]
fn only_whole_directory_names_are_ignored() {
    assert!(leads_through_ignored("target/debug/app"));
    assert!(leads_through_ignored("a/b/node_modules/c"));
    assert!(leads_through_ignored(".git/HEAD"));
    assert!(leads_through_ignored("x/Build/y"));
    assert!(!leads_through_ignored("target"));
    assert!(!leads_through_ignored("src/target"));
    assert!(!leads_through_ignored("targets/debug/app"));
    assert!(!leads_through_ignored("my-target/debug/app"));
    assert!(!leads_through_ignored("x/BUILD/y"));
    assert!(!leads_through_ignored(""));
    assert!(!leads_through_ignored("src/main.rs"));
}

#[test]
fn scan_leaves_named_directories_below_the_root_alone() {
    assert!(is_activity_ignored("node_modules", 1, true));
    assert!(is_activity_ignored("zig-out", 3, true));
    assert!(is_activity_ignored(".angular", 2, true));
    assert!(!is_activity_ignored("node_modules", 0, true));
    assert!(!is_activity_ignored("node_modules", 1, false));
    assert!(!is_activity_ignored("src", 1, true));
    assert!(!is_activity_ignored("Target", 1, true));
    assert!(!is_activity_ignored("", 1, true));
}
