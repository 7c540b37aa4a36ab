use swab::context::Context;
use swab::context::WalkEvent;
use swab::detection::Detection;
use swab::listing::Entry;
use swab::prune::prune;
use swab::prune::PathKind;
use swab::rule::Action;
use swab::rule::Rule;

fn found(path: &str, depth: usize, is_dir: bool) -> WalkEvent {
    WalkEvent::Found { path: path.to_string(), depth, is_dir }
}

fn depth_of(path: &str) -> usize {
    path.split('/').count()
}

/// The events of a walk of a tree that holds the given files.
fn walk(files: &[&str]) -> Vec<WalkEvent> {
    let mut events = vec![found("", 0, true)];
    for file in files {
        let parts: Vec<&str> = file.split('/').collect();
        for end in 1..parts.len() {
            let dir = parts[..end].join("/");
            events.push(found(&dir, end, true));
        }
        events.push(found(file, depth_of(file), false));
    }
    events
}

fn listing(files: &[&str]) -> Context {
    Context::new("/root".to_string(), false, &walk(files)).unwrap()
}

fn test_rule(actions: Vec<Action>) -> Rule {
    Rule {
        id: "test".to_string(),
        name: "test".to_string(),
        detection: Detection::Pattern("**".to_string()),
        actions,
    }
}

fn remove(pattern: &str) -> Action {
    Action::Remove(pattern.to_string())
}

/// What a fresh look finds of each candidate, going by the files that are
/// still there.
fn look(files: &[&str], candidates: &[String]) -> Vec<PathKind> {
    candidates
        .iter()
        .map(|candidate| {
            if files.iter().any(|file| file == candidate) {
                PathKind::File
            } else if files.iter().any(|file| file.starts_with(&format!("{candidate}/"))) {
                PathKind::Directory
            } else {
                PathKind::Missing
            }
        })
        .collect()
}

fn resolve(context: &Context, rule: &Rule, files: &[&str]) -> Vec<String> {
    let candidates = context.candidates(rule);
    context.matches(rule, &look(files, &candidates))
}

fn strings(items: &[&str]) -> Vec<String> {
    items.iter().map(|item| item.to_string()).collect()
}

#[test]
fn matches_returns_empty_when_no_patterns_match() {
    let files = ["README.md"];
    let context = listing(&files);
    let rule = test_rule(vec![remove("nope/**")]);

    assert!(resolve(&context, &rule, &files).is_empty());
}

#[test]
fn matches_only_files() {
    let files = ["b.log", "a.log"];
    let context = listing(&files);
    let rule = test_rule(vec![remove("*.log")]);

    assert_eq!(resolve(&context, &rule, &files), strings(&["a.log", "b.log"]));
}

#[test]
fn matches_skips_deleted_paths() {
    let context = listing(&["stale.log"]);
    let rule = test_rule(vec![remove("*.log")]);

    assert_eq!(context.candidates(&rule), strings(&["stale.log"]));
    assert!(resolve(&context, &rule, &[]).is_empty());
}

#[test]
fn matches_prunes_nested_paths() {
    let files = ["node_modules/left-pad/index.js", "target/debug/app", "README.md"];
    let context = listing(&files);
    let rule = test_rule(vec![
        remove("node_modules"),
        remove("node_modules/**"),
        remove("target"),
        remove("target/**"),
        remove("*.md"),
        Action::Command("echo ignored".to_string()),
    ]);

    assert_eq!(
        context.candidates(&rule),
        strings(&[
            "README.md",
            "node_modules",
            "node_modules/left-pad",
            "node_modules/left-pad/index.js",
            "target",
            "target/debug",
            "target/debug/app",
        ])
    );
    assert_eq!(
        resolve(&context, &rule, &files),
        strings(&["README.md", "node_modules", "target"])
    );
}

#[test]
fn matches_do_not_depend_on_the_order_of_the_actions() {
    let files = ["node_modules/left-pad/index.js", "target/debug/app", "README.md"];
    let context = listing(&files);
    let forward = test_rule(vec![remove("node_modules/**"), remove("*.md"), remove("target")]);
    let backward = test_rule(vec![
        remove("target"),
        remove("*.md"),
        remove("node_modules/**"),
        remove("*.md"),
    ]);

    assert_eq!(context.candidates(&forward), context.candidates(&backward));
    assert_eq!(resolve(&context, &forward, &files), resolve(&context, &backward, &files));
    assert_eq!(
        resolve(&context, &forward, &files),
        strings(&["README.md", "node_modules/left-pad", "target"])
    );
}

#[test]
fn directory_and_its_contents_come_to_one_path() {
    let files = ["cache/a/b/c.bin", "cache/d.bin", "cache-old/e.bin", "src/main.rs"];
    let context = listing(&files);
    let rule = test_rule(vec![remove("cache"), remove("cache/**")]);

    assert_eq!(resolve(&context, &rule, &files), strings(&["cache"]));
}

#[test]
fn invalid_pattern_selects_nothing_and_spoils_nothing() {
    let files = ["a.log", "b.txt"];
    let context = listing(&files);
    let rule = test_rule(vec![remove("[unclosed"), remove("*.txt"), remove("{a,b")]);

    assert_eq!(resolve(&context, &rule, &files), strings(&["b.txt"]));
    assert!(!context.contains("[unclosed"));
}

#[test]
fn overlong_pattern_selects_nothing() {
    let fits = "a".repeat(256);
    let long = "a".repeat(257);
    let context = listing(&[&fits, &long]);

    assert!(context.contains(&fits));
    assert!(!context.contains(&long));
    let rule = test_rule(vec![remove(&long)]);
    assert!(context.candidates(&rule).is_empty());
    let rule = test_rule(vec![remove(&fits)]);
    assert_eq!(context.candidates(&rule), vec![fits.clone()]);
}

#[test]
fn deeply_nested_braces_within_the_limit_compile() {
    let pattern = format!("{}a{}", "{".repeat(127), "}".repeat(127));
    assert_eq!(pattern.chars().count(), 255);
    let context = listing(&["a", "b"]);
    assert!(context.contains(&pattern));
    let mixed = format!("{}z{}", "{a,x".repeat(50), "}".repeat(50));
    assert!(mixed.chars().count() <= 256);
    assert!(context.contains(&mixed));
    let steep = format!("{}a{}", "{?".repeat(85), "}".repeat(85));
    assert_eq!(steep.chars().count(), 256);
    assert!(!context.contains(&steep));
    assert!(swab::glob::is_usable(&steep));
    let classes = format!("{}[!z]{}", "{a,".repeat(62), "}".repeat(62));
    assert!(classes.chars().count() <= 256);
    assert!(context.contains(&classes));
}

#[test]
fn contains_matches_directories_and_files() {
    let context = listing(&["src/main.rs", "Cargo.toml"]);

    assert!(context.contains("Cargo.toml"));
    assert!(context.contains("src"));
    assert!(context.contains("**/*.rs"));
    assert!(context.contains("s?c"));
    assert!(!context.contains("main.rs"));
    assert!(!context.contains("target"));
}

#[test]
fn listing_is_sorted_by_component_and_without_the_root() {
    let context = listing(&["a/b", "a-b", "a.txt", "a/a/z", "B"]);
    let paths: Vec<String> = context.entries().iter().map(|entry| entry.path.clone()).collect();

    assert_eq!(paths, strings(&["B", "a", "a/a", "a/a/z", "a/b", "a-b", "a.txt"]));
    assert_eq!(context.directories(), strings(&["a", "a/a"]));
    assert_eq!(context.files(), strings(&["B", "a/a/z", "a/b", "a-b", "a.txt"]));
    assert_eq!(context.root(), "/root");
    assert!(!context.follow_symlinks());
}

#[test]
fn listing_keeps_the_first_visit_of_a_path() {
    let events = vec![
        found("", 0, true),
        found("x", 1, false),
        found("x", 1, true),
        found("y", 1, true),
        found("y", 1, true),
    ];
    let context = Context::new("r".to_string(), true, &events).unwrap();

    assert_eq!(
        context.entries(),
        &vec![
            Entry { path: "x".to_string(), is_dir: false },
            Entry { path: "y".to_string(), is_dir: true },
        ]
    );
    assert!(context.follow_symlinks());
}

#[test]
fn listing_fails_only_when_the_root_fails() {
    let below = vec![
        found("", 0, true),
        WalkEvent::Failed { depth: 2, message: "permission denied".to_string() },
        found("a", 1, false),
    ];
    let context = Context::new("r".to_string(), false, &below).unwrap();
    assert_eq!(context.files(), strings(&["a"]));

    let at_root = vec![
        found("a", 1, false),
        WalkEvent::Failed { depth: 0, message: "no such directory".to_string() },
        WalkEvent::Failed { depth: 0, message: "second".to_string() },
    ];
    let error = Context::new("r".to_string(), false, &at_root).unwrap_err();
    assert_eq!(error.message, "no such directory");
}

#[test]
fn prune_keeps_what_is_there_and_not_under_a_kept_directory() {
    let candidates = strings(&["a", "a/b", "a/b/c", "ab", "b", "b/c", "c", "c/d"]);
    let kinds = vec![
        PathKind::Directory,
        PathKind::Directory,
        PathKind::File,
        PathKind::File,
        PathKind::Missing,
        PathKind::File,
        PathKind::File,
        PathKind::File,
    ];

    assert_eq!(prune(&candidates, &kinds), strings(&["a", "ab", "b/c", "c", "c/d"]));
}

#[test]
fn prune_counts_a_candidate_without_a_kind_as_missing() {
    let candidates = strings(&["a", "b", "c"]);

    assert_eq!(prune(&candidates, &vec![PathKind::File]), strings(&["a"]));
    assert!(prune(&candidates, &vec![]).is_empty());
    assert_eq!(
        prune(&candidates, &vec![PathKind::File, PathKind::File, PathKind::File, PathKind::File]),
        strings(&["a", "b", "c"])
    );
}
