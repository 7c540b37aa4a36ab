use swab::age::Age;
use swab::age::Timestamp;
use swab::arguments::account;
use swab::arguments::Account;
use swab::arguments::Arguments;
use swab::arguments::Decision;
use swab::arguments::Totals;
use swab::catalog::cargo;
use swab::catalog::node;
use swab::catalog::zig;
use swab::context::Context;
use swab::context::WalkEvent;
use swab::task::Task;

fn arguments(dry_run: bool, interactive: bool) -> Arguments {
    Arguments {
        age: None,
        directories: vec![],
        dry_run,
        follow_symlinks: false,
        interactive,
        quiet: false,
    }
}

fn at(seconds: u64, nanos: u32) -> Timestamp {
    Timestamp { seconds, nanos }
}

fn removal(path: &str, size: u64) -> Task {
    Task::Remove { path: path.to_string(), size }
}

fn command(text: &str) -> Task {
    Task::Command(text.to_string())
}

/// What a run accounts for over the tasks, when every question is answered
/// with `confirmed` and every task that is carried out succeeds.
fn tally(arguments: &Arguments, tasks: &[Task], seen: &mut Vec<String>, confirmed: bool)
    -> (u64, bool) {
    let mut bytes = 0;
    let mut executed = false;
    for task in tasks {
        let decision = arguments.process_task(task, seen);
        let (added, done) = account(task, decision, confirmed);
        bytes += added;
        executed = executed || done;
    }
    (bytes, executed)
}

fn some_tasks() -> Vec<Task> {
    vec![
        command("make clean"),
        removal("node_modules", 1000),
        removal(".angular", 500),
        removal("node_modules", 1000),
        removal("target", 7),
    ]
}

#[test]
fn quiet_is_what_was_set() {
    let mut settings = arguments(false, false);
    assert!(!settings.quiet());
    settings.quiet = true;
    assert!(settings.quiet());
}

#[test]
fn tasks_are_decided_by_the_mode() {
    let mut seen = vec![];
    assert_eq!(
        arguments(true, false).process_task(&removal("a", 5), &mut seen),
        Decision::Count(5)
    );
    assert_eq!(seen, vec!["a"]);
    assert_eq!(arguments(true, true).process_task(&removal("a", 5), &mut seen), Decision::Pass);
    assert_eq!(arguments(false, false).process_task(&removal("a", 5), &mut seen), Decision::Pass);
    assert_eq!(seen, vec!["a"]);
    assert_eq!(arguments(false, false).process_task(&removal("b", 5), &mut seen), Decision::Run);
    assert_eq!(arguments(false, true).process_task(&removal("c", 5), &mut seen), Decision::Ask);
    assert_eq!(seen, vec!["a", "b", "c"]);
    assert_eq!(arguments(true, false).process_task(&command("x"), &mut seen), Decision::Pass);
    assert_eq!(arguments(false, true).process_task(&command("x"), &mut seen), Decision::Ask);
    assert_eq!(arguments(false, false).process_task(&command("x"), &mut seen), Decision::Run);
    assert_eq!(seen, vec!["a", "b", "c"]);
}

#[test]
fn account_goes_by_the_decision() {
    let task = removal("a", 9);
    assert_eq!(account(&task, Decision::Pass, true), (0, false));
    assert_eq!(account(&task, Decision::Count(9), false), (9, false));
    assert_eq!(account(&task, Decision::Ask, false), (0, false));
    assert_eq!(account(&task, Decision::Ask, true), (9, true));
    assert_eq!(account(&task, Decision::Run, false), (9, true));
    assert_eq!(account(&command("x"), Decision::Run, false), (0, true));
    assert_eq!(account(&command("x"), Decision::Ask, true), (0, true));
}

#[test]
fn dry_run_counts_what_a_live_run_frees() {
    let tasks = some_tasks();
    let dry = tally(&arguments(true, false), &tasks, &mut vec![], false);
    let live = tally(&arguments(false, false), &tasks, &mut vec![], false);
    let asked = tally(&arguments(false, true), &tasks, &mut vec![], true);
    assert_eq!(dry, (1507, false));
    assert_eq!(live, (1507, true));
    assert_eq!(asked, (1507, true));
    let declined = tally(&arguments(false, true), &tasks, &mut vec![], false);
    assert_eq!(declined, (0, false));
}

#[test]
fn path_is_dealt_with_once_in_a_run() {
    let mut seen = vec!["target".to_string()];
    let first = tally(&arguments(false, false), &some_tasks(), &mut seen, false);
    assert_eq!(first, (1500, true));
    assert_eq!(seen, vec!["target", "node_modules", ".angular"]);
    let second = tally(&arguments(false, false), &[removal(".angular", 500)], &mut seen, false);
    assert_eq!(second, (0, false));
}

#[test]
fn sizes_add_up_when_no_path_comes_twice() {
    let tasks = vec![removal("a", 1), command("x"), removal("b", 20), removal("c", 300)];
    assert_eq!(tally(&arguments(false, false), &tasks, &mut vec![], false), (321, true));
}

#[test]
fn project_counts_by_the_mode() {
    assert!(arguments(true, false).should_count(true, false));
    assert!(!arguments(true, false).should_count(false, true));
    assert!(arguments(false, false).should_count(false, true));
    assert!(!arguments(false, false).should_count(true, false));
}

#[test]
fn summary_words_go_by_the_mode() {
    assert_eq!(
        arguments(true, false).summary_labels(),
        Some(("Projects matched", "Bytes matched"))
    );
    assert_eq!(
        arguments(false, false).summary_labels(),
        Some(("Projects cleaned", "Bytes deleted"))
    );
    let mut quiet = arguments(false, false);
    quiet.quiet = true;
    assert_eq!(quiet.summary_labels(), None);
}

#[test]
fn totals_grow_by_one_project() {
    let totals = Totals::new().with_project(1500).unwrap().with_project(0).unwrap();
    assert_eq!(totals, Totals { bytes: 1500, projects: 2 });
    assert_eq!(Totals { bytes: u64::MAX, projects: 0 }.with_project(1), None);
    assert_eq!(Totals { bytes: 0, projects: u64::MAX }.with_project(1), None);
    assert_eq!(
        Totals { bytes: u64::MAX - 1, projects: 3 }.with_project(1),
        Some(Totals { bytes: u64::MAX, projects: 4 })
    );
}

#[test]
fn directory_is_due_when_it_is_old_enough() {
    let mut settings = arguments(false, false);
    assert!(settings.is_due(at(1_000, 0), at(1_000, 0)));
    settings.age = Some(Age::from_secs(60));
    assert!(settings.is_due(at(940, 0), at(1_000, 0)));
    assert!(!settings.is_due(at(940, 1), at(1_000, 0)));
    assert!(settings.is_due(at(100, 0), at(1_000, 0)));
    assert!(!settings.is_due(at(2_000, 0), at(1_000, 0)));
    assert!(settings.is_due(at(0, 0), at(10, 0)));
    assert!(!settings.is_due(at(0, 1), at(10, 0)));
}

#[test]
fn rules_apply_where_their_marker_is() {
    let events = vec![
        WalkEvent::Found { path: "package.json".to_string(), depth: 1, is_dir: false },
        WalkEvent::Found { path: "build.zig".to_string(), depth: 1, is_dir: false },
        WalkEvent::Found { path: "sub".to_string(), depth: 1, is_dir: true },
        WalkEvent::Found { path: "sub/Cargo.toml".to_string(), depth: 2, is_dir: false },
    ];
    let context = Context::new("/p".to_string(), false, &events).unwrap();
    let rules = vec![cargo(), node(), cargo(), zig()];

    assert_eq!(arguments(false, false).applicable(&rules, &context), vec![1, 3]);
    assert!(arguments(false, false).applicable(&vec![], &context).is_empty());
}

#[test]
fn account_notes_matches_and_what_was_done() {
    let account = Account::new();
    assert_eq!(account, Account { bytes: 0, executed: false, matched: false });
    assert!(!account.with_report(0).matched);
    let account = account.with_report(2).with_report(0);
    assert!(account.matched);
    let account = account.with_task((10, false)).unwrap().with_task((5, true)).unwrap();
    assert_eq!(account, Account { bytes: 15, executed: true, matched: true });
    assert_eq!(account.with_task((0, false)), Some(account));
    assert_eq!(account.with_task((u64::MAX, false)), None);
}

#[test]
fn totals_take_the_account_of_a_project_that_counts() {
    let matched = Account { bytes: 1500, executed: false, matched: true };
    let cleaned = Account { bytes: 700, executed: true, matched: true };
    let start = Totals { bytes: 1, projects: 1 };

    assert_eq!(
        start.with_account(&arguments(true, false), matched),
        Some(Totals { bytes: 1501, projects: 2 })
    );
    assert_eq!(start.with_account(&arguments(false, false), matched), Some(start));
    assert_eq!(
        start.with_account(&arguments(false, true), cleaned),
        Some(Totals { bytes: 701, projects: 2 })
    );
    let nothing = Account { bytes: 9, executed: true, matched: false };
    assert_eq!(start.with_account(&arguments(true, false), nothing), Some(start));
    let huge = Account { bytes: u64::MAX, executed: true, matched: true };
    assert_eq!(start.with_account(&arguments(false, false), huge), None);
}
