use swab::context::Context;
use swab::context::WalkEvent;
use swab::task::after_command;
use swab::task::after_inspect;
use swab::task::after_removal;
use swab::task::Exit;
use swab::task::Operation;
use swab::task::Probe;
use swab::task::Progress;
use swab::task::Removal;
use swab::task::Task;
use swab::task::TaskError;

fn context(follow_symlinks: bool) -> Context {
    let events = vec![
        WalkEvent::Found { path: "stale.log".to_string(), depth: 1, is_dir: false },
        WalkEvent::Found { path: "dir".to_string(), depth: 1, is_dir: true },
        WalkEvent::Found { path: "dir/file.txt".to_string(), depth: 2, is_dir: false },
    ];
    Context::new("/work/project".to_string(), follow_symlinks, &events).unwrap()
}

fn removal(path: &str) -> Task {
    Task::Remove { path: path.to_string(), size: 0 }
}

/// Carries a removal out against a file system that answers every look
/// with `probe` and every removal with `outcome`.
fn run(task: &Task, context: &Context, probe: Probe, outcome: Removal) -> Result<(), TaskError> {
    match task.execute(context) {
        Progress::Finished(result) => result,
        Progress::Next(Operation::Inspect { path, follow }) => {
            match after_inspect(&path, follow, &probe) {
                Progress::Finished(result) => result,
                Progress::Next(_) => after_removal(&outcome),
            }
        }
        Progress::Next(_) => unreachable!(),
    }
}

#[test]
fn remove_is_idempotent_for_missing_paths() {
    let context = context(false);

    let file_task = removal("stale.log");

    run(&file_task, &context, Probe::NotFound, Removal::Done).unwrap();

    let dir_task = removal("dir");

    run(&dir_task, &context, Probe::NotFound, Removal::Done).unwrap();
}

#[test]
fn removal_done_twice_succeeds_twice() {
    let context = context(false);
    let task = removal("dir");
    let there = Probe::Found { is_dir: true, is_symlink: false };

    assert_eq!(run(&task, &context, there, Removal::Done), Ok(()));
    assert_eq!(run(&task, &context, Probe::NotFound, Removal::Done), Ok(()));
}

#[test]
fn removal_begins_with_a_look_at_the_path() {
    assert_eq!(
        removal("dir").execute(&context(false)),
        Progress::Next(Operation::Inspect { path: "dir".to_string(), follow: false })
    );
    assert_eq!(
        removal("a/b").execute(&context(true)),
        Progress::Next(Operation::Inspect { path: "a/b".to_string(), follow: true })
    );
}

#[test]
fn what_is_found_decides_how_it_is_removed() {
    let file = Probe::Found { is_dir: false, is_symlink: false };
    let dir = Probe::Found { is_dir: true, is_symlink: false };
    let link_to_dir = Probe::Found { is_dir: true, is_symlink: true };
    let link = Probe::Found { is_dir: false, is_symlink: true };
    let remove_file = Progress::Next(Operation::RemoveFile { path: "p".to_string() });
    let remove_tree = Progress::Next(Operation::RemoveTree { path: "p".to_string() });

    assert_eq!(after_inspect("p", false, &file), remove_file);
    assert_eq!(after_inspect("p", false, &dir), remove_tree);
    assert_eq!(after_inspect("p", false, &link_to_dir), remove_file);
    assert_eq!(after_inspect("p", false, &link), remove_file);
    assert_eq!(after_inspect("p", true, &link_to_dir), remove_tree);
    assert_eq!(after_inspect("p", true, &link), remove_file);
    assert_eq!(after_inspect("p", true, &Probe::NotFound), Progress::Finished(Ok(())));
    assert_eq!(
        after_inspect("p", true, &Probe::Failed("permission denied".to_string())),
        Progress::Finished(Err(TaskError::Io("permission denied".to_string())))
    );
}

#[test]
fn removal_that_finds_nothing_has_succeeded() {
    assert_eq!(after_removal(&Removal::Done), Ok(()));
    assert_eq!(after_removal(&Removal::NotFound), Ok(()));
    assert_eq!(
        after_removal(&Removal::Failed("directory not empty".to_string())),
        Err(TaskError::Io("directory not empty".to_string()))
    );
}

#[test]
fn command_is_trimmed_and_run_in_the_root() {
    let task = Task::Command("  cargo clean\t\n".to_string());
    assert_eq!(
        task.execute(&context(false)),
        Progress::Next(Operation::Run {
            command: "cargo clean".to_string(),
            directory: "/work/project".to_string(),
        })
    );
}

#[test]
fn blank_command_fails_at_once() {
    for text in ["", "   ", "\t\n", "\u{a0}\u{2003}"] {
        let task = Task::Command(text.to_string());
        assert_eq!(
            task.execute(&context(false)),
            Progress::Finished(Err(TaskError::EmptyCommand))
        );
    }
    assert_eq!(TaskError::EmptyCommand.message(), "command action cannot be empty");
}

#[test]
fn command_that_fails_names_itself_and_the_root() {
    assert_eq!(after_command("make clean", "/work/project", &Exit::Success), Ok(()));
    let failed = after_command("make clean", "/work/project", &Exit::Failure).unwrap_err();
    assert_eq!(
        failed,
        TaskError::CommandFailed {
            command: "make clean".to_string(),
            root: "/work/project".to_string(),
        }
    );
    assert_eq!(failed.message(), "command `make clean` failed in `/work/project`");
    let unborn = after_command("x", "/r", &Exit::NotStarted("no shell".to_string())).unwrap_err();
    assert_eq!(unborn, TaskError::Io("no shell".to_string()));
    assert_eq!(unborn.message(), "no shell");
}
