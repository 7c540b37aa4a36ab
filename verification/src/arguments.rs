//! The settings of one run, and the decisions that depend on them: which
//! directories are due, which rules apply, what becomes of each task, and
//! what is counted.

use crate::age::Age;
use crate::age::Timestamp;
use crate::context::Context;
use crate::path::ascending;
use crate::path::lemma_lt_irreflexive;
use crate::path::path_lt;
use crate::path::views;
use crate::report::command_tasks;
use crate::report::Measured;
use crate::report::removal_tasks;
use crate::report::task_view;
use crate::report::TaskView;
use crate::report::total_bytes;
use crate::rule::Rule;
use crate::task::Task;
use vstd::prelude::*;

verus! {

/// The settings of one run.
#[derive(Debug)]
pub struct Arguments {
    /// Only directories that have lain untouched for this long are cleaned.
    pub age: Option<Age>,
    /// The directories to look into.
    pub directories: Vec<String>,
    /// Say what would be done, and do nothing.
    pub dry_run: bool,
    /// Follow links when walking.
    pub follow_symlinks: bool,
    /// Ask before each task.
    pub interactive: bool,
    /// Print nothing.
    pub quiet: bool,
}

/// What becomes of one task.
#[derive(Clone, Copy, Debug, PartialEq, Eq, Structural)]
pub enum Decision {
    /// Nothing: the path was dealt with before, or it is a command in a dry
    /// run.
    Pass,
    /// It is counted with so many bytes, and not carried out.
    Count(u64),
    /// The user is asked; it is carried out if the answer is yes.
    Ask,
    /// It is carried out.
    Run,
}

/// The running totals of a run.
#[derive(Clone, Copy, Debug, PartialEq, Eq, Structural)]
pub struct Totals {
    /// The bytes matched, in a dry run, or freed.
    pub bytes: u64,
    /// The projects matched, in a dry run, or cleaned.
    pub projects: u64,
}

/// What becomes of a task, given the paths dealt with so far.
///
/// A removal of a path that was dealt with before is passed over. In a dry
/// run a removal is counted and a command passed over. Otherwise the task
/// is carried out, after asking if that is wanted.
pub open spec fn decide(dry_run: bool, interactive: bool, task: TaskView, seen: Seq<Seq<char>>)
    -> Decision {
    match task {
        TaskView::Remove(path, size) => if seen.contains(path) {
            Decision::Pass
        } else if dry_run {
            Decision::Count(size)
        } else if interactive {
            Decision::Ask
        } else {
            Decision::Run
        },
        TaskView::Command(_) => if dry_run {
            Decision::Pass
        } else if interactive {
            Decision::Ask
        } else {
            Decision::Run
        },
    }
}

/// The paths dealt with once the task has been decided on.
pub open spec fn seen_after(task: TaskView, seen: Seq<Seq<char>>) -> Seq<Seq<char>> {
    match task {
        TaskView::Remove(path, _) => if seen.contains(path) {
            seen
        } else {
            seen.push(path)
        },
        TaskView::Command(_) => seen,
    }
}

/// The bytes of a task.
pub open spec fn size_of(task: TaskView) -> u64 {
    match task {
        TaskView::Remove(_, size) => size,
        TaskView::Command(_) => 0,
    }
}

/// What a task adds to the account once it is through: its bytes, and
/// whether it was carried out. `confirmed` is the answer of the user where
/// one was asked for.
pub open spec fn credit(task: TaskView, decision: Decision, confirmed: bool) -> (u64, bool) {
    match decision {
        Decision::Pass => (0, false),
        Decision::Count(bytes) => (bytes, false),
        Decision::Ask => if confirmed {
            (size_of(task), true)
        } else {
            (0, false)
        },
        Decision::Run => (size_of(task), true),
    }
}

/// Whether a directory with this account counts as a project of the run:
/// in a dry run if anything was matched in it, otherwise if anything was
/// carried out.
pub open spec fn counts(dry_run: bool, account: Account) -> bool {
    if dry_run {
        account.matched
    } else {
        account.executed
    }
}

/// The paths dealt with after the first `n` tasks.
pub open spec fn seen_upto(tasks: Seq<TaskView>, seen: Seq<Seq<char>>, n: int) -> Seq<Seq<char>>
    decreases n,
{
    if n <= 0 {
        seen
    } else {
        seen_after(tasks[n - 1], seen_upto(tasks, seen, n - 1))
    }
}

/// The bytes that the first `n` tasks add to the account, when every
/// question is answered with `confirmed` and every task that is carried
/// out succeeds.
pub open spec fn reaped(
    dry_run: bool,
    interactive: bool,
    tasks: Seq<TaskView>,
    seen: Seq<Seq<char>>,
    confirmed: bool,
    n: int,
) -> nat
    decreases n,
{
    if n <= 0 {
        0
    } else {
        reaped(dry_run, interactive, tasks, seen, confirmed, n - 1) + credit(
            tasks[n - 1],
            decide(dry_run, interactive, tasks[n - 1], seen_upto(tasks, seen, n - 1)),
            confirmed,
        ).0 as nat
    }
}

impl Arguments {
    /// Whether nothing is to be printed.
    pub fn quiet(&self) -> (quiet: bool)
        ensures
            quiet == self.quiet,
    {
        self.quiet
    }

    /// Whether a directory last changed at `modified` is due at `now`.
    ///
    /// Without an age every directory is due. With one, a directory is due
    /// when it was changed no later than that age before `now`; if `now`
    /// is less than the age after the start of 1970, when it was changed
    /// no later than that start.
    pub fn is_due(&self, modified: Timestamp, now: Timestamp) -> (due: bool)
        ensures
            due == match self.age {
                None => true,
                Some(age) => if now.total_nanos() >= age.seconds * 1_000_000_000 {
                    modified.total_nanos() <= now.total_nanos() - age.seconds * 1_000_000_000
                } else {
                    modified.total_nanos() <= 0
                },
            },
    {
        match self.age {
            None => true,
            Some(age) => {
                let changed = modified.seconds as u128 * 1_000_000_000 + modified.nanos as u128;
                let current = now.seconds as u128 * 1_000_000_000 + now.nanos as u128;
                let span = age.seconds as u128 * 1_000_000_000;
                if current >= span {
                    changed <= current - span
                } else {
                    changed == 0
                }
            },
        }
    }

    /// The rules that apply to a listing: the places, in `rules`, of those
    /// whose detection holds of it, in ascending order.
    pub fn applicable(&self, rules: &Vec<Rule>, context: &Context) -> (places: Vec<usize>)
        ensures
            forall|k: int| 0 <= k < places.len() ==> (#[trigger] places[k]) < rules.len(),
            forall|k: int, m: int| 0 <= k < m < places.len() ==> places[k] < places[m],
            forall|i: int|
                0 <= i < rules.len() ==> (places@.contains(i as usize) <==> (
                #[trigger] rules[i])@.detection.holds(context.paths())),
    {
        let mut places: Vec<usize> = Vec::new();
        let mut i: usize = 0;
        while i < rules.len()
            invariant
                i <= rules.len(),
                forall|k: int| 0 <= k < places.len() ==> (#[trigger] places[k]) < i,
                forall|k: int, m: int| 0 <= k < m < places.len() ==> places[k] < places[m],
                forall|j: int|
                    0 <= j < i ==> (places@.contains(j as usize) <==> (
                    #[trigger] rules[j])@.detection.holds(context.paths())),
            decreases rules.len() - i,
        {
            let ghost before = places@;
            if rules[i].detection.matches(context) {
                places.push(i);
                proof {
                    assert(places@[before.len() as int] == i);
                    assert forall|j: int| 0 <= j < i + 1 implies (places@.contains(j as usize) <==> (
                    #[trigger] rules[j])@.detection.holds(context.paths())) by {
                        if j < i {
                            if before.contains(j as usize) {
                                let k = choose|k: int| 0 <= k < before.len() && before[k] == j;
                                assert(places@[k] == j);
                            }
                            if places@.contains(j as usize) {
                                let k = choose|k: int| 0 <= k < places@.len() && places@[k] == j;
                                assert(before[k] == j);
                            }
                        }
                    }
                }
            } else {
                proof {
                    assert forall|j: int| 0 <= j < i + 1 implies (places@.contains(j as usize) <==> (
                    #[trigger] rules[j])@.detection.holds(context.paths())) by {
                        if j == i && places@.contains(j as usize) {
                            let k = choose|k: int| 0 <= k < places@.len() && places@[k] == j;
                            assert(places@[k] < i);
                        }
                    }
                }
            }
            i += 1;
        }
        places
    }

    /// Decides what becomes of a task, and notes the path of a removal as
    /// dealt with.
    pub fn process_task(&self, task: &Task, seen: &mut Vec<String>) -> (decision: Decision)
        ensures
            decision == decide(self.dry_run, self.interactive, task_view(*task), views(old(seen)@)),
            views(final(seen)@) == seen_after(task_view(*task), views(old(seen)@)),
    {
        match task {
            Task::Remove { path, size } => {
                let ghost before = seen@;
                if holds(seen, path) {
                    return Decision::Pass;
                }
                seen.push(path.clone());
                proof {
                    assert(views(seen@) =~= views(before).push(path@));
                }
                if self.dry_run {
                    Decision::Count(*size)
                } else if self.interactive {
                    Decision::Ask
                } else {
                    Decision::Run
                }
            },
            Task::Command(_) => {
                if self.dry_run {
                    Decision::Pass
                } else if self.interactive {
                    Decision::Ask
                } else {
                    Decision::Run
                }
            },
        }
    }

    /// Whether a directory counts as a project of this run: in a dry run if
    /// anything was matched in it, otherwise if anything was carried out.
    pub fn should_count(&self, has_matches: bool, executed: bool) -> (counted: bool)
        ensures
            counted == if self.dry_run {
                has_matches
            } else {
                executed
            },
    {
        if self.dry_run {
            has_matches
        } else {
            executed
        }
    }

    /// The words for the two totals of the summary; `None` when nothing is
    /// to be printed.
    pub fn summary_labels(&self) -> (labels: Option<(&'static str, &'static str)>)
        ensures
            match labels {
                None => self.quiet,
                Some((projects, bytes)) => !self.quiet && if self.dry_run {
                    projects@ == "Projects matched"@ && bytes@ == "Bytes matched"@
                } else {
                    projects@ == "Projects cleaned"@ && bytes@ == "Bytes deleted"@
                },
            },
    {
        if self.quiet {
            None
        } else if self.dry_run {
            Some(("Projects matched", "Bytes matched"))
        } else {
            Some(("Projects cleaned", "Bytes deleted"))
        }
    }
}

/// Whether the list holds the text.
fn holds(list: &Vec<String>, text: &String) -> (held: bool)
    ensures
        held == views(list@).contains(text@),
{
    let mut k: usize = 0;
    while k < list.len()
        invariant
            k <= list.len(),
            forall|j: int| 0 <= j < k ==> (#[trigger] views(list@)[j]) != text@,
        decreases list.len() - k,
    {
        if list[k] == *text {
            assert(views(list@)[k as int] == text@);
            return true;
        }
        assert(views(list@)[k as int] != text@);
        k += 1;
    }
    false
}

/// What a task adds to the account once it is through: its bytes, and
/// whether it was carried out.
pub fn account(task: &Task, decision: Decision, confirmed: bool) -> (added: (u64, bool))
    ensures
        added == credit(task_view(*task), decision, confirmed),
{
    let size = match task {
        Task::Remove { path: _, size } => *size,
        Task::Command(_) => 0,
    };
    match decision {
        Decision::Pass => (0, false),
        Decision::Count(bytes) => (bytes, false),
        Decision::Ask => if confirmed {
            (size, true)
        } else {
            (0, false)
        },
        Decision::Run => (size, true),
    }
}

/// The account of one directory while its reports are dealt with.
#[derive(Clone, Copy, Debug, PartialEq, Eq, Structural)]
pub struct Account {
    /// The bytes accounted for so far.
    pub bytes: u64,
    /// Whether any task was carried out.
    pub executed: bool,
    /// Whether any report had a task.
    pub matched: bool,
}

impl Account {
    /// Nothing yet.
    pub fn new() -> (account: Account)
        ensures
            account == (Account { bytes: 0, executed: false, matched: false }),
    {
        Account { bytes: 0, executed: false, matched: false }
    }

    /// The account once a report has come up: a report with a task is a
    /// match.
    pub fn with_report(self, tasks: usize) -> (account: Account)
        ensures
            account == (Account { matched: self.matched || tasks > 0, ..self }),
    {
        Account { bytes: self.bytes, executed: self.executed, matched: self.matched || tasks > 0 }
    }

    /// The account with what a task added; `None` when the bytes do not fit
    /// in 64 bits.
    pub fn with_task(self, added: (u64, bool)) -> (account: Option<Account>)
        ensures
            account == if self.bytes + added.0 <= u64::MAX {
                Some(
                    Account {
                        bytes: (self.bytes + added.0) as u64,
                        executed: self.executed || added.1,
                        ..self
                    },
                )
            } else {
                None
            },
    {
        match self.bytes.checked_add(added.0) {
            None => None,
            Some(bytes) => Some(
                Account { bytes, executed: self.executed || added.1, matched: self.matched },
            ),
        }
    }
}

impl Totals {
    /// Nothing yet.
    pub fn new() -> (totals: Totals)
        ensures
            totals.bytes == 0,
            totals.projects == 0,
    {
        Totals { bytes: 0, projects: 0 }
    }

    /// The totals once a directory is through: if the directory counts as a
    /// project of the run, one project more and its bytes; if not, the
    /// totals as they were. `None` when a total does not fit in 64 bits.
    pub fn with_account(self, arguments: &Arguments, account: Account) -> (totals: Option<Totals>)
        ensures
            totals == if !counts(arguments.dry_run, account) {
                Some(self)
            } else if self.bytes + account.bytes <= u64::MAX && self.projects < u64::MAX {
                Some(
                    Totals {
                        bytes: (self.bytes + account.bytes) as u64,
                        projects: (self.projects + 1) as u64,
                    },
                )
            } else {
                None
            },
    {
        if arguments.should_count(account.matched, account.executed) {
            self.with_project(account.bytes)
        } else {
            Some(self)
        }
    }

    /// The totals with one project more, of so many bytes; `None` when a
    /// total does not fit in 64 bits.
    pub fn with_project(self, bytes: u64) -> (totals: Option<Totals>)
        ensures
            totals == if self.bytes + bytes <= u64::MAX && self.projects < u64::MAX {
                Some(
                    Totals {
                        bytes: (self.bytes + bytes) as u64,
                        projects: (self.projects + 1) as u64,
                    },
                )
            } else {
                None
            },
    {
        match self.bytes.checked_add(bytes) {
            None => None,
            Some(sum) => match self.projects.checked_add(1) {
                None => None,
                Some(projects) => Some(Totals { bytes: sum, projects }),
            },
        }
    }
}

/// The paths dealt with after some tasks are those dealt with before and
/// the paths of the removals among the tasks.
pub proof fn lemma_seen_upto(tasks: Seq<TaskView>, seen: Seq<Seq<char>>, n: int, path: Seq<char>)
    requires
        0 <= n <= tasks.len(),
    ensures
        seen_upto(tasks, seen, n).contains(path) <==> seen.contains(path) || exists|k: int|
            0 <= k < n && removes_path(#[trigger] tasks[k], path),
    decreases n,
{
    if n > 0 {
        lemma_seen_upto(tasks, seen, n - 1, path);
        let before = seen_upto(tasks, seen, n - 1);
        let after = seen_upto(tasks, seen, n);
        if after.contains(path) && !before.contains(path) {
            let k = choose|k: int| 0 <= k < after.len() && after[k] == path;
            if k < before.len() {
                assert(before[k] == path);
            }
            assert(removes_path(tasks[n - 1], path));
        }
        if before.contains(path) {
            let k = choose|k: int| 0 <= k < before.len() && before[k] == path;
            assert(after[k] == path);
        }
        if removes_path(tasks[n - 1], path) && !before.contains(path) {
            assert(after[before.len() as int] == path);
        }
    }
}

/// The task removes this path.
pub open spec fn removes_path(task: TaskView, path: Seq<char>) -> bool {
    match task {
        TaskView::Remove(target, _) => target == path,
        TaskView::Command(_) => false,
    }
}

/// The path of a removal; the empty path for a command.
pub open spec fn target(task: TaskView) -> Seq<char> {
    match task {
        TaskView::Remove(path, _) => path,
        TaskView::Command(_) => Seq::empty(),
    }
}

/// The removal at `i` is of a path that was not dealt with before and that
/// no earlier removal is of.
pub open spec fn fresh_at(tasks: Seq<TaskView>, seen: Seq<Seq<char>>, i: int) -> bool {
    tasks[i] is Remove ==> !seen.contains(target(tasks[i])) && forall|j: int|
        0 <= j < i ==> !removes_path(#[trigger] tasks[j], target(tasks[i]))
}

/// No removal among the first `n` tasks is of a path dealt with before, or
/// of the path of an earlier removal.
pub open spec fn fresh(tasks: Seq<TaskView>, seen: Seq<Seq<char>>, n: int) -> bool {
    forall|i: int| 0 <= i < n ==> #[trigger] fresh_at(tasks, seen, i)
}

/// A dry run counts what a live run frees: over the same tasks, with the
/// same paths dealt with before, a dry run accounts for as many bytes as a
/// run that carries every task out, asking or not, when every question is
/// answered with yes.
pub proof fn lemma_dry_run_accounts_like_live(
    tasks: Seq<TaskView>,
    seen: Seq<Seq<char>>,
    interactive: bool,
    confirmed: bool,
    n: int,
)
    requires
        0 <= n <= tasks.len(),
    ensures
        reaped(true, interactive, tasks, seen, confirmed, n) == reaped(
            false,
            false,
            tasks,
            seen,
            confirmed,
            n,
        ),
        reaped(true, interactive, tasks, seen, confirmed, n) == reaped(
            false,
            true,
            tasks,
            seen,
            true,
            n,
        ),
    decreases n,
{
    if n > 0 {
        lemma_dry_run_accounts_like_live(tasks, seen, interactive, confirmed, n - 1);
    }
}

/// Sizes add up: when no path comes twice, a run that carries every task
/// out accounts for exactly the bytes of the removals among the tasks.
pub proof fn lemma_sizes_add_up(
    tasks: Seq<TaskView>,
    seen: Seq<Seq<char>>,
    confirmed: bool,
    n: int,
)
    requires
        0 <= n <= tasks.len(),
        fresh(tasks, seen, n),
    ensures
        reaped(false, false, tasks, seen, confirmed, n) == total_bytes(tasks.take(n)),
    decreases n,
{
    if n > 0 {
        assert(fresh_at(tasks, seen, n - 1));
        assert forall|i: int| 0 <= i < n - 1 implies #[trigger] fresh_at(tasks, seen, i) by {}
        lemma_sizes_add_up(tasks, seen, confirmed, n - 1);
        assert(tasks.take(n).drop_last() =~= tasks.take(n - 1));
        assert(tasks.take(n).last() == tasks[n - 1]);
        match tasks[n - 1] {
            TaskView::Remove(path, size) => {
                lemma_seen_upto(tasks, seen, n - 1, path);
            },
            TaskView::Command(_) => {},
        }
    }
}

/// The paths of measured paths.
pub open spec fn measured_paths(measured: Seq<Measured>) -> Seq<Seq<char>> {
    Seq::new(measured.len(), |i: int| measured[i].path@)
}

/// What a report says is what a run frees: when the removals of a report
/// are in ascending path order, as pruning leaves them, a run that starts
/// with no path dealt with and carries every task out accounts for exactly
/// the bytes of the report.
pub proof fn lemma_report_bytes_are_freed(
    commands: Seq<Seq<char>>,
    measured: Seq<Measured>,
    confirmed: bool,
)
    requires
        ascending(measured_paths(measured)),
    ensures
        reaped(
            false,
            false,
            command_tasks(commands) + removal_tasks(measured),
            Seq::empty(),
            confirmed,
            (commands.len() + measured.len()) as int,
        ) == total_bytes(command_tasks(commands) + removal_tasks(measured)),
{
    let tasks = command_tasks(commands) + removal_tasks(measured);
    let paths = measured_paths(measured);
    let seen = Seq::<Seq<char>>::empty();
    assert forall|i: int| 0 <= i < tasks.len() implies #[trigger] fresh_at(tasks, seen, i) by {
        if tasks[i] is Remove {
            let m = i - commands.len();
            assert(target(tasks[i]) == paths[m]);
            assert forall|j: int| 0 <= j < i implies !removes_path(
                #[trigger] tasks[j],
                target(tasks[i]),
            ) by {
                if j >= commands.len() {
                    let k = j - commands.len();
                    assert(path_lt(paths[k], paths[m]));
                    lemma_lt_irreflexive(paths[m]);
                }
            }
        }
    }
    lemma_sizes_add_up(tasks, seen, confirmed, tasks.len() as int);
    assert(tasks.take(tasks.len() as int) =~= tasks);
}

} // verus!
