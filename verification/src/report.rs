//! Reports: the tasks that one rule comes to in one directory.

use crate::age::Timestamp;
use crate::task::Task;
use vstd::prelude::*;

verus! {

/// What one rule has to do in one directory.
#[derive(Debug)]
pub struct Report {
    /// The directory.
    pub root: String,
    /// The name of the rule.
    pub rule_name: String,
    /// When the directory was last changed.
    pub modified: Timestamp,
    /// The commands of the rule in their order, then the removals in path
    /// order.
    pub tasks: Vec<Task>,
}

/// A path measured: the path and its size in bytes.
#[derive(Debug)]
pub struct Measured {
    pub path: String,
    pub size: u64,
}

/// One task as plain values: the command, or the path and size.
pub enum TaskView {
    Command(Seq<char>),
    Remove(Seq<char>, u64),
}

/// A task as plain values.
pub open spec fn task_view(task: Task) -> TaskView {
    match task {
        Task::Command(text) => TaskView::Command(text@),
        Task::Remove { path, size } => TaskView::Remove(path@, size),
    }
}

/// The tasks of a list as plain values.
pub open spec fn task_views(tasks: Seq<Task>) -> Seq<TaskView> {
    Seq::new(tasks.len(), |i: int| task_view(tasks[i]))
}

/// One more task is one more view.
pub proof fn lemma_task_views_push(tasks: Seq<Task>, task: Task)
    ensures
        task_views(tasks.push(task)) == task_views(tasks).push(task_view(task)),
{
    assert(task_views(tasks.push(task)) =~= task_views(tasks).push(task_view(task)));
}

/// One more command is one more command task.
pub proof fn lemma_command_tasks_push(commands: Seq<Seq<char>>, command: Seq<char>)
    ensures
        command_tasks(commands.push(command)) == command_tasks(commands).push(
            TaskView::Command(command),
        ),
{
    assert(command_tasks(commands.push(command)) =~= command_tasks(commands).push(
        TaskView::Command(command),
    ));
}

/// One more measured path is one more removal task.
pub proof fn lemma_removal_tasks_take(measured: Seq<Measured>, k: int)
    requires
        0 <= k < measured.len(),
    ensures
        removal_tasks(measured.take(k + 1)) == removal_tasks(measured.take(k)).push(
            TaskView::Remove(measured[k].path@, measured[k].size),
        ),
{
    assert(removal_tasks(measured.take(k + 1)) =~= removal_tasks(measured.take(k)).push(
        TaskView::Remove(measured[k].path@, measured[k].size),
    ));
}

/// One command task for each command.
pub open spec fn command_tasks(commands: Seq<Seq<char>>) -> Seq<TaskView> {
    Seq::new(commands.len(), |i: int| TaskView::Command(commands[i]))
}

/// One removal task for each measured path.
pub open spec fn removal_tasks(measured: Seq<Measured>) -> Seq<TaskView> {
    Seq::new(measured.len(), |i: int| TaskView::Remove(measured[i].path@, measured[i].size))
}

/// The bytes of the removals among the tasks.
pub open spec fn total_bytes(tasks: Seq<TaskView>) -> nat
    decreases tasks.len(),
{
    if tasks.len() == 0 {
        0
    } else {
        total_bytes(tasks.drop_last()) + match tasks.last() {
            TaskView::Remove(_, size) => size as nat,
            TaskView::Command(_) => 0,
        }
    }
}

impl Report {
    /// The tasks as plain values.
    pub open spec fn view_tasks(&self) -> Seq<TaskView> {
        task_views(self.tasks@)
    }

    /// The bytes that the report frees, if their sum fits in 64 bits.
    pub fn bytes(&self) -> (sum: Option<u64>)
        ensures
            sum == if total_bytes(self.view_tasks()) <= u64::MAX {
                Some(total_bytes(self.view_tasks()) as u64)
            } else {
                None
            },
    {
        let ghost views = self.view_tasks();
        let mut sum: u64 = 0;
        let mut i: usize = 0;
        while i < self.tasks.len()
            invariant
                i <= self.tasks.len(),
                views == task_views(self.tasks@),
                sum == total_bytes(views.take(i as int)),
            decreases self.tasks.len() - i,
        {
            proof {
                assert(views.take(i + 1).drop_last() =~= views.take(i as int));
                lemma_total_grows(views, i + 1);
            }
            if let Task::Remove { path: _, size } = &self.tasks[i] {
                match sum.checked_add(*size) {
                    Some(more) => {
                        sum = more;
                    },
                    None => {
                        return None;
                    },
                }
            }
            i += 1;
        }
        assert(views.take(i as int) =~= views);
        Some(sum)
    }
}

/// The bytes of the first tasks are no more than the bytes of all.
pub proof fn lemma_total_grows(tasks: Seq<TaskView>, n: int)
    requires
        0 <= n <= tasks.len(),
    ensures
        total_bytes(tasks.take(n)) <= total_bytes(tasks),
    decreases tasks.len() - n,
{
    if n == tasks.len() {
        assert(tasks.take(n) =~= tasks);
    } else {
        lemma_total_grows(tasks, n + 1);
        assert(tasks.take(n + 1).drop_last() =~= tasks.take(n));
    }
}

} // verus!
