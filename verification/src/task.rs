//! Tasks: the concrete pieces of work that a rule comes to in one
//! directory, and how each is carried out.
//!
//! The library does not touch the file system. Carrying out a task is a
//! short exchange: the library names an operation, the caller performs it
//! and reports what came of it, and the library says what follows.

use crate::context::Context;
use crate::text::blank;
use crate::text::trim;
use crate::text::trimmed;
use vstd::prelude::*;
use vstd::string::*;

verus! {

/// One piece of work.
#[derive(Debug, PartialEq, Eq)]
pub enum Task {
    /// Run a shell command in the root.
    Command(String),
    /// Remove a path, given relative to the root, of so many bytes.
    Remove { path: String, size: u64 },
}

/// What the caller is asked to do.
#[derive(Debug, PartialEq, Eq)]
pub enum Operation {
    /// Look at the path below the root, through links or not.
    Inspect { path: String, follow: bool },
    /// Remove the file, or the link itself, at the path below the root.
    RemoveFile { path: String },
    /// Remove the directory at the path below the root with all it holds.
    RemoveTree { path: String },
    /// Run the command through the shell, in the given directory.
    Run { command: String, directory: String },
}

/// What a look at a path found.
#[derive(Debug)]
pub enum Probe {
    /// Something is there.
    Found { is_dir: bool, is_symlink: bool },
    /// Nothing is there.
    NotFound,
    /// The path could not be examined.
    Failed(String),
}

/// What came of a removal.
#[derive(Debug)]
pub enum Removal {
    /// The path is gone.
    Done,
    /// Nothing was there to remove.
    NotFound,
    /// The removal failed.
    Failed(String),
}

/// What came of a command.
#[derive(Debug)]
pub enum Exit {
    /// It ran and reported success.
    Success,
    /// It ran and reported failure.
    Failure,
    /// It could not be started.
    NotStarted(String),
}

/// Why a task failed.
#[derive(Debug, PartialEq, Eq)]
pub enum TaskError {
    /// The command is empty or blank.
    EmptyCommand,
    /// The command reported failure.
    CommandFailed { command: String, root: String },
    /// The file system or the shell refused; holds what it said.
    Io(String),
}

/// Where a task stands: something is left to do, or it is over.
#[derive(Debug, PartialEq, Eq)]
pub enum Progress {
    Next(Operation),
    Finished(Result<(), TaskError>),
}

/// The words for a failed command.
pub open spec fn command_failed_message(command: Seq<char>, root: Seq<char>) -> Seq<char> {
    "command `"@ + command + "` failed in `"@ + root + "`"@
}

impl TaskError {
    /// The failure in words.
    pub fn message(&self) -> (text: String)
        ensures
            match self {
                TaskError::EmptyCommand => text@ == "command action cannot be empty"@,
                TaskError::CommandFailed { command, root } => text@ == command_failed_message(
                    command@,
                    root@,
                ),
                TaskError::Io(said) => text@ == said@,
            },
    {
        match self {
            TaskError::EmptyCommand => "command action cannot be empty".to_owned(),
            TaskError::CommandFailed { command, root } => "command `".to_owned().concat(
                command.as_str(),
            ).concat("` failed in `").concat(root.as_str()).concat("`"),
            TaskError::Io(said) => said.clone(),
        }
    }
}

impl Task {
    /// The bytes that the task frees: the size of a removal, nothing for a
    /// command.
    pub open spec fn bytes(self) -> nat {
        match self {
            Task::Remove { path, size } => size as nat,
            Task::Command(_) => 0,
        }
    }

    /// Starts the task: says what is to be done first.
    ///
    /// A command is trimmed; a blank one fails at once, any other is to be
    /// run in the root. A removal begins with a look at its path, through
    /// links exactly if the listing was taken through links.
    pub fn execute(&self, context: &Context) -> (progress: Progress)
        ensures
            match *self {
                Task::Command(text) => if blank(text@) {
                    progress matches Progress::Finished(Err(TaskError::EmptyCommand))
                } else {
                    progress matches Progress::Next(Operation::Run { command, directory })
                        && command@ == trimmed(text@) && directory@ == context.root_view()
                },
                Task::Remove { path, size } => progress matches Progress::Next(
                    Operation::Inspect { path: target, follow },
                ) && target@ == path@ && follow == context.follows(),
            },
    {
        match self {
            Task::Command(text) => {
                let command = trim(text.as_str());
                if command.as_str().unicode_len() == 0 {
                    Progress::Finished(Err(TaskError::EmptyCommand))
                } else {
                    Progress::Next(Operation::Run { command, directory: context.root().clone() })
                }
            },
            Task::Remove { path, size: _ } => Progress::Next(
                Operation::Inspect { path: path.clone(), follow: context.follow_symlinks() },
            ),
        }
    }
}

/// What follows the look at the path of a removal.
///
/// A path that is not there needs no removal: the task is over, and has
/// succeeded. A link that was not followed is removed as a link; a
/// directory is removed with all it holds; anything else is removed as a
/// file. A look that failed for another reason fails the task.
pub fn after_inspect(path: &str, follow: bool, probe: &Probe) -> (progress: Progress)
    ensures
        match *probe {
            Probe::NotFound => progress matches Progress::Finished(Ok(())),
            Probe::Failed(said) => progress matches Progress::Finished(Err(TaskError::Io(told)))
                && told@ == said@,
            Probe::Found { is_dir, is_symlink } => if !follow && is_symlink {
                progress matches Progress::Next(Operation::RemoveFile { path: target })
                    && target@ == path@
            } else if is_dir {
                progress matches Progress::Next(Operation::RemoveTree { path: target })
                    && target@ == path@
            } else {
                progress matches Progress::Next(Operation::RemoveFile { path: target })
                    && target@ == path@
            },
        },
{
    match probe {
        Probe::NotFound => Progress::Finished(Ok(())),
        Probe::Failed(said) => Progress::Finished(Err(TaskError::Io(said.clone()))),
        Probe::Found { is_dir, is_symlink } => {
            if !follow && *is_symlink {
                Progress::Next(Operation::RemoveFile { path: path.to_owned() })
            } else if *is_dir {
                Progress::Next(Operation::RemoveTree { path: path.to_owned() })
            } else {
                Progress::Next(Operation::RemoveFile { path: path.to_owned() })
            }
        },
    }
}

/// How a removal ends: well if the path is gone, whoever removed it.
pub fn after_removal(outcome: &Removal) -> (result: Result<(), TaskError>)
    ensures
        match *outcome {
            Removal::Done => result is Ok,
            Removal::NotFound => result is Ok,
            Removal::Failed(said) => result matches Err(TaskError::Io(told)) && told@ == said@,
        },
{
    match outcome {
        Removal::Done => Ok(()),
        Removal::NotFound => Ok(()),
        Removal::Failed(said) => Err(TaskError::Io(said.clone())),
    }
}

/// How a command ends: well only if it ran and reported success.
pub fn after_command(command: &str, directory: &str, exit: &Exit) -> (result: Result<
    (),
    TaskError,
>)
    ensures
        match *exit {
            Exit::Success => result is Ok,
            Exit::Failure => result matches Err(TaskError::CommandFailed { command: c, root: r })
                && c@ == command@ && r@ == directory@,
            Exit::NotStarted(said) => result matches Err(TaskError::Io(told)) && told@ == said@,
        },
{
    match exit {
        Exit::Success => Ok(()),
        Exit::Failure => Err(
            TaskError::CommandFailed { command: command.to_owned(), root: directory.to_owned() },
        ),
        Exit::NotStarted(said) => Err(TaskError::Io(said.clone())),
    }
}

} // verus!
