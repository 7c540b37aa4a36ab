//! The frozen listing of one directory, and what a rule selects in it.

use crate::activity::activity_time;
use crate::activity::ActivityEntry;
use crate::activity::newest;
use crate::age::Timestamp;
use crate::detection::present;
use crate::glob::compile;
use crate::glob::glob_accepts;
use crate::glob::matcher_accepts;
use crate::glob::matcher_pattern;
use crate::glob::usable;
use crate::listing::Entry;
use crate::listing::grown_at;
use crate::listing::holds_path;
use crate::listing::listing_of;
use crate::listing::paths_of;
use crate::listing::put;
use crate::path::ascending;
use crate::path::views;
use crate::prune::lemma_pruned_ascending;
use crate::prune::PathKind;
use crate::prune::prune;
use crate::prune::pruned;
use crate::report::command_tasks;
use crate::report::lemma_command_tasks_push;
use crate::report::lemma_removal_tasks_take;
use crate::report::lemma_task_views_push;
use crate::report::Measured;
use crate::report::removal_tasks;
use crate::report::Report;
use crate::report::task_views;
use crate::report::TaskView;
use crate::rule::Action;
use crate::rule::action_views;
use crate::rule::ActionView;
use crate::rule::chosen;
use crate::rule::commands;
use crate::rule::lemma_chosen_ascending;
use crate::rule::removal_pattern;
use crate::rule::removes;
use crate::rule::Rule;
use crate::rule::selected;
use crate::task::Task;
use globset::GlobMatcher;
use vstd::prelude::*;

verus! {

/// What a walk of a directory tree reports, one event after another.
#[derive(Debug)]
pub enum WalkEvent {
    /// An entry was visited. `depth` is 0 for the root of the walk itself.
    Found { path: String, depth: usize, is_dir: bool },
    /// Something could not be read. `depth` is 0 when it was the root.
    Failed { depth: usize, message: String },
}

/// The root of a walk could not be read, so no listing was taken.
#[derive(Debug, PartialEq, Eq)]
pub struct WalkError {
    /// What the walk said of the failure.
    pub message: String,
}

/// The listing of one directory tree, taken once and never changed.
#[derive(Debug)]
pub struct Context {
    root: String,
    follow_symlinks: bool,
    entries: Vec<Entry>,
}

/// The message of the first failure at the root, if there is one.
pub open spec fn root_failure(events: Seq<WalkEvent>) -> Option<Seq<char>>
    decreases events.len(),
{
    if events.len() == 0 {
        None
    } else {
        match root_failure(events.drop_last()) {
            Some(message) => Some(message),
            None => match events.last() {
                WalkEvent::Failed { depth, message } if depth == 0 => Some(message@),
                _ => None,
            },
        }
    }
}

/// Whether the first visit of `path` below the root found a directory;
/// `None` if the walk never visited it.
pub open spec fn first_found(events: Seq<WalkEvent>, path: Seq<char>) -> Option<bool>
    decreases events.len(),
{
    if events.len() == 0 {
        None
    } else {
        match first_found(events.drop_last(), path) {
            Some(is_dir) => Some(is_dir),
            None => match events.last() {
                WalkEvent::Found { path: found, depth, is_dir } if depth > 0 && found@ == path
                    => Some(is_dir),
                _ => None,
            },
        }
    }
}

/// The paths of the entries of the wanted kind, in their order.
pub open spec fn of_kind(listing: Seq<(Seq<char>, bool)>, directories: bool) -> Seq<Seq<char>>
    decreases listing.len(),
{
    if listing.len() == 0 {
        Seq::empty()
    } else {
        let rest = of_kind(listing.drop_last(), directories);
        if listing.last().1 == directories {
            rest.push(listing.last().0)
        } else {
            rest
        }
    }
}

/// A failure at the root among the first events is one among all of them.
proof fn lemma_root_failure_stays(events: Seq<WalkEvent>, n: int)
    requires
        0 <= n <= events.len(),
        root_failure(events.take(n)) is Some,
    ensures
        root_failure(events) == root_failure(events.take(n)),
    decreases events.len() - n,
{
    if n < events.len() {
        assert(events.take(n + 1).drop_last() =~= events.take(n));
        lemma_root_failure_stays(events, n + 1);
    } else {
        assert(events.take(n) =~= events);
    }
}

/// What the entries say of `path` is what the walk first found of it.
spec fn records(entries: Seq<Entry>, events: Seq<WalkEvent>) -> bool {
    forall|path: Seq<char>, is_dir: bool|
        listing_of(entries).contains((path, is_dir)) <==> first_found(events, path) == Some(is_dir)
}

/// Taking one more event in: a new path below the root is put in its place,
/// anything else leaves the entries as they are.
proof fn lemma_records_step(
    entries: Seq<Entry>,
    events: Seq<WalkEvent>,
    n: int,
    at: int,
    next: Seq<Entry>,
)
    requires
        0 <= n < events.len(),
        records(entries, events.take(n)),
        match events[n] {
            WalkEvent::Found { path, depth, is_dir } => if depth > 0 {
                if holds_path(entries, path@) {
                    next == entries
                } else {
                    grown_at(entries, next, at, path@, is_dir)
                }
            } else {
                next == entries
            },
            WalkEvent::Failed { .. } => next == entries,
        },
    ensures
        records(next, events.take(n + 1)),
{
    let before = events.take(n);
    let now = events.take(n + 1);
    assert(now.drop_last() =~= before);
    assert(now.last() == events[n]);
    let old_listing = listing_of(entries);
    let new_listing = listing_of(next);
    assert forall|path: Seq<char>, is_dir: bool|
        new_listing.contains((path, is_dir)) <==> first_found(now, path) == Some(is_dir) by {
        assert(old_listing.contains((path, is_dir)) <==> first_found(before, path) == Some(is_dir));
        assert(old_listing.contains((path, !is_dir)) <==> first_found(before, path) == Some(
            !is_dir,
        ));
        let fresh = match events[n] {
            WalkEvent::Found { path: found, depth, is_dir: _ } => depth > 0 && !(exists|k: int|
                0 <= k < entries.len() && #[trigger] entries[k].path@ == found@),
            WalkEvent::Failed { .. } => false,
        };
        if fresh {
            let found = events[n]->Found_path;
            let kind = events[n]->Found_is_dir;
            if new_listing.contains((path, is_dir)) {
                let k = choose|k: int|
                    0 <= k < new_listing.len() && new_listing[k] == (path, is_dir);
                if k < at {
                    assert(old_listing[k] == (path, is_dir));
                } else if k > at {
                    assert(old_listing[k - 1] == (path, is_dir));
                } else {
                    assert(path == found@ && is_dir == kind);
                    if first_found(before, path) is Some {
                        let d = first_found(before, path)->0;
                        assert(old_listing.contains((path, d)));
                        let m = choose|m: int|
                            0 <= m < old_listing.len() && old_listing[m] == (path, d);
                        assert(entries[m].path@ == found@);
                    }
                }
            }
            if first_found(now, path) == Some(is_dir) {
                if first_found(before, path) == Some(is_dir) {
                    let m = choose|m: int|
                        0 <= m < old_listing.len() && old_listing[m] == (path, is_dir);
                    if m < at {
                        assert(new_listing[m] == (path, is_dir));
                    } else {
                        assert(new_listing[m + 1] == (path, is_dir));
                    }
                } else {
                    assert(first_found(before, path) is None);
                    assert(new_listing[at] == (path, is_dir));
                }
            }
        } else {
            assert(next == entries);
            match events[n] {
                WalkEvent::Found { path: found, depth, is_dir: kind } => {
                    if depth > 0 && found@ == path {
                        let k = choose|k: int|
                            0 <= k < entries.len() && #[trigger] entries[k].path@ == found@;
                        assert(old_listing[k] == (path, entries[k].is_dir));
                        assert(old_listing.contains((path, entries[k].is_dir)));
                    }
                },
                WalkEvent::Failed { .. } => {},
            }
        }
    }
}

/// The slot holds the matcher of the action's pattern, if the action is a
/// removal with a usable pattern, and nothing otherwise.
spec fn slot_for(slot: Option<GlobMatcher>, action: ActionView) -> bool {
    match slot {
        Some(matcher) => {
            &&& action is Remove
            &&& usable(removal_pattern(action))
            &&& matcher_pattern(matcher) == removal_pattern(action)
        },
        None => !(action is Remove && usable(removal_pattern(action))),
    }
}

/// One slot for each action.
spec fn compiled_from(slots: Seq<Option<GlobMatcher>>, actions: Seq<ActionView>) -> bool {
    &&& slots.len() == actions.len()
    &&& forall|i: int| 0 <= i < slots.len() ==> slot_for(#[trigger] slots[i], actions[i])
}

/// Compiles the removal patterns of a list of actions.
fn compile_removals(actions: &Vec<Action>) -> (slots: Vec<Option<GlobMatcher>>)
    ensures
        compiled_from(slots@, action_views(actions@)),
{
    let mut slots: Vec<Option<GlobMatcher>> = Vec::new();
    let mut i: usize = 0;
    while i < actions.len()
        invariant
            i <= actions.len(),
            compiled_from(slots@, action_views(actions@).take(i as int)),
        decreases actions.len() - i,
    {
        let slot = match &actions[i] {
            Action::Remove(pattern) => compile(pattern.as_str()),
            Action::Command(_) => None,
        };
        assert(slot_for(slot, action_views(actions@)[i as int]));
        slots.push(slot);
        i += 1;
    }
    assert(action_views(actions@).take(i as int) =~= action_views(actions@));
    slots
}

/// Whether some compiled pattern accepts the path.
fn any_accepts(
    slots: &Vec<Option<GlobMatcher>>,
    path: &str,
    Ghost(actions): Ghost<Seq<ActionView>>,
) -> (r: bool)
    requires
        compiled_from(slots@, actions),
    ensures
        r == selected(actions, path@),
{
    let mut k: usize = 0;
    while k < slots.len()
        invariant
            k <= slots.len(),
            compiled_from(slots@, actions),
            forall|j: int| 0 <= j < k ==> !removes(#[trigger] actions[j], path@),
        decreases slots.len() - k,
    {
        if let Some(matcher) = &slots[k] {
            if matcher_accepts(matcher, path) {
                assert(slot_for(slots@[k as int], actions[k as int]));
                assert(removes(actions[k as int], path@));
                return true;
            }
        }
        assert(slot_for(slots@[k as int], actions[k as int]));
        k += 1;
    }
    false
}

impl Context {
    /// The entries of the listing: each path with whether it is a directory.
    pub closed spec fn listing(&self) -> Seq<(Seq<char>, bool)> {
        listing_of(self.entries@)
    }

    /// `path` is a directory of the listing.
    pub open spec fn has_directory(&self, path: Seq<char>) -> bool {
        self.listing().contains((path, true))
    }

    /// `path` is in the listing and is not a directory.
    pub open spec fn has_file(&self, path: Seq<char>) -> bool {
        self.listing().contains((path, false))
    }

    /// The paths of the listing, directories and files alike, in path order.
    pub open spec fn paths(&self) -> Seq<Seq<char>> {
        paths_of(self.listing())
    }

    /// No path occurs twice, and the listing is in path order.
    pub open spec fn wf(&self) -> bool {
        ascending(self.paths())
    }

    #[verifier::type_invariant]
    spec fn inv(&self) -> bool {
        self.wf()
    }

    /// The root that the listing was taken of.
    pub closed spec fn root_view(&self) -> Seq<char> {
        self.root@
    }

    /// Whether links were followed when the listing was taken.
    pub closed spec fn follows(&self) -> bool {
        self.follow_symlinks
    }

    /// The paths that the actions of a rule select, in path order.
    pub open spec fn selection(&self, rule: &Rule) -> Seq<Seq<char>> {
        chosen(self.paths(), rule@.actions)
    }

    /// Takes the listing of `root` from what a walk of it reported.
    ///
    /// The root itself is left out. A path that the walk visited more than
    /// once is listed as it was first found. A failure below the root is
    /// passed over; a failure at the root fails the whole listing.
    pub fn new(root: String, follow_symlinks: bool, events: &Vec<WalkEvent>) -> (made: Result<
        Context,
        WalkError,
    >)
        ensures
            match made {
                Ok(context) => {
                    &&& root_failure(events@) is None
                    &&& context.root_view() == root@
                    &&& context.follows() == follow_symlinks
                    &&& context.wf()
                    &&& forall|path: Seq<char>|
                        context.has_directory(path) <==> first_found(events@, path) == Some(true)
                    &&& forall|path: Seq<char>|
                        context.has_file(path) <==> first_found(events@, path) == Some(false)
                },
                Err(error) => root_failure(events@) == Some(error.message@),
            },
    {
        let mut entries: Vec<Entry> = Vec::new();
        let mut i: usize = 0;
        assert(records(entries@, events@.take(0))) by {
            assert forall|path: Seq<char>, is_dir: bool|
                !listing_of(entries@).contains((path, is_dir)) by {}
        }
        while i < events.len()
            invariant
                i <= events.len(),
                root_failure(events@.take(i as int)) is None,
                ascending(paths_of(listing_of(entries@))),
                records(entries@, events@.take(i as int)),
            decreases events.len() - i,
        {
            proof {
                assert(events@.take(i + 1).drop_last() =~= events@.take(i as int));
                assert(events@.take(i + 1).last() == events@[i as int]);
            }
            let ghost before = entries@;
            let ghost mut at: int = 0;
            match &events[i] {
                WalkEvent::Failed { depth, message } => {
                    if *depth == 0 {
                        proof {
                            lemma_root_failure_stays(events@, i + 1);
                        }
                        return Err(WalkError { message: message.clone() });
                    }
                },
                WalkEvent::Found { path, depth, is_dir } => {
                    if *depth > 0 {
                        let placed = put(&mut entries, path.as_str(), *is_dir);
                        proof {
                            if let Some(place) = placed {
                                at = place as int;
                            }
                        }
                    }
                },
            }
            proof {
                lemma_records_step(before, events@, i as int, at, entries@);
            }
            i += 1;
        }
        proof {
            assert(events@.take(i as int) =~= events@);
        }
        Ok(Context { root, follow_symlinks, entries })
    }

    /// The root that the listing was taken of.
    pub fn root(&self) -> (root: &String)
        ensures
            root@ == self.root_view(),
    {
        &self.root
    }

    /// Whether links were followed when the listing was taken.
    pub fn follow_symlinks(&self) -> (follow: bool)
        ensures
            follow == self.follows(),
    {
        self.follow_symlinks
    }

    /// The entries of the listing, in path order.
    pub fn entries(&self) -> (entries: &Vec<Entry>)
        ensures
            listing_of(entries@) == self.listing(),
    {
        &self.entries
    }

    /// The directories of the listing, in path order.
    pub fn directories(&self) -> (paths: Vec<String>)
        ensures
            views(paths@) == of_kind(self.listing(), true),
    {
        self.paths_of_kind(true)
    }

    /// The paths of the listing that are not directories, in path order.
    pub fn files(&self) -> (paths: Vec<String>)
        ensures
            views(paths@) == of_kind(self.listing(), false),
    {
        self.paths_of_kind(false)
    }

    fn paths_of_kind(&self, directories: bool) -> (paths: Vec<String>)
        ensures
            views(paths@) == of_kind(self.listing(), directories),
    {
        let mut paths: Vec<String> = Vec::new();
        let mut i: usize = 0;
        while i < self.entries.len()
            invariant
                i <= self.entries.len(),
                views(paths@) == of_kind(self.listing().take(i as int), directories),
            decreases self.entries.len() - i,
        {
            let ghost before = paths@;
            proof {
                assert(self.listing().take(i + 1).drop_last() =~= self.listing().take(i as int));
            }
            if self.entries[i].is_dir == directories {
                paths.push(self.entries[i].path.clone());
                proof {
                    assert(views(paths@) =~= views(before).push(self.entries@[i as int].path@));
                }
            }
            i += 1;
        }
        proof {
            assert(self.listing().take(i as int) =~= self.listing());
        }
        paths
    }

    /// Whether some path of the listing matches the pattern. A pattern that
    /// cannot be compiled matches nothing.
    pub fn contains(&self, pattern: &str) -> (r: bool)
        ensures
            r == present(pattern@, self.paths()),
    {
        match compile(pattern) {
            None => false,
            Some(matcher) => {
                let mut i: usize = 0;
                while i < self.entries.len()
                    invariant
                        i <= self.entries.len(),
                        usable(pattern@),
                        matcher_pattern(matcher) == pattern@,
                        forall|j: int|
                            0 <= j < i ==> !glob_accepts(pattern@, #[trigger] self.paths()[j]),
                    decreases self.entries.len() - i,
                {
                    if matcher_accepts(&matcher, self.entries[i].path.as_str()) {
                        assert(glob_accepts(pattern@, self.paths()[i as int]));
                        return true;
                    }
                    i += 1;
                }
                false
            },
        }
    }

    /// The paths of the listing that some removal pattern of the rule
    /// accepts, each once, in path order. A pattern that cannot be compiled
    /// selects nothing.
    pub fn candidates(&self, rule: &Rule) -> (found: Vec<String>)
        ensures
            views(found@) == self.selection(rule),
            ascending(views(found@)),
    {
        proof {
            use_type_invariant(self);
            lemma_chosen_ascending(self.paths(), rule@.actions);
        }
        let matchers = compile_removals(&rule.actions);
        let mut found: Vec<String> = Vec::new();
        let mut i: usize = 0;
        while i < self.entries.len()
            invariant
                i <= self.entries.len(),
                compiled_from(matchers@, rule@.actions),
                views(found@) == chosen(self.paths().take(i as int), rule@.actions),
            decreases self.entries.len() - i,
        {
            let ghost before = found@;
            proof {
                assert(self.paths().take(i + 1).drop_last() =~= self.paths().take(i as int));
            }
            if any_accepts(&matchers, self.entries[i].path.as_str(), Ghost(rule@.actions)) {
                found.push(self.entries[i].path.clone());
                proof {
                    assert(views(found@) =~= views(before).push(self.paths()[i as int]));
                }
            }
            i += 1;
        }
        proof {
            assert(self.paths().take(i as int) =~= self.paths());
        }
        found
    }

    /// The paths that the rule removes: its candidates, without those that
    /// are gone and those that lie within a kept directory.
    ///
    /// `kinds[i]` is what a fresh look at the `i`-th candidate found.
    pub fn matches(&self, rule: &Rule, kinds: &Vec<PathKind>) -> (kept: Vec<String>)
        ensures
            views(kept@) == pruned(self.selection(rule), kinds@),
            ascending(views(kept@)),
    {
        let found = self.candidates(rule);
        proof {
            lemma_pruned_ascending(views(found@), kinds@, found@.len() as int);
        }
        prune(&found, kinds)
    }

    /// When the project in this listing was last worked on: the latest
    /// time of a regular file outside the directories that build tools
    /// fill, or the time of the root when there is no such file.
    pub fn activity_modified_time(
        &self,
        entries: &Vec<ActivityEntry>,
        root_modified: Timestamp,
    ) -> (time: Timestamp)
        ensures
            time == if newest(entries@) == (Timestamp { seconds: 0, nanos: 0 }) {
                root_modified
            } else {
                newest(entries@)
            },
    {
        activity_time(entries, root_modified)
    }

    /// Puts the report of a rule together: a task for each command of the
    /// rule, in the order of its actions, and after them a removal for each
    /// measured path, in the order given.
    pub fn report(&self, rule: &Rule, measured: Vec<Measured>, modified: Timestamp) -> (report:
        Report)
        ensures
            report.root@ == self.root_view(),
            report.rule_name@ == rule.name@,
            report.modified == modified,
            report.view_tasks() == command_tasks(commands(rule@.actions)) + removal_tasks(
                measured@,
            ),
    {
        let mut tasks: Vec<Task> = Vec::new();
        let mut i: usize = 0;
        while i < rule.actions.len()
            invariant
                i <= rule.actions.len(),
                task_views(tasks@) == command_tasks(commands(rule@.actions.take(i as int))),
            decreases rule.actions.len() - i,
        {
            proof {
                assert(rule@.actions.take(i + 1).drop_last() =~= rule@.actions.take(i as int));
            }
            if let Action::Command(text) = &rule.actions[i] {
                let ghost before = tasks@;
                tasks.push(Task::Command(text.clone()));
                proof {
                    lemma_task_views_push(before, Task::Command(*text));
                    lemma_command_tasks_push(commands(rule@.actions.take(i as int)), text@);
                }
            }
            i += 1;
        }
        proof {
            assert(rule@.actions.take(i as int) =~= rule@.actions);
        }
        let ghost first = task_views(tasks@);
        let mut k: usize = 0;
        while k < measured.len()
            invariant
                k <= measured.len(),
                task_views(tasks@) == first + removal_tasks(measured@.take(k as int)),
            decreases measured.len() - k,
        {
            let ghost before = tasks@;
            tasks.push(Task::Remove { path: measured[k].path.clone(), size: measured[k].size });
            proof {
                lemma_task_views_push(before, tasks@[before.len() as int]);
                assert(tasks@ =~= before.push(tasks@[before.len() as int]));
                lemma_removal_tasks_take(measured@, k as int);
                assert((first + removal_tasks(measured@.take(k as int))).push(
                    TaskView::Remove(measured@[k as int].path@, measured@[k as int].size),
                ) =~= first + removal_tasks(measured@.take(k + 1)));
            }
            k += 1;
        }
        proof {
            assert(measured@.take(k as int) =~= measured@);
        }
        Report { root: self.root.clone(), rule_name: rule.name.clone(), modified, tasks }
    }
}

} // verus!
