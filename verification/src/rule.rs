//! Rules: what marks a kind of project, and what to do about its leftovers.

use crate::detection::Detection;
use crate::detection::DetectionView;
use crate::glob::glob_accepts;
use crate::glob::usable;
use crate::path::ascending;
use crate::path::path_lt;
use vstd::prelude::*;

verus! {

/// One step of a rule.
#[derive(Debug, PartialEq, Eq)]
pub enum Action {
    /// Remove every path that the glob pattern selects.
    Remove(String),
    /// Run a shell command in the root of the project.
    Command(String),
}

/// A kind of project: how to recognise it and how to clean it.
#[derive(Debug)]
pub struct Rule {
    /// The key under which the rule is known; unique among the active rules.
    pub id: String,
    /// The name shown to the user.
    pub name: String,
    /// Decides whether the rule applies to a directory.
    pub detection: Detection,
    /// What to do where it applies, in order.
    pub actions: Vec<Action>,
}

/// An action as plain values.
pub enum ActionView {
    Remove(Seq<char>),
    Command(Seq<char>),
}

impl View for Action {
    type V = ActionView;

    open spec fn view(&self) -> ActionView {
        match self {
            Action::Remove(pattern) => ActionView::Remove(pattern@),
            Action::Command(text) => ActionView::Command(text@),
        }
    }
}

/// The actions of a list as plain values.
pub open spec fn action_views(actions: Seq<Action>) -> Seq<ActionView> {
    Seq::new(actions.len(), |i: int| actions[i]@)
}

/// A rule as plain values.
pub struct RuleView {
    pub id: Seq<char>,
    pub name: Seq<char>,
    pub detection: DetectionView,
    pub actions: Seq<ActionView>,
}

impl View for Rule {
    type V = RuleView;

    open spec fn view(&self) -> RuleView {
        RuleView {
            id: self.id@,
            name: self.name@,
            detection: self.detection@,
            actions: action_views(self.actions@),
        }
    }
}

impl Clone for Rule {
    fn clone(&self) -> (copy: Rule)
        ensures
            copy@ == self@,
    {
        let mut actions: Vec<Action> = Vec::new();
        let mut i: usize = 0;
        while i < self.actions.len()
            invariant
                i <= self.actions.len(),
                action_views(actions@) == action_views(self.actions@).take(i as int),
            decreases self.actions.len() - i,
        {
            let ghost before = actions@;
            actions.push(self.actions[i].clone());
            proof {
                assert(action_views(actions@) =~= action_views(before).push(
                    self.actions@[i as int]@,
                ));
                assert(action_views(actions@) =~= action_views(self.actions@).take(i + 1));
            }
            i += 1;
        }
        proof {
            assert(action_views(self.actions@).take(i as int) =~= action_views(self.actions@));
        }
        Rule {
            id: self.id.clone(),
            name: self.name.clone(),
            detection: self.detection.clone(),
            actions,
        }
    }
}

impl Clone for Action {
    fn clone(&self) -> (copy: Action)
        ensures
            copy == *self,
            copy@ == self@,
    {
        match self {
            Action::Remove(pattern) => Action::Remove(pattern.clone()),
            Action::Command(text) => Action::Command(text.clone()),
        }
    }
}

/// The pattern of a removal; the empty pattern for a command.
pub open spec fn removal_pattern(action: ActionView) -> Seq<char> {
    match action {
        ActionView::Remove(pattern) => pattern,
        ActionView::Command(_) => Seq::empty(),
    }
}

/// The action removes `path`: it is a removal whose pattern accepts the path.
pub open spec fn removes(action: ActionView, path: Seq<char>) -> bool {
    &&& action is Remove
    &&& usable(removal_pattern(action))
    &&& glob_accepts(removal_pattern(action), path)
}

/// Some action of the list removes `path`.
pub open spec fn selected(actions: Seq<ActionView>, path: Seq<char>) -> bool {
    exists|i: int| 0 <= i < actions.len() && removes(#[trigger] actions[i], path)
}

/// The paths of `paths` that some action removes, in their order.
pub open spec fn chosen(paths: Seq<Seq<char>>, actions: Seq<ActionView>) -> Seq<Seq<char>>
    decreases paths.len(),
{
    if paths.len() == 0 {
        Seq::empty()
    } else {
        let rest = chosen(paths.drop_last(), actions);
        if selected(actions, paths.last()) {
            rest.push(paths.last())
        } else {
            rest
        }
    }
}

/// The commands among the actions, in their order.
pub open spec fn commands(actions: Seq<ActionView>) -> Seq<Seq<char>>
    decreases actions.len(),
{
    if actions.len() == 0 {
        Seq::empty()
    } else {
        let rest = commands(actions.drop_last());
        match actions.last() {
            ActionView::Command(text) => rest.push(text),
            ActionView::Remove(_) => rest,
        }
    }
}

/// Some removal among the actions has this pattern.
pub open spec fn has_pattern(actions: Seq<ActionView>, pattern: Seq<char>) -> bool {
    exists|i: int|
        0 <= i < actions.len() && (#[trigger] actions[i]) is Remove && removal_pattern(actions[i])
            == pattern
}

/// What a list of actions selects is exactly the paths that some action
/// removes.
pub proof fn lemma_chosen_members(paths: Seq<Seq<char>>, actions: Seq<ActionView>, path: Seq<char>)
    ensures
        chosen(paths, actions).contains(path) <==> paths.contains(path) && selected(actions, path),
    decreases paths.len(),
{
    if paths.len() > 0 {
        let front = paths.drop_last();
        lemma_chosen_members(front, actions, path);
        let rest = chosen(front, actions);
        let all = chosen(paths, actions);
        if all.contains(path) {
            let k = choose|k: int| 0 <= k < all.len() && all[k] == path;
            if k < rest.len() {
                assert(rest[k] == path);
                let m = choose|m: int| 0 <= m < front.len() && front[m] == path;
                assert(paths[m] == path);
            } else {
                assert(paths[paths.len() - 1] == path);
            }
        }
        if paths.contains(path) && selected(actions, path) {
            let m = choose|m: int| 0 <= m < paths.len() && paths[m] == path;
            if m < front.len() {
                assert(front[m] == path);
                let k = choose|k: int| 0 <= k < rest.len() && rest[k] == path;
                assert(all[k] == path);
            } else {
                assert(all[rest.len() as int] == path);
            }
        }
    }
}

/// Selection keeps the order of the paths: what is selected from an
/// ascending list is ascending, so no path is selected twice.
pub proof fn lemma_chosen_ascending(paths: Seq<Seq<char>>, actions: Seq<ActionView>)
    requires
        ascending(paths),
    ensures
        ascending(chosen(paths, actions)),
    decreases paths.len(),
{
    if paths.len() > 0 {
        let front = paths.drop_last();
        assert forall|i: int, j: int| 0 <= i < j < front.len() implies path_lt(
            front[i],
            front[j],
        ) by {
            assert(path_lt(paths[i], paths[j]));
        }
        lemma_chosen_ascending(front, actions);
        let rest = chosen(front, actions);
        let all = chosen(paths, actions);
        assert forall|i: int, j: int| 0 <= i < j < all.len() implies path_lt(all[i], all[j]) by {
            if j < rest.len() {
                assert(all[i] == rest[i] && all[j] == rest[j]);
            } else {
                assert(rest.contains(rest[i]));
                lemma_chosen_members(front, actions, rest[i]);
                let m = choose|m: int| 0 <= m < front.len() && front[m] == rest[i];
                assert(path_lt(paths[m], paths[paths.len() - 1]));
            }
        }
    }
}

/// The order of the actions does not matter: two lists with the same
/// removal patterns, in whatever order and however often, select the same
/// paths in the same order.
pub proof fn lemma_selection_ignores_order(
    paths: Seq<Seq<char>>,
    first: Seq<ActionView>,
    second: Seq<ActionView>,
)
    requires
        forall|pattern: Seq<char>| has_pattern(first, pattern) <==> has_pattern(second, pattern),
    ensures
        chosen(paths, first) == chosen(paths, second),
    decreases paths.len(),
{
    if paths.len() > 0 {
        lemma_selection_ignores_order(paths.drop_last(), first, second);
        if selected(first, paths.last()) {
            lemma_selected_by_patterns(first, second, paths.last());
        }
        if selected(second, paths.last()) {
            lemma_selected_by_patterns(second, first, paths.last());
        }
    }
}

/// What a list of actions removes, any list with its patterns removes.
proof fn lemma_selected_by_patterns(
    first: Seq<ActionView>,
    second: Seq<ActionView>,
    path: Seq<char>,
)
    requires
        forall|pattern: Seq<char>| has_pattern(first, pattern) ==> has_pattern(second, pattern),
        selected(first, path),
    ensures
        selected(second, path),
{
    let i = choose|i: int| 0 <= i < first.len() && removes(#[trigger] first[i], path);
    let pattern = removal_pattern(first[i]);
    assert(has_pattern(first, pattern));
    let j = choose|j: int|
        0 <= j < second.len() && (#[trigger] second[j]) is Remove && removal_pattern(second[j])
            == pattern;
    assert(removes(second[j], path));
}

} // verus!
