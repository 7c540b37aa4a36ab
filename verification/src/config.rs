//! Rules as a user writes them down, and how they become the active rules.

use crate::catalog::builtin;
use crate::catalog::builtin_rules;
use crate::catalog::lemma_builtin_distinct;
use crate::catalog::rule_views;
use crate::detection::Detection;
use crate::detection::DetectionView;
use crate::glob::is_usable;
use crate::glob::usable;
use crate::path::views;
use crate::rule::Action;
use crate::rule::action_views;
use crate::rule::ActionView;
use crate::rule::Rule;
use crate::rule::RuleView;
use crate::text::blank;
use crate::text::is_blank;
use vstd::prelude::*;
use vstd::string::*;

verus! {

/// A detection expression as it is written down.
#[derive(Debug)]
pub enum ConfigDetection {
    /// All of these hold.
    All { all: Vec<ConfigDetection> },
    /// At least one of these holds.
    Any { any: Vec<ConfigDetection> },
    /// This does not hold.
    Not { not: Box<ConfigDetection> },
    /// Some path matches the pattern.
    Pattern(String),
    /// Some path matches the pattern, written with its key.
    PatternMap { pattern: String },
}

/// An action as it is written down.
#[derive(Debug)]
pub enum ConfigAction {
    Command { command: String },
    Remove { remove: String },
}

/// A rule as it is written down.
#[derive(Debug)]
pub struct RuleConfig {
    pub actions: Vec<ConfigAction>,
    pub detection: ConfigDetection,
    pub id: String,
    pub name: Option<String>,
}

/// What is said of the rules that are built in.
#[derive(Debug)]
pub struct DefaultRulesConfig {
    /// The ids of the built-in rules that are switched off.
    pub disabled: Vec<String>,
}

/// All that a user has written down.
#[derive(Debug)]
pub struct Config {
    pub default_rules: DefaultRulesConfig,
    pub rules: Vec<RuleConfig>,
}

/// How the parts of a list of detections are joined.
#[derive(Clone, Copy, Debug, PartialEq, Eq, Structural)]
pub enum Combine {
    All,
    Any,
}

/// Why what was written down is no set of rules.
#[derive(Debug, PartialEq, Eq)]
pub enum ConfigError {
    /// A detection pattern is empty or blank.
    EmptyPattern,
    /// A pattern is no glob that can be matched with; holds the pattern.
    InvalidPattern(String),
    /// A list of detections is empty.
    EmptyDetection(Combine),
    /// The pattern of a removal is empty or blank.
    EmptyRemove,
    /// A command is empty or blank.
    EmptyCommand,
    /// The id of a rule is empty or blank.
    EmptyId,
    /// A rule has no action.
    NoActions,
    /// Two rules have the same id; holds the id.
    DuplicateId(String),
}

/// A `ConfigError`, with texts as sequences of characters.
pub enum ConfigFault {
    EmptyPattern,
    InvalidPattern(Seq<char>),
    EmptyDetection(Combine),
    EmptyRemove,
    EmptyCommand,
    EmptyId,
    NoActions,
    DuplicateId(Seq<char>),
}

impl View for ConfigError {
    type V = ConfigFault;

    open spec fn view(&self) -> ConfigFault {
        match self {
            ConfigError::EmptyPattern => ConfigFault::EmptyPattern,
            ConfigError::InvalidPattern(pattern) => ConfigFault::InvalidPattern(pattern@),
            ConfigError::EmptyDetection(combine) => ConfigFault::EmptyDetection(*combine),
            ConfigError::EmptyRemove => ConfigFault::EmptyRemove,
            ConfigError::EmptyCommand => ConfigFault::EmptyCommand,
            ConfigError::EmptyId => ConfigFault::EmptyId,
            ConfigError::NoActions => ConfigFault::NoActions,
            ConfigError::DuplicateId(id) => ConfigFault::DuplicateId(id@),
        }
    }
}

/// The two detections joined.
pub open spec fn joined(combine: Combine, left: DetectionView, right: DetectionView)
    -> DetectionView {
    match combine {
        Combine::All => DetectionView::All(Box::new(left), Box::new(right)),
        Combine::Any => DetectionView::Any(Box::new(left), Box::new(right)),
    }
}

/// What a written pattern becomes.
pub open spec fn pattern_detection(pattern: Seq<char>) -> Result<DetectionView, ConfigFault> {
    if blank(pattern) {
        Err(ConfigFault::EmptyPattern)
    } else if !usable(pattern) {
        Err(ConfigFault::InvalidPattern(pattern))
    } else {
        Ok(DetectionView::Pattern(pattern))
    }
}

/// What a written detection becomes: the expression, or the first fault
/// in reading order.
pub open spec fn detection_of(config: ConfigDetection) -> Result<DetectionView, ConfigFault>
    decreases config, 0nat,
{
    match config {
        ConfigDetection::Pattern(pattern) => pattern_detection(pattern@),
        ConfigDetection::PatternMap { pattern } => pattern_detection(pattern@),
        ConfigDetection::Any { any } => folded(any, any.len() as nat, Combine::Any),
        ConfigDetection::All { all } => folded(all, all.len() as nat, Combine::All),
        ConfigDetection::Not { not } => match detection_of(*not) {
            Ok(inner) => Ok(DetectionView::Not(Box::new(inner))),
            Err(fault) => Err(fault),
        },
    }
}

/// What the first `n` detections of a list become, joined from the left.
pub open spec fn folded(items: Vec<ConfigDetection>, n: nat, combine: Combine) -> Result<
    DetectionView,
    ConfigFault,
>
    decreases items, n,
{
    if n == 0 || n > items.len() {
        Err(ConfigFault::EmptyDetection(combine))
    } else if n == 1 {
        detection_of(items[0])
    } else {
        match folded(items, (n - 1) as nat, combine) {
            Err(fault) => Err(fault),
            Ok(left) => match detection_of(items[n - 1]) {
                Err(fault) => Err(fault),
                Ok(right) => Ok(joined(combine, left, right)),
            },
        }
    }
}

/// What came of a conversion is what was wanted: the same value, or the
/// same fault.
pub open spec fn renders<T: View>(got: Result<T, ConfigError>, wanted: Result<T::V, ConfigFault>)
    -> bool {
    match got {
        Ok(value) => wanted == Ok::<T::V, ConfigFault>(value@),
        Err(error) => wanted == Err::<T::V, ConfigFault>(error@),
    }
}

/// Reads one written pattern.
fn read_pattern(pattern: &String) -> (made: Result<Detection, ConfigError>)
    ensures
        renders(made, pattern_detection(pattern@)),
{
    if is_blank(pattern.as_str()) {
        Err(ConfigError::EmptyPattern)
    } else if !is_usable(pattern.as_str()) {
        Err(ConfigError::InvalidPattern(pattern.clone()))
    } else {
        Ok(Detection::Pattern(pattern.clone()))
    }
}

impl Detection {
    /// Makes the detection that was written down, or says what is wrong
    /// with it: a blank pattern, a pattern that is no usable glob, or an
    /// empty list. Of several faults the first in reading order is told.
    pub fn try_from(value: &ConfigDetection) -> (made: Result<Detection, ConfigError>)
        ensures
            renders(made, detection_of(*value)),
        decreases value, 0nat,
    {
        match value {
            ConfigDetection::Pattern(pattern) => read_pattern(pattern),
            ConfigDetection::PatternMap { pattern } => read_pattern(pattern),
            ConfigDetection::Any { any } => ConfigDetection::fold(any, Combine::Any),
            ConfigDetection::All { all } => ConfigDetection::fold(all, Combine::All),
            ConfigDetection::Not { not } => match Detection::try_from(not) {
                Ok(inner) => Ok(Detection::Not(Box::new(inner))),
                Err(error) => Err(error),
            },
        }
    }
}

impl ConfigDetection {
    /// Joins a list of written detections from the left: `a, b, c` becomes
    /// `(a, b), c`. An empty list is a fault, told after any fault of an
    /// item.
    pub fn fold(items: &Vec<ConfigDetection>, combine: Combine) -> (made: Result<
        Detection,
        ConfigError,
    >)
        ensures
            renders(made, folded(*items, items.len() as nat, combine)),
        decreases items, 1nat,
    {
        if items.len() == 0 {
            return Err(ConfigError::EmptyDetection(combine));
        }
        let mut made = match Detection::try_from(&items[0]) {
            Ok(first) => first,
            Err(error) => {
                proof {
                    lemma_folded_fault(*items, 1, items.len() as nat, combine);
                }
                return Err(error);
            },
        };
        let mut i: usize = 1;
        while i < items.len()
            invariant
                1 <= i <= items.len(),
                folded(*items, i as nat, combine) == Ok::<DetectionView, ConfigFault>(made@),
            decreases items.len() - i,
        {
            match Detection::try_from(&items[i]) {
                Ok(right) => {
                    made = match combine {
                        Combine::All => Detection::All(Box::new(made), Box::new(right)),
                        Combine::Any => Detection::Any(Box::new(made), Box::new(right)),
                    };
                },
                Err(error) => {
                    proof {
                        lemma_folded_fault(*items, (i + 1) as nat, items.len() as nat, combine);
                    }
                    return Err(error);
                },
            }
            i += 1;
        }
        Ok(made)
    }
}

/// A fault among the first detections of a list is the fault of the list.
proof fn lemma_folded_fault(items: Vec<ConfigDetection>, n: nat, m: nat, combine: Combine)
    requires
        1 <= n <= m <= items.len(),
        folded(items, n, combine) is Err,
    ensures
        folded(items, m, combine) == folded(items, n, combine),
    decreases m - n,
{
    if n < m {
        lemma_folded_fault(items, n + 1, m, combine);
    }
}

/// What a written action becomes.
pub open spec fn action_of(config: ConfigAction) -> Result<ActionView, ConfigFault> {
    match config {
        ConfigAction::Remove { remove } => if blank(remove@) {
            Err(ConfigFault::EmptyRemove)
        } else if !usable(remove@) {
            Err(ConfigFault::InvalidPattern(remove@))
        } else {
            Ok(ActionView::Remove(remove@))
        },
        ConfigAction::Command { command } => if blank(command@) {
            Err(ConfigFault::EmptyCommand)
        } else {
            Ok(ActionView::Command(command@))
        },
    }
}

/// What a list of written actions becomes: the actions in their order, or
/// the first fault.
pub open spec fn actions_of(configs: Seq<ConfigAction>) -> Result<Seq<ActionView>, ConfigFault>
    decreases configs.len(),
{
    if configs.len() == 0 {
        Ok(Seq::empty())
    } else {
        match actions_of(configs.drop_last()) {
            Err(fault) => Err(fault),
            Ok(front) => match action_of(configs.last()) {
                Err(fault) => Err(fault),
                Ok(action) => Ok(front.push(action)),
            },
        }
    }
}

/// What a written rule becomes. A rule without a name is named by its id.
pub open spec fn rule_of(config: RuleConfig) -> Result<RuleView, ConfigFault> {
    if blank(config.id@) {
        Err(ConfigFault::EmptyId)
    } else if config.actions@.len() == 0 {
        Err(ConfigFault::NoActions)
    } else {
        match actions_of(config.actions@) {
            Err(fault) => Err(fault),
            Ok(actions) => match detection_of(config.detection) {
                Err(fault) => Err(fault),
                Ok(detection) => Ok(
                    RuleView {
                        id: config.id@,
                        name: match config.name {
                            Some(name) => name@,
                            None => config.id@,
                        },
                        detection,
                        actions,
                    },
                ),
            },
        }
    }
}

/// A fault among the first actions of a list is the fault of the list.
proof fn lemma_actions_fault(configs: Seq<ConfigAction>, n: int)
    requires
        0 <= n <= configs.len(),
        actions_of(configs.take(n)) is Err,
    ensures
        actions_of(configs) == actions_of(configs.take(n)),
    decreases configs.len() - n,
{
    if n < configs.len() {
        assert(configs.take(n + 1).drop_last() =~= configs.take(n));
        lemma_actions_fault(configs, n + 1);
    } else {
        assert(configs.take(n) =~= configs);
    }
}

impl Action {
    /// Makes the action that was written down, or says what is wrong with
    /// it: a blank text, or a removal pattern that is no usable glob.
    pub fn try_from(value: &ConfigAction) -> (made: Result<Action, ConfigError>)
        ensures
            renders(made, action_of(*value)),
    {
        match value {
            ConfigAction::Remove { remove } => {
                if is_blank(remove.as_str()) {
                    Err(ConfigError::EmptyRemove)
                } else if !is_usable(remove.as_str()) {
                    Err(ConfigError::InvalidPattern(remove.clone()))
                } else {
                    Ok(Action::Remove(remove.clone()))
                }
            },
            ConfigAction::Command { command } => {
                if is_blank(command.as_str()) {
                    Err(ConfigError::EmptyCommand)
                } else {
                    Ok(Action::Command(command.clone()))
                }
            },
        }
    }
}

impl Rule {
    /// Makes the rule that was written down, or says what is wrong with
    /// it: first a blank id, then a missing action, then the first faulty
    /// action, then a faulty detection.
    pub fn try_from(config: &RuleConfig) -> (made: Result<Rule, ConfigError>)
        ensures
            match made {
                Ok(rule) => rule_of(*config) == Ok::<RuleView, ConfigFault>(rule@) && sound_rule(
                    rule@,
                ),
                Err(error) => rule_of(*config) == Err::<RuleView, ConfigFault>(error@),
            },
    {
        proof {
            if rule_of(*config) is Ok {
                lemma_rule_sound(*config);
            }
        }
        if is_blank(config.id.as_str()) {
            return Err(ConfigError::EmptyId);
        }
        if config.actions.len() == 0 {
            return Err(ConfigError::NoActions);
        }
        let mut actions: Vec<Action> = Vec::new();
        let mut i: usize = 0;
        assert(action_views(actions@) =~= Seq::empty());
        while i < config.actions.len()
            invariant
                i <= config.actions.len(),
                !blank(config.id@),
                config.actions@.len() > 0,
                actions_of(config.actions@.take(i as int)) == Ok::<Seq<ActionView>, ConfigFault>(
                    action_views(actions@),
                ),
            decreases config.actions.len() - i,
        {
            proof {
                assert(config.actions@.take(i + 1).drop_last() =~= config.actions@.take(i as int));
            }
            match Action::try_from(&config.actions[i]) {
                Ok(action) => {
                    let ghost before = actions@;
                    actions.push(action);
                    proof {
                        assert(action_views(actions@) =~= action_views(before).push(action@));
                    }
                },
                Err(error) => {
                    proof {
                        lemma_actions_fault(config.actions@, i + 1);
                    }
                    return Err(error);
                },
            }
            i += 1;
        }
        proof {
            assert(config.actions@.take(i as int) =~= config.actions@);
        }
        let detection = match Detection::try_from(&config.detection) {
            Ok(detection) => detection,
            Err(error) => {
                return Err(error);
            },
        };
        let name = match &config.name {
            Some(name) => name.clone(),
            None => config.id.clone(),
        };
        Ok(Rule { id: config.id.clone(), name, detection, actions })
    }
}

/// Some rule of the list has this id.
pub open spec fn has_id(rules: Seq<RuleView>, id: Seq<char>) -> bool {
    exists|k: int| 0 <= k < rules.len() && (#[trigger] rules[k]).id == id
}

/// The rule at `k` is the first of the list with this id.
pub open spec fn is_first_with(rules: Seq<RuleView>, id: Seq<char>, k: int) -> bool {
    &&& 0 <= k < rules.len()
    &&& rules[k].id == id
    &&& forall|j: int| 0 <= j < k ==> (#[trigger] rules[j]).id != id
}

/// The first rule of the list with this id.
pub open spec fn first_with(rules: Seq<RuleView>, id: Seq<char>) -> RuleView {
    rules[choose|k: int| is_first_with(rules, id, k)]
}

/// What the written rules become: the rules in their order, or the first
/// fault. A rule whose id an earlier rule has is a fault.
pub open spec fn customs_of(configs: Seq<RuleConfig>) -> Result<Seq<RuleView>, ConfigFault>
    decreases configs.len(),
{
    if configs.len() == 0 {
        Ok(Seq::empty())
    } else {
        match customs_of(configs.drop_last()) {
            Err(fault) => Err(fault),
            Ok(front) => match rule_of(configs.last()) {
                Err(fault) => Err(fault),
                Ok(rule) => if has_id(front, rule.id) {
                    Err(ConfigFault::DuplicateId(rule.id))
                } else {
                    Ok(front.push(rule))
                },
            },
        }
    }
}

/// The built-in rules that stay, each in its place: one that a written
/// rule has the id of gives its place to that rule, one that is switched
/// off is left out.
pub open spec fn standing(
    defaults: Seq<RuleView>,
    customs: Seq<RuleView>,
    disabled: Seq<Seq<char>>,
) -> Seq<RuleView>
    decreases defaults.len(),
{
    if defaults.len() == 0 {
        Seq::empty()
    } else {
        let rest = standing(defaults.drop_last(), customs, disabled);
        let rule = defaults.last();
        if has_id(customs, rule.id) {
            rest.push(first_with(customs, rule.id))
        } else if disabled.contains(rule.id) {
            rest
        } else {
            rest.push(rule)
        }
    }
}

/// The written rules that take the place of no built-in rule, in their
/// order.
pub open spec fn additions(customs: Seq<RuleView>, defaults: Seq<RuleView>) -> Seq<RuleView>
    decreases customs.len(),
{
    if customs.len() == 0 {
        Seq::empty()
    } else {
        let rest = additions(customs.drop_last(), defaults);
        if has_id(defaults, customs.last().id) {
            rest
        } else {
            rest.push(customs.last())
        }
    }
}

/// The active rules: the built-in rules that stay, then the written rules
/// that are new.
pub open spec fn active(
    defaults: Seq<RuleView>,
    customs: Seq<RuleView>,
    disabled: Seq<Seq<char>>,
) -> Seq<RuleView> {
    standing(defaults, customs, disabled) + additions(customs, defaults)
}

/// A fault among the first written rules is the fault of all.
proof fn lemma_customs_fault(configs: Seq<RuleConfig>, n: int)
    requires
        0 <= n <= configs.len(),
        customs_of(configs.take(n)) is Err,
    ensures
        customs_of(configs) == customs_of(configs.take(n)),
    decreases configs.len() - n,
{
    if n < configs.len() {
        assert(configs.take(n + 1).drop_last() =~= configs.take(n));
        lemma_customs_fault(configs, n + 1);
    } else {
        assert(configs.take(n) =~= configs);
    }
}

/// Where the first rule with this id stands in the list, if there is one.
fn find(rules: &Vec<Rule>, id: &String) -> (place: Option<usize>)
    ensures
        match place {
            Some(k) => is_first_with(rule_views(rules@), id@, k as int),
            None => !has_id(rule_views(rules@), id@),
        },
{
    let mut k: usize = 0;
    while k < rules.len()
        invariant
            k <= rules.len(),
            forall|j: int| 0 <= j < k ==> (#[trigger] rule_views(rules@)[j]).id != id@,
        decreases rules.len() - k,
    {
        if rules[k].id == *id {
            assert(rule_views(rules@)[k as int].id == id@);
            return Some(k);
        }
        assert(rule_views(rules@)[k as int].id != id@);
        k += 1;
    }
    None
}

/// Whether the list names this id.
fn names(list: &Vec<String>, id: &String) -> (named: bool)
    ensures
        named == views(list@).contains(id@),
{
    let mut k: usize = 0;
    while k < list.len()
        invariant
            k <= list.len(),
            forall|j: int| 0 <= j < k ==> (#[trigger] views(list@)[j]) != id@,
        decreases list.len() - k,
    {
        if list[k] == *id {
            assert(views(list@)[k as int] == id@);
            return true;
        }
        assert(views(list@)[k as int] != id@);
        k += 1;
    }
    false
}

/// Puts the active rules together from the built-in rules, the written
/// rules and the ids that are switched off.
///
/// A written rule with the id of a built-in rule takes its place, switched
/// off or not. The written rules that are new follow the built-in ones, in
/// the order in which they were written.
pub fn merge(defaults: &Vec<Rule>, customs: &Vec<Rule>, disabled: &Vec<String>) -> (rules: Vec<
    Rule,
>)
    ensures
        rule_views(rules@) == active(
            rule_views(defaults@),
            rule_views(customs@),
            views(disabled@),
        ),
{
    let ghost d = rule_views(defaults@);
    let ghost c = rule_views(customs@);
    let ghost off = views(disabled@);
    let mut rules: Vec<Rule> = Vec::new();
    let mut i: usize = 0;
    assert(rule_views(rules@) =~= standing(d.take(0), c, off));
    while i < defaults.len()
        invariant
            i <= defaults.len(),
            d == rule_views(defaults@),
            c == rule_views(customs@),
            off == views(disabled@),
            rule_views(rules@) == standing(d.take(i as int), c, off),
        decreases defaults.len() - i,
    {
        let ghost before = rules@;
        proof {
            assert(d.take(i + 1).drop_last() =~= d.take(i as int));
            assert(d.take(i + 1).last() == defaults@[i as int]@);
        }
        match find(customs, &defaults[i].id) {
            Some(k) => {
                rules.push(customs[k].clone());
                proof {
                    let id = defaults@[i as int]@.id;
                    assert(has_id(c, id));
                    let chosen = choose|k: int| is_first_with(c, id, k);
                    assert(chosen == k) by {
                        if chosen < k {
                            assert(c[chosen].id == id);
                        } else if k < chosen {
                            assert(c[k as int].id == id);
                        }
                    }
                    assert(rule_views(rules@) =~= rule_views(before).push(c[k as int]));
                }
            },
            None => {
                if !names(disabled, &defaults[i].id) {
                    rules.push(defaults[i].clone());
                    proof {
                        assert(rule_views(rules@) =~= rule_views(before).push(d[i as int]));
                    }
                }
            },
        }
        i += 1;
    }
    proof {
        assert(d.take(i as int) =~= d);
    }
    let ghost first = rule_views(rules@);
    let mut k: usize = 0;
    assert(rule_views(rules@) =~= first + additions(c.take(0), d));
    while k < customs.len()
        invariant
            k <= customs.len(),
            d == rule_views(defaults@),
            c == rule_views(customs@),
            rule_views(rules@) == first + additions(c.take(k as int), d),
        decreases customs.len() - k,
    {
        let ghost before = rules@;
        proof {
            assert(c.take(k + 1).drop_last() =~= c.take(k as int));
            assert(c.take(k + 1).last() == customs@[k as int]@);
        }
        if find(defaults, &customs[k].id).is_none() {
            rules.push(customs[k].clone());
            proof {
                assert(rule_views(rules@) =~= rule_views(before).push(c[k as int]));
                assert(rule_views(rules@) =~= first + additions(c.take(k + 1), d));
            }
        }
        k += 1;
    }
    proof {
        assert(c.take(k as int) =~= c);
    }
    rules
}

impl Config {
    /// The built-in rules, in the order in which they are tried.
    pub fn default_rules() -> (rules: Vec<Rule>)
        ensures
            rule_views(rules@) == builtin_rules(),
    {
        builtin()
    }

    /// Makes the written rules, or says what is wrong with the first that
    /// is faulty or has the id of an earlier one.
    pub fn custom_rules(&self) -> (made: Result<Vec<Rule>, ConfigError>)
        ensures
            match made {
                Ok(rules) => customs_of(self.rules@) == Ok::<Seq<RuleView>, ConfigFault>(
                    rule_views(rules@),
                ),
                Err(error) => customs_of(self.rules@) == Err::<Seq<RuleView>, ConfigFault>(error@),
            },
    {
        let mut rules: Vec<Rule> = Vec::new();
        let mut i: usize = 0;
        assert(rule_views(rules@) =~= Seq::empty());
        while i < self.rules.len()
            invariant
                i <= self.rules.len(),
                customs_of(self.rules@.take(i as int)) == Ok::<Seq<RuleView>, ConfigFault>(
                    rule_views(rules@),
                ),
            decreases self.rules.len() - i,
        {
            proof {
                assert(self.rules@.take(i + 1).drop_last() =~= self.rules@.take(i as int));
            }
            let rule = match Rule::try_from(&self.rules[i]) {
                Ok(rule) => rule,
                Err(error) => {
                    proof {
                        lemma_customs_fault(self.rules@, i + 1);
                    }
                    return Err(error);
                },
            };
            if find(&rules, &rule.id).is_some() {
                proof {
                    lemma_customs_fault(self.rules@, i + 1);
                }
                return Err(ConfigError::DuplicateId(rule.id.clone()));
            }
            let ghost before = rules@;
            let ghost added = rule@;
            rules.push(rule);
            proof {
                assert(rule_views(rules@) =~= rule_views(before).push(added));
            }
            i += 1;
        }
        proof {
            assert(self.rules@.take(i as int) =~= self.rules@);
        }
        Ok(rules)
    }

    /// The active rules: what the written rules and the built-in rules come
    /// to, or what is wrong with what was written.
    pub fn try_into(self) -> (made: Result<Vec<Rule>, ConfigError>)
        ensures
            match made {
                Ok(rules) => customs_of(self.rules@) is Ok && rule_views(rules@) == active(
                    builtin_rules(),
                    customs_of(self.rules@)->Ok_0,
                    views(self.default_rules.disabled@),
                ) && distinct_ids(rule_views(rules@)),
                Err(error) => customs_of(self.rules@) == Err::<Seq<RuleView>, ConfigFault>(error@),
            },
    {
        proof {
            lemma_builtin_distinct();
            if customs_of(self.rules@) is Ok {
                lemma_customs_distinct(self.rules@);
                lemma_active_distinct(
                    builtin_rules(),
                    customs_of(self.rules@)->Ok_0,
                    views(self.default_rules.disabled@),
                );
            }
        }
        let customs = match self.custom_rules() {
            Ok(customs) => customs,
            Err(error) => {
                return Err(error);
            },
        };
        let defaults = Config::default_rules();
        Ok(merge(&defaults, &customs, &self.default_rules.disabled))
    }
}

/// The word under which a list of detections is written.
pub open spec fn label(combine: Combine) -> Seq<char> {
    match combine {
        Combine::All => "all"@,
        Combine::Any => "any"@,
    }
}

/// The words for a fault.
pub open spec fn fault_message(fault: ConfigFault) -> Seq<char> {
    match fault {
        ConfigFault::EmptyPattern => "detection pattern cannot be empty"@,
        ConfigFault::InvalidPattern(pattern) => "invalid glob pattern `"@ + pattern + "`"@,
        ConfigFault::EmptyDetection(combine) => "`"@ + label(combine)
            + "` detection must contain at least one entry"@,
        ConfigFault::EmptyRemove => "remove action cannot be empty"@,
        ConfigFault::EmptyCommand => "command action cannot be empty"@,
        ConfigFault::EmptyId => "rule id cannot be empty"@,
        ConfigFault::NoActions => "rule actions cannot be empty"@,
        ConfigFault::DuplicateId(id) => "duplicate rule id `"@ + id + "` in config"@,
    }
}

impl ConfigError {
    /// The fault in words.
    pub fn message(&self) -> (text: String)
        ensures
            text@ == fault_message(self@),
    {
        match self {
            ConfigError::EmptyPattern => "detection pattern cannot be empty".to_owned(),
            ConfigError::InvalidPattern(pattern) => "invalid glob pattern `".to_owned().concat(
                pattern.as_str(),
            ).concat("`"),
            ConfigError::EmptyDetection(combine) => {
                let word = match combine {
                    Combine::All => "all",
                    Combine::Any => "any",
                };
                "`".to_owned().concat(word).concat("` detection must contain at least one entry")
            },
            ConfigError::EmptyRemove => "remove action cannot be empty".to_owned(),
            ConfigError::EmptyCommand => "command action cannot be empty".to_owned(),
            ConfigError::EmptyId => "rule id cannot be empty".to_owned(),
            ConfigError::NoActions => "rule actions cannot be empty".to_owned(),
            ConfigError::DuplicateId(id) => "duplicate rule id `".to_owned().concat(
                id.as_str(),
            ).concat("` in config"),
        }
    }
}

/// No two rules of the list have the same id.
pub open spec fn distinct_ids(rules: Seq<RuleView>) -> bool {
    forall|i: int, j: int| 0 <= i < j < rules.len() ==> rules[i].id != rules[j].id
}

/// Written rules that were accepted have distinct ids.
pub proof fn lemma_customs_distinct(configs: Seq<RuleConfig>)
    requires
        customs_of(configs) is Ok,
    ensures
        distinct_ids(customs_of(configs)->Ok_0),
    decreases configs.len(),
{
    if configs.len() > 0 {
        lemma_customs_distinct(configs.drop_last());
        let front = customs_of(configs.drop_last())->Ok_0;
        let all = customs_of(configs)->Ok_0;
        assert forall|i: int, j: int| 0 <= i < j < all.len() implies all[i].id != all[j].id by {
            if j < front.len() {
                assert(all[i] == front[i] && all[j] == front[j]);
            } else {
                assert(all[i] == front[i]);
            }
        }
    }
}

/// Every rule that stands has the id of a built-in rule.
proof fn lemma_standing_ids(
    defaults: Seq<RuleView>,
    customs: Seq<RuleView>,
    disabled: Seq<Seq<char>>,
    id: Seq<char>,
)
    requires
        has_id(standing(defaults, customs, disabled), id),
    ensures
        has_id(defaults, id),
    decreases defaults.len(),
{
    let all = standing(defaults, customs, disabled);
    let k = choose|k: int| 0 <= k < all.len() && (#[trigger] all[k]).id == id;
    let front = defaults.drop_last();
    let rest = standing(front, customs, disabled);
    if k < rest.len() {
        assert(rest[k].id == id);
        lemma_standing_ids(front, customs, disabled, id);
        let m = choose|m: int| 0 <= m < front.len() && (#[trigger] front[m]).id == id;
        assert(defaults[m].id == id);
    } else {
        let rule = defaults.last();
        if has_id(customs, rule.id) {
            let w = choose|w: int| 0 <= w < customs.len() && (#[trigger] customs[w]).id == rule.id;
            lemma_first_exists(customs, rule.id, w);
        }
        assert(defaults[defaults.len() - 1].id == id);
    }
}

/// Where a rule has an id, some rule is the first with it.
proof fn lemma_first_exists(rules: Seq<RuleView>, id: Seq<char>, w: int)
    requires
        0 <= w < rules.len(),
        rules[w].id == id,
    ensures
        exists|k: int| is_first_with(rules, id, k),
    decreases w,
{
    if exists|j: int| 0 <= j < w && (#[trigger] rules[j]).id == id {
        let j = choose|j: int| 0 <= j < w && (#[trigger] rules[j]).id == id;
        lemma_first_exists(rules, id, j);
    } else {
        assert(is_first_with(rules, id, w));
    }
}

/// Every written rule that is added is a written rule, and has the id of
/// no built-in rule.
proof fn lemma_additions_ids(customs: Seq<RuleView>, defaults: Seq<RuleView>, k: int)
    requires
        0 <= k < additions(customs, defaults).len(),
    ensures
        !has_id(defaults, additions(customs, defaults)[k].id),
        exists|m: int|
            0 <= m < customs.len() && #[trigger] customs[m] == additions(customs, defaults)[k]
                && k <= m,
    decreases customs.len(),
{
    let front = customs.drop_last();
    let rest = additions(front, defaults);
    if k < rest.len() {
        lemma_additions_ids(front, defaults, k);
        let m = choose|m: int| 0 <= m < front.len() && #[trigger] front[m] == rest[k] && k <= m;
        assert(customs[m] == additions(customs, defaults)[k]);
    } else {
        let m = customs.len() - 1;
        assert(customs[m] == additions(customs, defaults)[k]);
        lemma_additions_short(front, defaults);
    }
}

/// No more rules are added than were written.
proof fn lemma_additions_short(customs: Seq<RuleView>, defaults: Seq<RuleView>)
    ensures
        additions(customs, defaults).len() <= customs.len(),
    decreases customs.len(),
{
    if customs.len() > 0 {
        lemma_additions_short(customs.drop_last(), defaults);
    }
}

/// Written rules with distinct ids are added with distinct ids.
proof fn lemma_additions_distinct(customs: Seq<RuleView>, defaults: Seq<RuleView>)
    requires
        distinct_ids(customs),
    ensures
        distinct_ids(additions(customs, defaults)),
    decreases customs.len(),
{
    if customs.len() > 0 {
        let front = customs.drop_last();
        assert(distinct_ids(front)) by {
            assert forall|i: int, j: int| 0 <= i < j < front.len() implies front[i].id
                != front[j].id by {
                assert(customs[i].id != customs[j].id);
            }
        }
        lemma_additions_distinct(front, defaults);
        let rest = additions(front, defaults);
        let all = additions(customs, defaults);
        assert forall|i: int, j: int| 0 <= i < j < all.len() implies all[i].id != all[j].id by {
            if j < rest.len() {
                assert(all[i] == rest[i] && all[j] == rest[j]);
            } else {
                assert(all[i] == rest[i]);
                lemma_additions_ids(front, defaults, i);
                let m = choose|m: int|
                    0 <= m < front.len() && #[trigger] front[m] == rest[i] && i <= m;
                assert(customs[m].id != customs[customs.len() - 1].id);
            }
        }
    }
}

/// Built-in rules with distinct ids stand with distinct ids.
proof fn lemma_standing_distinct(
    defaults: Seq<RuleView>,
    customs: Seq<RuleView>,
    disabled: Seq<Seq<char>>,
)
    requires
        distinct_ids(defaults),
    ensures
        distinct_ids(standing(defaults, customs, disabled)),
    decreases defaults.len(),
{
    if defaults.len() > 0 {
        let front = defaults.drop_last();
        assert(distinct_ids(front)) by {
            assert forall|i: int, j: int| 0 <= i < j < front.len() implies front[i].id
                != front[j].id by {
                assert(defaults[i].id != defaults[j].id);
            }
        }
        lemma_standing_distinct(front, customs, disabled);
        let rest = standing(front, customs, disabled);
        let all = standing(defaults, customs, disabled);
        let rule = defaults.last();
        assert forall|i: int, j: int| 0 <= i < j < all.len() implies all[i].id != all[j].id by {
            if j < rest.len() {
                assert(all[i] == rest[i] && all[j] == rest[j]);
            } else {
                assert(all[i] == rest[i]);
                assert(all[j].id == rule.id) by {
                    if has_id(customs, rule.id) {
                        let w = choose|w: int|
                            0 <= w < customs.len() && (#[trigger] customs[w]).id == rule.id;
                        lemma_first_exists(customs, rule.id, w);
                    }
                }
                if rest[i].id == rule.id {
                    assert(has_id(rest, rule.id));
                    lemma_standing_ids(front, customs, disabled, rule.id);
                    let m = choose|m: int| 0 <= m < front.len() && (#[trigger] front[m]).id == rule.id;
                    assert(defaults[m].id != defaults[defaults.len() - 1].id);
                }
            }
        }
    }
}

/// One rule for each id: when the built-in rules have distinct ids and the
/// written rules have distinct ids, so have the active rules.
pub proof fn lemma_active_distinct(
    defaults: Seq<RuleView>,
    customs: Seq<RuleView>,
    disabled: Seq<Seq<char>>,
)
    requires
        distinct_ids(defaults),
        distinct_ids(customs),
    ensures
        distinct_ids(active(defaults, customs, disabled)),
{
    lemma_standing_distinct(defaults, customs, disabled);
    lemma_additions_distinct(customs, defaults);
    let first = standing(defaults, customs, disabled);
    let second = additions(customs, defaults);
    let all = active(defaults, customs, disabled);
    assert forall|i: int, j: int| 0 <= i < j < all.len() implies all[i].id != all[j].id by {
        if j < first.len() {
            assert(all[i] == first[i] && all[j] == first[j]);
        } else if i >= first.len() {
            assert(all[i] == second[i - first.len()] && all[j] == second[j - first.len()]);
        } else {
            assert(all[i] == first[i] && all[j] == second[j - first.len()]);
            lemma_additions_ids(customs, defaults, j - first.len());
            if first[i].id == second[j - first.len()].id {
                assert(has_id(first, first[i].id));
                lemma_standing_ids(defaults, customs, disabled, first[i].id);
            }
        }
    }
}

/// Every pattern of the expression is a glob that can be matched with, and
/// none is blank.
pub open spec fn sound_detection(detection: DetectionView) -> bool
    decreases detection,
{
    match detection {
        DetectionView::All(left, right) => sound_detection(*left) && sound_detection(*right),
        DetectionView::Any(left, right) => sound_detection(*left) && sound_detection(*right),
        DetectionView::Not(inner) => sound_detection(*inner),
        DetectionView::Pattern(pattern) => !blank(pattern) && usable(pattern),
    }
}

/// The action is a removal by a glob that can be matched with, or a
/// command that is not blank.
pub open spec fn sound_action(action: ActionView) -> bool {
    match action {
        ActionView::Remove(pattern) => !blank(pattern) && usable(pattern),
        ActionView::Command(text) => !blank(text),
    }
}

/// The rule has an id, at least one action, and nothing faulty in its
/// detection or its actions.
pub open spec fn sound_rule(rule: RuleView) -> bool {
    &&& !blank(rule.id)
    &&& rule.actions.len() > 0
    &&& forall|i: int| 0 <= i < rule.actions.len() ==> sound_action(#[trigger] rule.actions[i])
    &&& sound_detection(rule.detection)
}

/// A written detection that was accepted is sound.
pub proof fn lemma_detection_sound(config: ConfigDetection)
    requires
        detection_of(config) is Ok,
    ensures
        sound_detection(detection_of(config)->Ok_0),
    decreases config, 0nat,
{
    match config {
        ConfigDetection::Pattern(pattern) => {},
        ConfigDetection::PatternMap { pattern } => {},
        ConfigDetection::Any { any } => {
            lemma_folded_sound(any, any.len() as nat, Combine::Any);
        },
        ConfigDetection::All { all } => {
            lemma_folded_sound(all, all.len() as nat, Combine::All);
        },
        ConfigDetection::Not { not } => {
            lemma_detection_sound(*not);
        },
    }
}

/// A list of written detections that was accepted is sound.
proof fn lemma_folded_sound(items: Vec<ConfigDetection>, n: nat, combine: Combine)
    requires
        folded(items, n, combine) is Ok,
    ensures
        sound_detection(folded(items, n, combine)->Ok_0),
    decreases items, n,
{
    if n == 1 {
        lemma_detection_sound(items[0]);
    } else if n > 1 && n <= items.len() {
        lemma_folded_sound(items, (n - 1) as nat, combine);
        lemma_detection_sound(items[n - 1]);
    }
}

/// Written actions that were accepted are sound.
proof fn lemma_actions_sound(configs: Seq<ConfigAction>)
    requires
        actions_of(configs) is Ok,
    ensures
        actions_of(configs)->Ok_0.len() == configs.len(),
        forall|i: int|
            0 <= i < configs.len() ==> sound_action(#[trigger] actions_of(configs)->Ok_0[i]),
    decreases configs.len(),
{
    if configs.len() > 0 {
        lemma_actions_sound(configs.drop_last());
        let front = actions_of(configs.drop_last())->Ok_0;
        let all = actions_of(configs)->Ok_0;
        assert forall|i: int| 0 <= i < configs.len() implies sound_action(#[trigger] all[i]) by {
            if i < front.len() {
                assert(all[i] == front[i]);
            }
        }
    }
}

/// A written rule that was accepted is sound: it has an id, at least one
/// action, and every pattern in it is a glob that can be matched with.
pub proof fn lemma_rule_sound(config: RuleConfig)
    requires
        rule_of(config) is Ok,
    ensures
        sound_rule(rule_of(config)->Ok_0),
{
    lemma_actions_sound(config.actions@);
    lemma_detection_sound(config.detection);
}

} // verus!

