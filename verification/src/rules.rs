//! Automation rules: which notifications a rule accepts (its application,
//! its minute of the day, its conditions on the variables) and the rules
//! that accept a given notification.
use vstd::prelude::*;
use crate::foreign::{
    current_local_minute, is_clock_minute, new_uuid, opt_view, regex_error, regex_is_match, spec_regex_error,
    spec_regex_is_match,
};
use crate::notification_db::NotificationRecord;
use crate::strmap::{StringMap, lookup_last};
use crate::text::{
    chars_eq, chars_eq_str, chars_of, concat, contains, contains_seq, ends_with, occurs_at,
    eq_ignore_ascii_case, eq_ignore_ascii_case_chars, is_blank, is_blank_chars, lowercase_chars,
    owned, spec_to_lowercase, starts_with, string_of, trim, trimmed,
};
use crate::variables::{VariableExtractionRule, extract_variables, variable_pairs};

verus! {

// ---------------------------------------------------------------------
// Types
// ---------------------------------------------------------------------

/// The rules file: `{"rules": [...]}`.
#[derive(Clone, Debug)]
pub struct RuleFile {
    pub rules: Vec<AutomationRule>,
}

/// An automation rule.
#[derive(Clone, Debug)]
pub struct AutomationRule {
    pub id: String,
    pub name: String,
    /// Enabled unless `Some(false)`.
    pub enabled: Option<bool>,
    /// The minute of the day (`HH:MM`, local time) the rule is limited to.
    pub trigger_time: Option<String>,
    pub cooldown_seconds: Option<u64>,
    pub hit_count: Option<u64>,
    pub app_identifiers: Option<Vec<String>>,
    pub match_conditions: Option<Vec<MatchCondition>>,
    pub variable_extractions: Option<Vec<VariableExtractionRule>>,
    pub actions: Option<Vec<ActionConfig>>,
}

/// A condition on one variable.
#[derive(Clone, Debug)]
pub struct MatchCondition {
    pub variable_name: String,
    pub operator_type: String,
    pub expected_value: Option<String>,
    pub case_sensitive: bool,
}

/// An action of a rule: its type and its parameters.
#[derive(Clone, Debug)]
pub struct ActionConfig {
    pub action_type: String,
    pub parameters: StringMap,
}

fn dup_strings(v: &Vec<String>) -> (r: Vec<String>)
    ensures
        r@ == v@,
{
    let mut r: Vec<String> = Vec::new();
    let mut i: usize = 0;
    while i < v.len()
        invariant
            i <= v.len(),
            r@ =~= v@.take(i as int),
        decreases v.len() - i,
    {
        r.push(v[i].clone());
        assert(v@.take(i + 1) =~= v@.take(i as int).push(v@[i as int]));
        i += 1;
    }
    assert(v@.take(v.len() as int) =~= v@);
    r
}

fn dup_conditions(v: &Vec<MatchCondition>) -> (r: Vec<MatchCondition>)
    ensures
        r@ == v@,
{
    let mut r: Vec<MatchCondition> = Vec::new();
    let mut i: usize = 0;
    while i < v.len()
        invariant
            i <= v.len(),
            r@ =~= v@.take(i as int),
        decreases v.len() - i,
    {
        r.push(v[i].duplicate());
        assert(v@.take(i + 1) =~= v@.take(i as int).push(v@[i as int]));
        i += 1;
    }
    assert(v@.take(v.len() as int) =~= v@);
    r
}

fn dup_extractions(v: &Vec<VariableExtractionRule>) -> (r: Vec<VariableExtractionRule>)
    ensures
        r@ == v@,
{
    let mut r: Vec<VariableExtractionRule> = Vec::new();
    let mut i: usize = 0;
    while i < v.len()
        invariant
            i <= v.len(),
            r@ =~= v@.take(i as int),
        decreases v.len() - i,
    {
        r.push(v[i].duplicate());
        assert(v@.take(i + 1) =~= v@.take(i as int).push(v@[i as int]));
        i += 1;
    }
    assert(v@.take(v.len() as int) =~= v@);
    r
}

fn dup_actions(v: &Vec<ActionConfig>) -> (r: Vec<ActionConfig>)
    ensures
        action_views(r@) == action_views(v@),
{
    let mut r: Vec<ActionConfig> = Vec::new();
    let mut i: usize = 0;
    while i < v.len()
        invariant
            i <= v.len(),
            action_views(r@) =~= action_views(v@.take(i as int)),
        decreases v.len() - i,
    {
        let ghost before = action_views(r@);
        r.push(v[i].duplicate());
        assert(action_views(r@) =~= before.push(action_view(v@[i as int])));
        assert(action_views(v@.take(i + 1)) =~= action_views(v@.take(i as int)).push(action_view(v@[i as int])));
        i += 1;
    }
    assert(v@.take(v.len() as int) =~= v@);
    r
}

/// An action as its type and its parameters.
pub open spec fn action_view(a: ActionConfig) -> (Seq<char>, Seq<(Seq<char>, Seq<char>)>) {
    (a.action_type@, a.parameters.pairs())
}

/// The views of a list of actions.
pub open spec fn action_views(s: Seq<ActionConfig>) -> Seq<(Seq<char>, Seq<(Seq<char>, Seq<char>)>)> {
    s.map_values(|a: ActionConfig| action_view(a))
}

/// The elements of an optional list.
pub open spec fn opt_seq<T>(o: Option<Vec<T>>) -> Option<Seq<T>> {
    match o {
        Some(v) => Some(v@),
        None => None,
    }
}

/// Two rules agree in every field, lists compared element by element and
/// action parameters by their entries.
pub open spec fn same_rule(a: AutomationRule, b: AutomationRule) -> bool {
    &&& a.id == b.id
    &&& a.name == b.name
    &&& a.enabled == b.enabled
    &&& a.trigger_time == b.trigger_time
    &&& a.cooldown_seconds == b.cooldown_seconds
    &&& a.hit_count == b.hit_count
    &&& opt_seq(a.app_identifiers) == opt_seq(b.app_identifiers)
    &&& opt_seq(a.match_conditions) == opt_seq(b.match_conditions)
    &&& opt_seq(a.variable_extractions) == opt_seq(b.variable_extractions)
    &&& (match (a.actions, b.actions) {
        (Some(x), Some(y)) => action_views(x@) == action_views(y@),
        (None, None) => true,
        _ => false,
    })
}

fn dup_opt_string(o: &Option<String>) -> (r: Option<String>)
    ensures
        r == *o,
{
    match o {
        Some(s) => Some(s.clone()),
        None => None,
    }
}

impl MatchCondition {
    /// A field-by-field copy.
    pub fn duplicate(&self) -> (r: MatchCondition)
        ensures
            r == *self,
    {
        MatchCondition {
            variable_name: self.variable_name.clone(),
            operator_type: self.operator_type.clone(),
            expected_value: dup_opt_string(&self.expected_value),
            case_sensitive: self.case_sensitive,
        }
    }
}

impl ActionConfig {
    /// A field-by-field copy.
    pub fn duplicate(&self) -> (r: ActionConfig)
        ensures
            action_view(r) == action_view(*self),
    {
        ActionConfig { action_type: self.action_type.clone(), parameters: self.parameters.duplicate() }
    }
}

impl AutomationRule {
    /// A field-by-field copy.
    pub fn duplicate(&self) -> (r: AutomationRule)
        ensures
            same_rule(r, *self),
    {
        AutomationRule {
            id: self.id.clone(),
            name: self.name.clone(),
            enabled: self.enabled,
            trigger_time: dup_opt_string(&self.trigger_time),
            cooldown_seconds: self.cooldown_seconds,
            hit_count: self.hit_count,
            app_identifiers: match &self.app_identifiers {
                Some(v) => Some(dup_strings(v)),
                None => None,
            },
            match_conditions: match &self.match_conditions {
                Some(v) => Some(dup_conditions(v)),
                None => None,
            },
            variable_extractions: match &self.variable_extractions {
                Some(v) => Some(dup_extractions(v)),
                None => None,
            },
            actions: match &self.actions {
                Some(v) => Some(dup_actions(v)),
                None => None,
            },
        }
    }

    /// Whether the rule is on (it is unless switched off).
    pub fn is_enabled(&self) -> (r: bool)
        ensures
            r == rule_enabled(*self),
    {
        match self.enabled {
            Some(b) => b,
            None => true,
        }
    }
}

/// A rule is on unless `enabled` is `Some(false)`.
pub open spec fn rule_enabled(rule: AutomationRule) -> bool {
    match rule.enabled {
        Some(b) => b,
        None => true,
    }
}

/// The conditions of a rule (none when absent).
pub open spec fn conditions_of(rule: AutomationRule) -> Seq<MatchCondition> {
    match rule.match_conditions {
        Some(v) => v@,
        None => seq![],
    }
}

/// The custom variables of a rule (none when absent).
pub open spec fn extractions_of(rule: AutomationRule) -> Seq<VariableExtractionRule> {
    match rule.variable_extractions {
        Some(v) => v@,
        None => seq![],
    }
}

/// The actions of a rule (none when absent).
pub open spec fn actions_of(rule: AutomationRule) -> Seq<ActionConfig> {
    match rule.actions {
        Some(v) => v@,
        None => seq![],
    }
}

// ---------------------------------------------------------------------
// Conditions
// ---------------------------------------------------------------------

/// A text as conditions compare it: unchanged when case matters, else
/// lowercased.
pub open spec fn comparable(v: Seq<char>, case_sensitive: bool) -> Seq<char> {
    if case_sensitive {
        v
    } else {
        spec_to_lowercase(v)
    }
}

/// The pattern handed to the regex crate: made case-insensitive with the
/// `(?i)` flag when case does not matter.
pub open spec fn case_pattern(pattern: Seq<char>, case_sensitive: bool) -> Seq<char> {
    if case_sensitive {
        pattern
    } else {
        "(?i)"@ + pattern
    }
}

/// Whether `pattern` matches somewhere in `value`: none for a blank
/// pattern or one the regex crate rejects.
pub open spec fn regex_outcome(value: Seq<char>, pattern: Seq<char>, case_sensitive: bool) -> Option<bool> {
    if is_blank(pattern) {
        None
    } else {
        let p = case_pattern(pattern, case_sensitive);
        if spec_regex_error(p) is Some {
            None
        } else {
            Some(spec_regex_is_match(p, value))
        }
    }
}

/// Whether the operator `op` accepts `value` against `expected`.
/// Unknown operators accept nothing.
pub open spec fn operator_holds(op: Seq<char>, value: Seq<char>, expected: Seq<char>, case_sensitive: bool) -> bool {
    let left = comparable(value, case_sensitive);
    let right = comparable(expected, case_sensitive);
    if op == "equals"@ {
        left == right
    } else if op == "not_equals"@ {
        left != right
    } else if op == "contains"@ {
        contains_seq(left, right)
    } else if op == "not_contains"@ {
        !contains_seq(left, right)
    } else if op == "starts_with"@ {
        right.is_prefix_of(left)
    } else if op == "ends_with"@ {
        right.is_suffix_of(left)
    } else if op == "regex"@ {
        regex_outcome(value, expected, case_sensitive) == Some(true)
    } else if op == "not_regex"@ {
        regex_outcome(value, expected, case_sensitive) == Some(false)
    } else if op == "is_empty"@ {
        is_blank(value)
    } else if op == "is_not_empty"@ {
        !is_blank(value)
    } else {
        false
    }
}

/// Whether a condition holds when its variable has the value `looked_up`
/// (a missing variable counts as empty).
pub open spec fn condition_holds(c: MatchCondition, looked_up: Option<Seq<char>>) -> bool {
    let value = match looked_up {
        Some(v) => v,
        None => Seq::empty(),
    };
    let expected = match c.expected_value {
        Some(e) => e@,
        None => Seq::empty(),
    };
    operator_holds(c.operator_type@, value, expected, c.case_sensitive)
}

fn comparable_exec(v: &Vec<char>, case_sensitive: bool) -> (r: Vec<char>)
    ensures
        r@ == comparable(v@, case_sensitive),
{
    if case_sensitive {
        v.clone()
    } else {
        lowercase_chars(v)
    }
}

/// `pattern`, made case-insensitive when case does not matter.
pub fn regex_pattern_for_case_sensitivity(pattern: &str, case_sensitive: bool) -> (r: String)
    ensures
        r@ == case_pattern(pattern@, case_sensitive),
{
    if case_sensitive {
        owned(pattern)
    } else {
        let flag = chars_of("(?i)");
        let p = chars_of(pattern);
        string_of(&concat(&flag, &p))
    }
}

fn regex_matches(value: &Vec<char>, pattern: &Vec<char>, case_sensitive: bool) -> (r: Option<bool>)
    ensures
        r == regex_outcome(value@, pattern@, case_sensitive),
{
    if is_blank_chars(pattern) {
        return None;
    }
    let ps = string_of(pattern);
    let p = regex_pattern_for_case_sensitivity(ps.as_str(), case_sensitive);
    let vs = string_of(value);
    regex_is_match(p.as_str(), vs.as_str())
}

impl MatchCondition {
    /// Whether the condition holds for `variables`.
    pub fn evaluate(&self, variables: &StringMap) -> (r: bool)
        ensures
            r == condition_holds(*self, variables.get_spec(self.variable_name@)),
    {
        let value: Vec<char> = match variables.get_str(self.variable_name.as_str()) {
            Some(v) => chars_of(v.as_str()),
            None => Vec::new(),
        };
        let expected: Vec<char> = match &self.expected_value {
            Some(e) => chars_of(e.as_str()),
            None => Vec::new(),
        };
        let cs = self.case_sensitive;
        let left = comparable_exec(&value, cs);
        let right = comparable_exec(&expected, cs);
        let op = chars_of(self.operator_type.as_str());
        if chars_eq_str(&op, "equals") {
            chars_eq(&left, &right)
        } else if chars_eq_str(&op, "not_equals") {
            !chars_eq(&left, &right)
        } else if chars_eq_str(&op, "contains") {
            contains(&left, &right)
        } else if chars_eq_str(&op, "not_contains") {
            !contains(&left, &right)
        } else if chars_eq_str(&op, "starts_with") {
            starts_with(&left, &right)
        } else if chars_eq_str(&op, "ends_with") {
            ends_with(&left, &right)
        } else if chars_eq_str(&op, "regex") {
            match regex_matches(&value, &expected, cs) {
                Some(b) => b,
                None => false,
            }
        } else if chars_eq_str(&op, "not_regex") {
            match regex_matches(&value, &expected, cs) {
                Some(b) => !b,
                None => false,
            }
        } else if chars_eq_str(&op, "is_empty") {
            is_blank_chars(&value)
        } else if chars_eq_str(&op, "is_not_empty") {
            !is_blank_chars(&value)
        } else {
            false
        }
    }
}

/// What the text operators mean, on the comparable forms of the value
/// and the expected text (lowercased unless case-sensitive): `equals`
/// when they are the same, `contains` when the expected text stands
/// somewhere in the value, `starts_with` when the value begins with it,
/// `ends_with` when the value ends with it; `is_empty` when the value is
/// blank.
pub proof fn lemma_text_operators(value: Seq<char>, expected: Seq<char>, case_sensitive: bool)
    ensures
        operator_holds("equals"@, value, expected, case_sensitive) == (comparable(value, case_sensitive) == comparable(
            expected,
            case_sensitive,
        )),
        operator_holds("contains"@, value, expected, case_sensitive) == exists|i: int|
            0 <= i && i + comparable(expected, case_sensitive).len() <= comparable(value, case_sensitive).len()
                && #[trigger] comparable(value, case_sensitive).subrange(i, i + comparable(expected, case_sensitive).len())
                == comparable(expected, case_sensitive),
        operator_holds("starts_with"@, value, expected, case_sensitive) == comparable(expected, case_sensitive).is_prefix_of(
            comparable(value, case_sensitive),
        ),
        operator_holds("ends_with"@, value, expected, case_sensitive) == comparable(expected, case_sensitive).is_suffix_of(
            comparable(value, case_sensitive),
        ),
        operator_holds("is_empty"@, value, expected, case_sensitive) == is_blank(value),
{
    distinct_operator_names();
    let l = comparable(value, case_sensitive);
    let r = comparable(expected, case_sensitive);
    if contains_seq(l, r) {
        let i = choose|i: int| occurs_at(l, r, i);
        assert(0 <= i && i + r.len() <= l.len() && l.subrange(i, i + r.len()) == r);
    }
    if exists|i: int| 0 <= i && i + r.len() <= l.len() && #[trigger] l.subrange(i, i + r.len()) == r {
        let i = choose|i: int| 0 <= i && i + r.len() <= l.len() && #[trigger] l.subrange(i, i + r.len()) == r;
        assert(occurs_at(l, r, i));
    }
}

/// A value that begins with the expected text is accepted by
/// `starts_with`, one that ends with it by `ends_with`, and one that holds
/// it anywhere by `contains` (case-sensitive comparisons).
pub proof fn lemma_affixes_accepted(expected: Seq<char>, before: Seq<char>, after: Seq<char>)
    ensures
        operator_holds("starts_with"@, expected + after, expected, true),
        operator_holds("ends_with"@, before + expected, expected, true),
        operator_holds("contains"@, before + expected + after, expected, true),
        operator_holds("equals"@, expected, expected, true),
{
    distinct_operator_names();
    assert((expected + after).subrange(0, expected.len() as int) =~= expected);
    let v = before + expected;
    assert(v.subrange(v.len() - expected.len(), v.len() as int) =~= expected);
    let w = before + expected + after;
    assert(w.subrange(before.len() as int, (before.len() + expected.len()) as int) =~= expected);
    assert(occurs_at(w, expected, before.len() as int));
}

proof fn distinct_operator_names()
    ensures
        "equals"@ != "not_equals"@,
        "contains"@ != "equals"@ && "contains"@ != "not_equals"@,
        "not_contains"@ != "equals"@ && "not_contains"@ != "not_equals"@ && "not_contains"@ != "contains"@,
        "starts_with"@ != "equals"@ && "starts_with"@ != "not_equals"@ && "starts_with"@ != "contains"@
            && "starts_with"@ != "not_contains"@,
        "ends_with"@ != "equals"@ && "ends_with"@ != "not_equals"@ && "ends_with"@ != "contains"@
            && "ends_with"@ != "not_contains"@ && "ends_with"@ != "starts_with"@,
        "regex"@ != "equals"@ && "regex"@ != "not_equals"@ && "regex"@ != "contains"@
            && "regex"@ != "not_contains"@ && "regex"@ != "starts_with"@ && "regex"@ != "ends_with"@,
        "not_regex"@ != "equals"@ && "not_regex"@ != "not_equals"@ && "not_regex"@ != "contains"@
            && "not_regex"@ != "not_contains"@ && "not_regex"@ != "starts_with"@ && "not_regex"@ != "ends_with"@
            && "not_regex"@ != "regex"@,
        "is_empty"@ != "equals"@ && "is_empty"@ != "not_equals"@ && "is_empty"@ != "contains"@
            && "is_empty"@ != "not_contains"@ && "is_empty"@ != "starts_with"@ && "is_empty"@ != "ends_with"@
            && "is_empty"@ != "regex"@ && "is_empty"@ != "not_regex"@,
{
    reveal_strlit("equals");
    reveal_strlit("not_equals");
    reveal_strlit("contains");
    reveal_strlit("not_contains");
    reveal_strlit("starts_with");
    reveal_strlit("ends_with");
    reveal_strlit("regex");
    reveal_strlit("not_regex");
    reveal_strlit("is_empty");
    assert("equals"@[0] != "not_equals"@[0]);
    assert("contains"@[0] != "equals"@[0] && "contains"@[0] != "not_equals"@[0]);
    assert("not_contains"@.len() != "not_equals"@.len());
    assert("not_contains"@[0] != "equals"@[0] && "not_contains"@[0] != "contains"@[0]);
    assert("starts_with"@[0] != "equals"@[0] && "starts_with"@[0] != "not_equals"@[0]);
    assert("starts_with"@[0] != "contains"@[0] && "starts_with"@[0] != "not_contains"@[0]);
    assert("ends_with"@.len() != "equals"@.len() && "ends_with"@[0] != "not_equals"@[0]);
    assert("ends_with"@[0] != "contains"@[0] && "ends_with"@[0] != "not_contains"@[0]);
    assert("ends_with"@[0] != "starts_with"@[0]);
    assert("regex"@[0] != "equals"@[0] && "regex"@[0] != "not_equals"@[0] && "regex"@[0] != "contains"@[0]);
    assert("regex"@[0] != "not_contains"@[0] && "regex"@[0] != "starts_with"@[0] && "regex"@[0] != "ends_with"@[0]);
    assert("not_regex"@[0] != "equals"@[0] && "not_regex"@.len() != "not_equals"@.len());
    assert("not_regex"@[0] != "contains"@[0] && "not_regex"@.len() != "not_contains"@.len());
    assert("not_regex"@[0] != "starts_with"@[0] && "not_regex"@[0] != "ends_with"@[0] && "not_regex"@[0] != "regex"@[0]);
    assert("is_empty"@[0] != "equals"@[0] && "is_empty"@[0] != "not_equals"@[0] && "is_empty"@[0] != "contains"@[0]);
    assert("is_empty"@[0] != "not_contains"@[0] && "is_empty"@[0] != "starts_with"@[0]);
    assert("is_empty"@[0] != "ends_with"@[0] && "is_empty"@[0] != "regex"@[0] && "is_empty"@[0] != "not_regex"@[0]);
}

/// The negated operators accept exactly what their positive forms reject;
/// for `regex` and `not_regex` this holds when the pattern is usable, and
/// a blank or invalid pattern is accepted by neither.
pub proof fn lemma_negated_operators(value: Seq<char>, expected: Seq<char>, case_sensitive: bool)
    ensures
        operator_holds("not_equals"@, value, expected, case_sensitive) == !operator_holds(
            "equals"@,
            value,
            expected,
            case_sensitive,
        ),
        operator_holds("not_contains"@, value, expected, case_sensitive) == !operator_holds(
            "contains"@,
            value,
            expected,
            case_sensitive,
        ),
        operator_holds("is_not_empty"@, value, expected, case_sensitive) == !operator_holds(
            "is_empty"@,
            value,
            expected,
            case_sensitive,
        ),
        regex_outcome(value, expected, case_sensitive) is Some ==> operator_holds(
            "not_regex"@,
            value,
            expected,
            case_sensitive,
        ) == !operator_holds("regex"@, value, expected, case_sensitive),
        regex_outcome(value, expected, case_sensitive) is None ==> !operator_holds(
            "regex"@,
            value,
            expected,
            case_sensitive,
        ) && !operator_holds("not_regex"@, value, expected, case_sensitive),
{
    reveal_strlit("equals");

    reveal_strlit("not_equals");
    reveal_strlit("contains");
    reveal_strlit("not_contains");
    reveal_strlit("starts_with");
    reveal_strlit("ends_with");
    reveal_strlit("regex");
    reveal_strlit("not_regex");
    reveal_strlit("is_empty");
    reveal_strlit("is_not_empty");
    let left = comparable(value, case_sensitive);
    let right = comparable(expected, case_sensitive);
    assert("not_equals"@ != "equals"@) by { assert("not_equals"@.len() != "equals"@.len()); }
    assert("contains"@ != "equals"@) by { assert("contains"@.len() != "equals"@.len()); }
    assert("contains"@ != "not_equals"@) by { assert("contains"@.len() != "not_equals"@.len()); }
    assert("not_contains"@ != "equals"@) by { assert("not_contains"@.len() != "equals"@.len()); }
    assert("not_contains"@ != "not_equals"@) by { assert("not_contains"@.len() != "not_equals"@.len()); }
    assert("not_contains"@ != "contains"@) by { assert("not_contains"@.len() != "contains"@.len()); }
    assert("starts_with"@ != "equals"@) by { assert("starts_with"@.len() != "equals"@.len()); }
    assert("starts_with"@ != "not_equals"@) by { assert("starts_with"@.len() != "not_equals"@.len()); }
    assert("starts_with"@ != "contains"@) by { assert("starts_with"@.len() != "contains"@.len()); }
    assert("starts_with"@ != "not_contains"@) by { assert("starts_with"@.len() != "not_contains"@.len()); }
    assert("ends_with"@ != "equals"@) by { assert("ends_with"@.len() != "equals"@.len()); }
    assert("ends_with"@ != "not_equals"@) by { assert("ends_with"@.len() != "not_equals"@.len()); }
    assert("ends_with"@ != "contains"@) by { assert("ends_with"@.len() != "contains"@.len()); }
    assert("ends_with"@ != "not_contains"@) by { assert("ends_with"@.len() != "not_contains"@.len()); }
    assert("ends_with"@ != "starts_with"@) by { assert("ends_with"@.len() != "starts_with"@.len()); }
    assert("regex"@ != "equals"@) by { assert("regex"@.len() != "equals"@.len()); }
    assert("regex"@ != "not_equals"@) by { assert("regex"@.len() != "not_equals"@.len()); }
    assert("regex"@ != "contains"@) by { assert("regex"@.len() != "contains"@.len()); }
    assert("regex"@ != "not_contains"@) by { assert("regex"@.len() != "not_contains"@.len()); }
    assert("regex"@ != "starts_with"@) by { assert("regex"@.len() != "starts_with"@.len()); }
    assert("regex"@ != "ends_with"@) by { assert("regex"@.len() != "ends_with"@.len()); }
    assert("not_regex"@ != "equals"@) by { assert("not_regex"@.len() != "equals"@.len()); }
    assert("not_regex"@ != "not_equals"@) by { assert("not_regex"@.len() != "not_equals"@.len()); }
    assert("not_regex"@ != "contains"@) by { assert("not_regex"@.len() != "contains"@.len()); }
    assert("not_regex"@ != "not_contains"@) by { assert("not_regex"@.len() != "not_contains"@.len()); }
    assert("not_regex"@ != "starts_with"@) by { assert("not_regex"@.len() != "starts_with"@.len()); }
    assert("not_regex"@ != "ends_with"@) by { assert("not_regex"@[0] != "ends_with"@[0]); }
    assert("not_regex"@ != "regex"@) by { assert("not_regex"@.len() != "regex"@.len()); }
    assert("is_empty"@ != "equals"@) by { assert("is_empty"@.len() != "equals"@.len()); }
    assert("is_empty"@ != "not_equals"@) by { assert("is_empty"@.len() != "not_equals"@.len()); }
    assert("is_empty"@ != "contains"@) by { assert("is_empty"@[0] != "contains"@[0]); }
    assert("is_empty"@ != "not_contains"@) by { assert("is_empty"@.len() != "not_contains"@.len()); }
    assert("is_empty"@ != "starts_with"@) by { assert("is_empty"@.len() != "starts_with"@.len()); }
    assert("is_empty"@ != "ends_with"@) by { assert("is_empty"@.len() != "ends_with"@.len()); }
    assert("is_empty"@ != "regex"@) by { assert("is_empty"@.len() != "regex"@.len()); }
    assert("is_empty"@ != "not_regex"@) by { assert("is_empty"@.len() != "not_regex"@.len()); }
    assert("is_not_empty"@ != "equals"@) by { assert("is_not_empty"@.len() != "equals"@.len()); }
    assert("is_not_empty"@ != "not_equals"@) by { assert("is_not_empty"@.len() != "not_equals"@.len()); }
    assert("is_not_empty"@ != "contains"@) by { assert("is_not_empty"@.len() != "contains"@.len()); }
    assert("is_not_empty"@ != "not_contains"@) by { assert("is_not_empty"@[0] != "not_contains"@[0]); }
    assert("is_not_empty"@ != "starts_with"@) by { assert("is_not_empty"@.len() != "starts_with"@.len()); }
    assert("is_not_empty"@ != "ends_with"@) by { assert("is_not_empty"@.len() != "ends_with"@.len()); }
    assert("is_not_empty"@ != "regex"@) by { assert("is_not_empty"@.len() != "regex"@.len()); }
    assert("is_not_empty"@ != "not_regex"@) by { assert("is_not_empty"@.len() != "not_regex"@.len()); }
    assert("is_not_empty"@ != "is_empty"@) by { assert("is_not_empty"@.len() != "is_empty"@.len()); }
}

/// Checks that `pattern` is a regular expression the regex crate accepts
/// (as case-insensitive when case does not matter).
pub fn validate_regex_pattern(pattern: &str, case_sensitive: bool) -> (r: Result<(), String>)
    ensures
        is_blank(pattern@) ==> (r matches Err(m) && m@ == "正则表达式为空"@),
        !is_blank(pattern@) ==> match spec_regex_error(case_pattern(pattern@, case_sensitive)) {
            Some(m) => r matches Err(e) && e@ == m,
            None => r is Ok,
        },
{
    let pv = chars_of(pattern);
    if is_blank_chars(&pv) {
        return Err(owned("正则表达式为空"));
    }
    let p = regex_pattern_for_case_sensitivity(pattern, case_sensitive);
    match regex_error(p.as_str()) {
        Some(m) => Err(m),
        None => Ok(()),
    }
}

// ---------------------------------------------------------------------
// Application and time
// ---------------------------------------------------------------------

/// Whether a rule naming `ids` applies to a notification of `record_app`:
/// the rule must name applications, the notification's (trimmed)
/// identifier must not be blank, and one non-blank named identifier must
/// equal it up to ASCII case (both trimmed).
pub open spec fn app_matches(ids: Option<Seq<String>>, record_app: Seq<char>) -> bool {
    match ids {
        None => false,
        Some(ids) => app_list_matches(ids, record_app),
    }
}

/// The notification's identifier is not blank and one of `ids` matches it.
pub open spec fn app_list_matches(ids: Seq<String>, record_app: Seq<char>) -> bool {
    trim(record_app).len() > 0 && exists|i: int|
        0 <= i < ids.len() && app_id_matches(#[trigger] ids[i]@, record_app)
}

/// A named identifier that is not blank and equals the notification's up
/// to ASCII case, both trimmed.
pub open spec fn app_id_matches(id: Seq<char>, record_app: Seq<char>) -> bool {
    trim(id).len() > 0 && eq_ignore_ascii_case(trim(id), trim(record_app))
}

/// Whether `rule` applies to a notification of `record_app_identifier`:
/// it names that application (trimmed, ASCII case ignored).
pub fn rule_matches_record_app(rule: &AutomationRule, record_app_identifier: &str) -> (r: bool)
    ensures
        r == app_matches(opt_seq(rule.app_identifiers), record_app_identifier@),
{
    match &rule.app_identifiers {
        Some(ids) => matches_record_app(Some(ids.as_slice()), record_app_identifier),
        None => matches_record_app(None, record_app_identifier),
    }
}

/// Whether a rule naming the applications `app_identifiers` applies to a
/// notification of `record_app_identifier`.
pub fn matches_record_app(app_identifiers: Option<&[String]>, record_app_identifier: &str) -> (r: bool)
    ensures
        r == app_matches(
            match app_identifiers {
                Some(s) => Some(s@),
                None => None,
            },
            record_app_identifier@,
        ),
{
    let ids = match app_identifiers {
        Some(s) => s,
        None => return false,
    };
    let rec = trimmed(record_app_identifier);
    if rec.len() == 0 {
        return false;
    }
    let mut i: usize = 0;
    while i < ids.len()
        invariant
            i <= ids.len(),
            rec@ == trim(record_app_identifier@),
            rec@.len() > 0,
            app_identifiers == Some(ids),
            forall|j: int| 0 <= j < i ==> !app_id_matches(#[trigger] ids@[j]@, record_app_identifier@),
        decreases ids.len() - i,
    {
        let id = trimmed(ids[i].as_str());
        if id.len() > 0 && eq_ignore_ascii_case_chars(&id, &rec) {
            assert(app_id_matches(ids@[i as int]@, record_app_identifier@));
            assert(app_list_matches(ids@, record_app_identifier@));
            return true;
        }
        i += 1;
    }
    false
}

/// Whether a rule limited to `trigger` may run in the minute `minute`:
/// always when it is not limited (absent or blank), else only when the
/// current minute is known and equals the trimmed limit.
pub open spec fn trigger_time_ok(trigger: Option<Seq<char>>, minute: Option<Seq<char>>) -> bool {
    match trigger {
        None => true,
        Some(t) => if trim(t).len() == 0 {
            true
        } else {
            minute == Some(trim(t))
        },
    }
}

/// Whether a rule limited to `trigger_time` may run in `current_minute`.
pub fn trigger_time_matches(trigger_time: Option<&str>, current_minute: Option<&str>) -> (r: bool)
    ensures
        r == trigger_time_ok(
            match trigger_time {
                Some(t) => Some(t@),
                None => None,
            },
            match current_minute {
                Some(m) => Some(m@),
                None => None,
            },
        ),
{
    let t = match trigger_time {
        Some(t) => trimmed(t),
        None => return true,
    };
    if t.len() == 0 {
        return true;
    }
    match current_minute {
        Some(m) => chars_eq_str(&t, m),
        None => false,
    }
}

// ---------------------------------------------------------------------
// Matching
// ---------------------------------------------------------------------

/// Whether `rule` accepts `record` in the minute `minute`: it is on, its
/// minute (if any) is now, it names the notification's application, and
/// each of its conditions holds on the notification's variables (with
/// the rule's custom variables).
pub open spec fn rule_applies(rule: AutomationRule, record: NotificationRecord, minute: Option<Seq<char>>) -> bool {
    &&& rule_enabled(rule)
    &&& trigger_time_ok(opt_view(rule.trigger_time), minute)
    &&& app_matches(
        match rule.app_identifiers {
            Some(v) => Some(v@),
            None => None,
        },
        record.app_identifier@,
    )
    &&& forall|i: int|
        0 <= i < conditions_of(rule).len() ==> condition_holds(
            #[trigger] conditions_of(rule)[i],
            lookup_last(
                variable_pairs(record, extractions_of(rule)),
                conditions_of(rule)[i].variable_name@,
            ),
        )
}

/// The rules, in order, that accept `record` in the minute `minute`.
pub open spec fn matched_rules(rules: Seq<AutomationRule>, record: NotificationRecord, minute: Option<Seq<char>>) -> Seq<AutomationRule>
    decreases rules.len(),
{
    if rules.len() == 0 {
        seq![]
    } else {
        let prev = matched_rules(rules.drop_last(), record, minute);
        if rule_applies(rules.last(), record, minute) {
            prev.push(rules.last())
        } else {
            prev
        }
    }
}

/// `r` lists the rules that accept `record` in the minute `minute`, each
/// with the notification's variables under that rule.
pub open spec fn is_matching_result(
    r: Seq<(AutomationRule, StringMap)>,
    rules: Seq<AutomationRule>,
    record: NotificationRecord,
    minute: Option<Seq<char>>,
) -> bool {
    let expected = matched_rules(rules, record, minute);
    &&& r.len() == expected.len()
    &&& forall|i: int| 0 <= i < r.len() ==> same_rule((#[trigger] r[i]).0, expected[i])
    &&& forall|i: int, k: Seq<char>|
        0 <= i < r.len() ==> #[trigger] r[i].1.get_spec(k) == lookup_last(
            variable_pairs(record, extractions_of(r[i].0)),
            k,
        )
}

/// The rule is limited to a minute of the day.
pub open spec fn has_trigger_time(rule: AutomationRule) -> bool {
    match rule.trigger_time {
        Some(t) => trim(t@).len() > 0,
        None => false,
    }
}

/// Some rule is limited to a minute of the day.
pub open spec fn any_trigger_time(rules: Seq<AutomationRule>) -> bool {
    exists|i: int| 0 <= i < rules.len() && has_trigger_time(#[trigger] rules[i])
}

fn all_conditions_hold(conds: &Vec<MatchCondition>, vars: &StringMap) -> (r: bool)
    ensures
        r == forall|i: int|
            0 <= i < conds.len() ==> condition_holds(
                #[trigger] conds@[i],
                vars.get_spec(conds@[i].variable_name@),
            ),
{
    let mut all = true;
    let mut c: usize = 0;
    while c < conds.len()
        invariant
            c <= conds.len(),
            all == forall|i: int|
                0 <= i < c ==> condition_holds(
                    #[trigger] conds@[i],
                    vars.get_spec(conds@[i].variable_name@),
                ),
        decreases conds.len() - c,
    {
        if all && !conds[c].evaluate(vars) {
            all = false;
        }
        c += 1;
    }
    all
}

/// The rules that accept `record` when the local time is `current_minute`
/// (`HH:MM`; none when unknown), each with the notification's variables.
pub fn matching_rules_at(
    rules: &Vec<AutomationRule>,
    record: &NotificationRecord,
    current_minute: Option<&str>,
) -> (r: Vec<(AutomationRule, StringMap)>)
    ensures
        is_matching_result(
            r@,
            rules@,
            *record,
            match current_minute {
                Some(m) => Some(m@),
                None => None,
            },
        ),
{
    let ghost minute = match current_minute {
        Some(m) => Some(m@),
        None => None,
    };
    let no_conditions: Vec<MatchCondition> = Vec::new();
    let no_extractions: Vec<VariableExtractionRule> = Vec::new();
    let mut r: Vec<(AutomationRule, StringMap)> = Vec::new();
    let mut i: usize = 0;
    while i < rules.len()
        invariant
            i <= rules.len(),
            no_conditions@.len() == 0,
            no_extractions@.len() == 0,
            minute == match current_minute {
                Some(m) => Some(m@),
                None => None::<Seq<char>>,
            },
            is_matching_result(r@, rules@.take(i as int), *record, minute),
        decreases rules.len() - i,
    {
        assert(rules@.take(i + 1).drop_last() =~= rules@.take(i as int));
        assert(rules@.take(i + 1).last() == rules@[i as int]);
        let rule = &rules[i];
        let ids: Option<&[String]> = match &rule.app_identifiers {
            Some(v) => Some(v.as_slice()),
            None => None,
        };
        let trigger: Option<&str> = match &rule.trigger_time {
            Some(t) => Some(t.as_str()),
            None => None,
        };
        if rule.is_enabled() && trigger_time_matches(trigger, current_minute) && matches_record_app(
            ids,
            record.app_identifier.as_str(),
        ) {
            let extractions = match &rule.variable_extractions {
                Some(v) => v,
                None => &no_extractions,
            };
            let vars = extract_variables(record, extractions);
            let conds = match &rule.match_conditions {
                Some(v) => v,
                None => &no_conditions,
            };
            if all_conditions_hold(conds, &vars) {
                assert(rule_applies(*rule, *record, minute));
                let ghost before = r@;
                r.push((rule.duplicate(), vars));
                assert(r@ == before.push(r@[r@.len() - 1]));
            } else {
                assert(!rule_applies(*rule, *record, minute)) by {
                    let k = choose|k: int|
                        0 <= k < conds.len() && !condition_holds(
                            #[trigger] conds@[k],
                            vars.get_spec(conds@[k].variable_name@),
                        );
                    assert(conditions_of(*rule)[k] == conds@[k]);
                }
            }
        }
        i += 1;
    }
    assert(rules@.take(rules.len() as int) =~= rules@);
    r
}

/// The rules that accept `record` now, each with the notification's
/// variables; the local clock is read only when some rule is limited to a
/// minute of the day, and then the rules are matched at the local minute
/// read (`"%H:%M"`).
pub fn matching_rules(rules: &Vec<AutomationRule>, record: &NotificationRecord) -> (r: Vec<(AutomationRule, StringMap)>)
    ensures
        !any_trigger_time(rules@) ==> is_matching_result(r@, rules@, *record, None),
        any_trigger_time(rules@) ==> exists|m: Seq<char>|
            is_clock_minute(m) && #[trigger] is_matching_result(r@, rules@, *record, Some(m)),
{
    let mut any = false;
    let mut i: usize = 0;
    while i < rules.len()
        invariant
            i <= rules.len(),
            any == exists|j: int| 0 <= j < i && has_trigger_time(#[trigger] rules@[j]),
        decreases rules.len() - i,
    {
        match &rules[i].trigger_time {
            Some(t) => {
                let tt = trimmed(t.as_str());
                if tt.len() > 0 {
                    any = true;
                }
            },
            None => {},
        }
        i += 1;
    }
    if any {
        let now = current_local_minute("%H:%M");
        let r = matching_rules_at(rules, record, Some(now.as_str()));
        assert(is_matching_result(r@, rules@, *record, Some(now@)));
        assert(any_trigger_time(rules@));
        r
    } else {
        matching_rules_at(rules, record, None)
    }
}

// ---------------------------------------------------------------------
// Rules loaded from a file
// ---------------------------------------------------------------------

/// Gives each rule whose id is blank a fresh random id; the rules keep
/// their order and every other field.
pub fn assign_missing_rule_ids(rules: &mut Vec<AutomationRule>)
    ensures
        final(rules)@.len() == old(rules)@.len(),
        forall|i: int|
            0 <= i < old(rules)@.len() ==> if is_blank(old(rules)@[i].id@) {
                (#[trigger] final(rules)@[i]).id@.len() == 36 && final(rules)@[i].name
                    == old(rules)@[i].name && final(rules)@[i].enabled == old(rules)@[i].enabled
                    && final(rules)@[i].trigger_time == old(rules)@[i].trigger_time
                    && final(rules)@[i].cooldown_seconds == old(rules)@[i].cooldown_seconds
                    && final(rules)@[i].hit_count == old(rules)@[i].hit_count
                    && final(rules)@[i].app_identifiers == old(rules)@[i].app_identifiers
                    && final(rules)@[i].match_conditions == old(rules)@[i].match_conditions
                    && final(rules)@[i].variable_extractions == old(rules)@[i].variable_extractions
                    && final(rules)@[i].actions == old(rules)@[i].actions
            } else {
                final(rules)@[i] == old(rules)@[i]
            },
{
    let ghost start = rules@;
    let mut i: usize = 0;
    while i < rules.len()
        invariant
            i <= rules.len(),
            rules@.len() == start.len(),
            forall|j: int|
                i <= j < start.len() ==> #[trigger] rules@[j] == start[j],
            forall|j: int|
                0 <= j < i ==> if is_blank(start[j].id@) {
                    (#[trigger] rules@[j]).id@.len() == 36 && rules@[j].name == start[j].name
                        && rules@[j].enabled == start[j].enabled && rules@[j].trigger_time
                        == start[j].trigger_time && rules@[j].cooldown_seconds
                        == start[j].cooldown_seconds && rules@[j].hit_count == start[j].hit_count
                        && rules@[j].app_identifiers == start[j].app_identifiers
                        && rules@[j].match_conditions == start[j].match_conditions
                        && rules@[j].variable_extractions == start[j].variable_extractions
                        && rules@[j].actions == start[j].actions
                } else {
                    rules@[j] == start[j]
                },
        decreases rules.len() - i,
    {
        let idv = chars_of(rules[i].id.as_str());
        if is_blank_chars(&idv) {
            let fresh = new_uuid();
            rules[i].id = fresh;
        }
        i += 1;
    }
}

} // verus!
