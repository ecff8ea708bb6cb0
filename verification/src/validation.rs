//! The checks a rule must pass before it is saved or switched on, each
//! failure reported with the message the user sees.
use vstd::prelude::*;
use crate::foreign::{json_string_record, spec_json_string_record, spec_regex_error};
use crate::rules::{
    ActionConfig, AutomationRule, MatchCondition, case_pattern, conditions_of, extractions_of,
    actions_of, rule_enabled, validate_regex_pattern,
};
use crate::strmap::StringMap;
use crate::text::{
    all_ascii_digits, chars_eq_str, chars_of, decimal, extend_chars, extend_str, is_ascii_alpha,
    is_ascii_alpha_char, is_blank, is_blank_chars, lowercase_chars, parse_u64, parse_unsigned,
    spec_decimal, spec_to_lowercase, string_of, trim, trim_chars, chars_eq, views,
};
use crate::variables::{
    VariableExtractionMethod, VariableExtractionRule, is_valid_variable_name, opt_text,
    valid_variable_name,
};

verus! {

// ---------------------------------------------------------------------
// Helpers
// ---------------------------------------------------------------------

/// The first of two outcomes that is an error.
pub open spec fn first_error(a: Option<Seq<char>>, b: Option<Seq<char>>) -> Option<Seq<char>> {
    if a is Some {
        a
    } else {
        b
    }
}

/// The error a check reported, if any.
pub open spec fn outcome(r: Result<(), String>) -> Option<Seq<char>> {
    match r {
        Ok(()) => None,
        Err(e) => Some(e@),
    }
}

/// `prefix` followed by the 1-based number of item `index`.
pub open spec fn label(prefix: Seq<char>, index: int) -> Seq<char> {
    prefix + spec_decimal((index + 1) as nat)
}

fn numbered(prefix: &str, index: usize) -> (r: Vec<char>)
    requires
        index < usize::MAX,
    ensures
        r@ == label(prefix@, index as int),
{
    let mut v = chars_of(prefix);
    let d = decimal(index as u64 + 1);
    extend_chars(&mut v, &d);
    v
}

fn message(head: &Vec<char>, tail: &str) -> (r: String)
    ensures
        r@ == head@ + tail@,
{
    let mut v = head.clone();
    extend_str(&mut v, tail);
    string_of(&v)
}

/// The views of a list of string slices.
pub open spec fn str_views(keys: Seq<&str>) -> Seq<Seq<char>> {
    keys.map_values(|k: &str| k@)
}

/// The value of the first of `keys` that the action's parameters hold.
pub open spec fn param_lookup(a: ActionConfig, keys: Seq<Seq<char>>) -> Option<Seq<char>>
    decreases keys.len(),
{
    if keys.len() == 0 {
        None
    } else {
        match a.parameters.get_spec(keys[0]) {
            Some(v) => Some(v),
            None => param_lookup(a, keys.drop_first()),
        }
    }
}

/// The value of the first of `keys` present, or empty.
pub open spec fn param_or_empty(a: ActionConfig, keys: Seq<Seq<char>>) -> Seq<char> {
    match param_lookup(a, keys) {
        Some(v) => v,
        None => Seq::empty(),
    }
}

/// The value of the first of `keys` that the action's parameters hold.
pub fn action_parameter<'a>(action: &'a ActionConfig, keys: &[&str]) -> (r: Option<&'a String>)
    ensures
        match r {
            Some(v) => param_lookup(*action, str_views(keys@)) == Some(v@),
            None => param_lookup(*action, str_views(keys@)) is None,
        },
{
    let ghost ks = str_views(keys@);
    assert(ks.skip(0) =~= ks);
    let mut i: usize = 0;
    while i < keys.len()
        invariant
            i <= keys.len(),
            ks == str_views(keys@),
            param_lookup(*action, ks) == param_lookup(*action, ks.skip(i as int)),
        decreases keys.len() - i,
    {
        assert(ks.skip(i as int)[0] == keys@[i as int]@);
        assert(ks.skip(i as int).drop_first() =~= ks.skip(i + 1));
        match action.parameters.get_str(keys[i]) {
            Some(v) => {
                return Some(v);
            },
            None => {},
        }
        i += 1;
    }
    assert(ks.skip(i as int).len() == 0);
    None
}

fn param_text(action: &ActionConfig, keys: &[&str]) -> (r: Vec<char>)
    ensures
        r@ == param_or_empty(*action, str_views(keys@)),
{
    match action_parameter(action, keys) {
        Some(v) => chars_of(v.as_str()),
        None => Vec::new(),
    }
}

// ---------------------------------------------------------------------
// Parameters
// ---------------------------------------------------------------------

/// A required parameter: present and not blank.
pub open spec fn require_param_error(a: ActionConfig, keys: Seq<Seq<char>>, lbl: Seq<char>) -> Option<Seq<char>> {
    match param_lookup(a, keys) {
        Some(v) => if !is_blank(v) {
            None
        } else {
            Some(lbl + "为空"@)
        },
        None => Some(lbl + "为空"@),
    }
}

/// An optional whole-number parameter: absent, blank, or an unsigned
/// integer in `[min, max]`.
pub open spec fn integer_param_error(a: ActionConfig, keys: Seq<Seq<char>>, min: nat, max: nat, lbl: Seq<char>) -> Option<Seq<char>> {
    match param_lookup(a, keys) {
        None => None,
        Some(v) => {
            let t = trim(v);
            if t.len() == 0 {
                None
            } else {
                match parse_unsigned(t, u64::MAX as nat) {
                    None => Some(lbl + "无效"@),
                    Some(n) => if n < min || n > max {
                        Some(lbl + "超出范围"@)
                    } else {
                        None
                    },
                }
            }
        },
    }
}

/// An optional JSON-object parameter: absent, blank, or an object of
/// string values (as serde_json reads it).
pub open spec fn json_record_error(a: ActionConfig, keys: Seq<Seq<char>>, lbl: Seq<char>) -> Option<Seq<char>> {
    match param_lookup(a, keys) {
        None => None,
        Some(v) => {
            let t = trim(v);
            if t.len() == 0 {
                None
            } else {
                match spec_json_string_record(t) {
                    Ok(_) => None,
                    Err(m) => Some(lbl + "格式错误："@ + m),
                }
            }
        },
    }
}

fn require_action_parameter(action: &ActionConfig, keys: &[&str], lbl: &Vec<char>) -> (r: Result<(), String>)
    ensures
        outcome(r) == require_param_error(*action, str_views(keys@), lbl@),
{
    match action_parameter(action, keys) {
        Some(v) => {
            let vc = chars_of(v.as_str());
            if !is_blank_chars(&vc) {
                Ok(())
            } else {
                Err(message(lbl, "为空"))
            }
        },
        None => Err(message(lbl, "为空")),
    }
}

fn validate_integer_parameter(action: &ActionConfig, keys: &[&str], min: u64, max: u64, lbl: &Vec<char>) -> (r: Result<(), String>)
    ensures
        outcome(r) == integer_param_error(*action, str_views(keys@), min as nat, max as nat, lbl@),
{
    let value = match action_parameter(action, keys) {
        Some(v) => chars_of(v.as_str()),
        None => return Ok(()),
    };
    let t = trim_chars(&value);
    if t.len() == 0 {
        return Ok(());
    }
    match parse_u64(&t) {
        None => Err(message(lbl, "无效")),
        Some(n) => if n < min || n > max {
            Err(message(lbl, "超出范围"))
        } else {
            Ok(())
        },
    }
}

fn validate_json_string_record_parameter(action: &ActionConfig, keys: &[&str], lbl: &Vec<char>) -> (r: Result<(), String>)
    ensures
        outcome(r) == json_record_error(*action, str_views(keys@), lbl@),
{
    let value = match action_parameter(action, keys) {
        Some(v) => chars_of(v.as_str()),
        None => return Ok(()),
    };
    let t = trim_chars(&value);
    if t.len() == 0 {
        return Ok(());
    }
    let ts = string_of(&t);
    match json_string_record(ts.as_str()) {
        Ok(_) => Ok(()),
        Err(m) => {
            let mut v = lbl.clone();
            extend_str(&mut v, "格式错误：");
            extend_str(&mut v, m.as_str());
            Err(string_of(&v))
        },
    }
}

// ---------------------------------------------------------------------
// Operators and action types
// ---------------------------------------------------------------------

/// The operators a condition may use.
pub open spec fn valid_match_operator(op: Seq<char>) -> bool {
    ||| op == "equals"@
    ||| op == "not_equals"@
    ||| op == "contains"@
    ||| op == "not_contains"@
    ||| op == "starts_with"@
    ||| op == "ends_with"@
    ||| op == "regex"@
    ||| op == "not_regex"@
    ||| op == "is_empty"@
    ||| op == "is_not_empty"@
}

/// Every operator that condition evaluation gives a meaning to is one a
/// rule may be saved with: an operator that accepts any value at all is
/// a valid operator (unknown operators accept nothing).
pub proof fn lemma_meaningful_operators_are_valid(op: Seq<char>, value: Seq<char>, expected: Seq<char>, case_sensitive: bool)
    requires
        crate::rules::operator_holds(op, value, expected, case_sensitive),
    ensures
        valid_match_operator(op),
{
}

/// The comparing operators accept some value, so each is valid: in
/// particular `equals`, `contains`, `starts_with` and `ends_with`.
pub proof fn lemma_understood_operators_are_valid(v: Seq<char>)
    ensures
        valid_match_operator("equals"@),
        valid_match_operator("contains"@),
        valid_match_operator("starts_with"@),
        valid_match_operator("ends_with"@),
{
    let e: Seq<char> = seq![];
    crate::rules::lemma_affixes_accepted(v, e, e);
    lemma_meaningful_operators_are_valid("equals"@, v, v, true);
    lemma_meaningful_operators_are_valid("starts_with"@, v + e, v, true);
    lemma_meaningful_operators_are_valid("ends_with"@, e + v, v, true);
    lemma_meaningful_operators_are_valid("contains"@, e + v + e, v, true);
}

/// Whether `operator_type` is an operator a condition may use.
pub fn is_valid_match_operator(operator_type: &str) -> (r: bool)
    ensures
        r == valid_match_operator(operator_type@),
{
    let o = chars_of(operator_type);
    chars_eq_str(&o, "equals") || chars_eq_str(&o, "not_equals") || chars_eq_str(&o, "contains")
        || chars_eq_str(&o, "not_contains") || chars_eq_str(&o, "starts_with") || chars_eq_str(
        &o,
        "ends_with",
    ) || chars_eq_str(&o, "regex") || chars_eq_str(&o, "not_regex") || chars_eq_str(&o, "is_empty")
        || chars_eq_str(&o, "is_not_empty")
}

/// Every operator but the emptiness tests compares against a value.
pub open spec fn operator_needs_value(op: Seq<char>) -> bool {
    !(op == "is_empty"@ || op == "is_not_empty"@)
}

/// Whether the operator compares against an expected value.
pub fn match_operator_needs_value(operator_type: &str) -> (r: bool)
    ensures
        r == operator_needs_value(operator_type@),
{
    let o = chars_of(operator_type);
    !(chars_eq_str(&o, "is_empty") || chars_eq_str(&o, "is_not_empty"))
}

/// The kinds of action a rule may run.
pub open spec fn valid_action_type(t: Seq<char>) -> bool {
    ||| t == "open_url"@
    ||| t == "open_app"@
    ||| t == "activate_app"@
    ||| t == "send_notification"@
    ||| t == "run_shell"@
    ||| t == "run_applescript"@
    ||| t == "run_javascript"@
    ||| t == "run_python"@
    ||| t == "http_request"@
}

/// Whether `action_type` is a kind of action a rule may run.
pub fn is_valid_action_type(action_type: &str) -> (r: bool)
    ensures
        r == valid_action_type(action_type@),
{
    let t = chars_of(action_type);
    chars_eq_str(&t, "open_url") || chars_eq_str(&t, "open_app") || chars_eq_str(&t, "activate_app")
        || chars_eq_str(&t, "send_notification") || chars_eq_str(&t, "run_shell") || chars_eq_str(
        &t,
        "run_applescript",
    ) || chars_eq_str(&t, "run_javascript") || chars_eq_str(&t, "run_python") || chars_eq_str(
        &t,
        "http_request",
    )
}

// ---------------------------------------------------------------------
// Actions
// ---------------------------------------------------------------------

/// The shell, if chosen, is bash or zsh; the mode, if chosen, is a known
/// one (both compared trimmed and lowercased).
pub open spec fn shell_action_error(a: ActionConfig, lbl: Seq<char>) -> Option<Seq<char>> {
    let shell = spec_to_lowercase(trim(param_or_empty(a, seq!["shell"@])));
    let mode = spec_to_lowercase(trim(param_or_empty(a, seq!["shell_mode"@, "shellMode"@])));
    if !(shell.len() == 0 || shell == "bash"@ || shell == "zsh"@) {
        Some(lbl + "Shell 无效"@)
    } else if !(mode.len() == 0 || mode == "standard"@ || mode == "login"@ || mode == "interactive"@
        || mode == "login_interactive"@ || mode == "login-interactive"@) {
        Some(lbl + "Shell 模式无效"@)
    } else {
        None
    }
}

/// All characters are ASCII letters.
pub open spec fn all_ascii_alpha(s: Seq<char>) -> bool {
    forall|i: int| 0 <= i < s.len() ==> is_ascii_alpha(#[trigger] s[i])
}

/// An HTTP action needs a URL; its method, if given, is letters only;
/// its headers are a JSON object of strings; its retry count is in
/// [0, 5] and its retry interval in [0, 60] seconds.
pub open spec fn http_action_error(a: ActionConfig, lbl: Seq<char>) -> Option<Seq<char>> {
    let method = trim(param_or_empty(a, seq!["method"@]));
    first_error(
        require_param_error(a, seq!["url"@], lbl + "HTTP URL"@),
        if method.len() > 0 && !all_ascii_alpha(method) {
            Some(lbl + "HTTP 方法无效"@)
        } else {
            first_error(
                json_record_error(a, seq!["headers"@], lbl + "Headers JSON"@),
                first_error(
                    integer_param_error(
                        a,
                        seq!["retry_count"@, "retryCount"@],
                        0,
                        5,
                        lbl + "重试次数"@,
                    ),
                    integer_param_error(
                        a,
                        seq!["retry_interval_seconds"@, "retryIntervalSeconds"@],
                        0,
                        60,
                        lbl + "重试间隔"@,
                    ),
                ),
            )
        },
    )
}

/// Every action: a timeout in [1, 300] seconds and an environment given
/// as a JSON object of strings.
pub open spec fn common_action_error(a: ActionConfig, lbl: Seq<char>) -> Option<Seq<char>> {
    first_error(
        integer_param_error(a, seq!["timeout_seconds"@, "timeout"@], 1, 300, lbl + "超时秒数"@),
        json_record_error(a, seq!["env_json"@, "envJson"@], lbl + "环境变量 JSON"@),
    )
}

/// What each kind of action requires.
pub open spec fn type_action_error(a: ActionConfig, t: Seq<char>, lbl: Seq<char>) -> Option<Seq<char>> {
    if t == "open_url"@ {
        require_param_error(a, seq!["url"@, "url_pattern"@], lbl + "URL"@)
    } else if t == "open_app"@ || t == "activate_app"@ {
        require_param_error(a, seq!["bundle_id"@, "bundleId"@], lbl + "应用"@)
    } else if t == "send_notification"@ {
        None
    } else if t == "run_shell"@ {
        first_error(
            shell_action_error(a, lbl),
            require_param_error(a, seq!["script"@], lbl + "命令"@),
        )
    } else if t == "run_applescript"@ || t == "run_python"@ {
        require_param_error(a, seq!["script"@], lbl + "脚本"@)
    } else if t == "run_javascript"@ {
        require_param_error(a, seq!["code"@], lbl + "代码"@)
    } else {
        http_action_error(a, lbl)
    }
}

/// The first problem of action `index`, labelled with its number.
pub open spec fn action_error(a: ActionConfig, index: int) -> Option<Seq<char>> {
    let lbl = label("动作 "@, index);
    if !valid_action_type(a.action_type@) {
        Some(lbl + "类型无效"@)
    } else {
        first_error(common_action_error(a, lbl), type_action_error(a, a.action_type@, lbl))
    }
}

/// The first error among items `0 .. n`, item `i` checked by `f(i)`.
pub open spec fn first_error_upto(n: int, f: spec_fn(int) -> Option<Seq<char>>) -> Option<Seq<char>>
    decreases n,
{
    if n <= 0 {
        None
    } else {
        first_error(first_error_upto(n - 1, f), f(n - 1))
    }
}

proof fn lemma_upto_found(n: int, f: spec_fn(int) -> Option<Seq<char>>, i: int)
    requires
        0 <= i < n,
        first_error_upto(i, f) is None,
        f(i) is Some,
    ensures
        first_error_upto(n, f) == f(i),
    decreases n - i,
{
    if n > i + 1 {
        lemma_upto_found(n - 1, f, i);
    }
}

/// Action `i` of `acts`, checked.
pub open spec fn action_check(acts: Seq<ActionConfig>) -> spec_fn(int) -> Option<Seq<char>> {
    |i: int| action_error(acts[i], i)
}

/// The first problem among the actions, in order.
pub open spec fn actions_error(acts: Seq<ActionConfig>) -> Option<Seq<char>> {
    first_error_upto(acts.len() as int, action_check(acts))
}

fn validate_shell_action(action: &ActionConfig, lbl: &Vec<char>) -> (r: Result<(), String>)
    ensures
        outcome(r) == shell_action_error(*action, lbl@),
{
    let shell_keys: [&str; 1] = ["shell"];
    assert(str_views(shell_keys@) =~= seq!["shell"@]);
    let shell = lowercase_chars(&trim_chars(&param_text(action, &shell_keys)));
    let mode_keys: [&str; 2] = ["shell_mode", "shellMode"];
    assert(str_views(mode_keys@) =~= seq!["shell_mode"@, "shellMode"@]);
    let mode = lowercase_chars(&trim_chars(&param_text(action, &mode_keys)));
    if !(shell.len() == 0 || chars_eq_str(&shell, "bash") || chars_eq_str(&shell, "zsh")) {
        return Err(message(lbl, "Shell 无效"));
    }
    if !(mode.len() == 0 || chars_eq_str(&mode, "standard") || chars_eq_str(&mode, "login")
        || chars_eq_str(&mode, "interactive") || chars_eq_str(&mode, "login_interactive")
        || chars_eq_str(&mode, "login-interactive")) {
        return Err(message(lbl, "Shell 模式无效"));
    }
    Ok(())
}

fn all_ascii_alpha_chars(s: &Vec<char>) -> (r: bool)
    ensures
        r == all_ascii_alpha(s@),
{
    let mut i: usize = 0;
    while i < s.len()
        invariant
            i <= s.len(),
            forall|k: int| 0 <= k < i ==> is_ascii_alpha(#[trigger] s@[k]),
        decreases s.len() - i,
    {
        if !is_ascii_alpha_char(s[i]) {
            return false;
        }
        i += 1;
    }
    true
}

fn labelled(lbl: &Vec<char>, tail: &str) -> (r: Vec<char>)
    ensures
        r@ == lbl@ + tail@,
{
    let mut v = lbl.clone();
    extend_str(&mut v, tail);
    v
}

fn validate_http_action(action: &ActionConfig, lbl: &Vec<char>) -> (r: Result<(), String>)
    ensures
        outcome(r) == http_action_error(*action, lbl@),
{
    let url_keys: [&str; 1] = ["url"];
    assert(str_views(url_keys@) =~= seq!["url"@]);
    let r1 = require_action_parameter(action, &url_keys, &labelled(lbl, "HTTP URL"));
    if r1.is_err() {
        return r1;
    }
    let method_keys: [&str; 1] = ["method"];
    assert(str_views(method_keys@) =~= seq!["method"@]);
    let method = trim_chars(&param_text(action, &method_keys));
    if method.len() > 0 && !all_ascii_alpha_chars(&method) {
        return Err(message(lbl, "HTTP 方法无效"));
    }
    let header_keys: [&str; 1] = ["headers"];
    assert(str_views(header_keys@) =~= seq!["headers"@]);
    let r2 = validate_json_string_record_parameter(action, &header_keys, &labelled(lbl, "Headers JSON"));
    if r2.is_err() {
        return r2;
    }
    let count_keys: [&str; 2] = ["retry_count", "retryCount"];
    assert(str_views(count_keys@) =~= seq!["retry_count"@, "retryCount"@]);
    let r3 = validate_integer_parameter(action, &count_keys, 0, 5, &labelled(lbl, "重试次数"));
    if r3.is_err() {
        return r3;
    }
    let interval_keys: [&str; 2] = ["retry_interval_seconds", "retryIntervalSeconds"];
    assert(str_views(interval_keys@) =~= seq!["retry_interval_seconds"@, "retryIntervalSeconds"@]);
    validate_integer_parameter(action, &interval_keys, 0, 60, &labelled(lbl, "重试间隔"))
}

fn validate_action_common_parameters(action: &ActionConfig, lbl: &Vec<char>) -> (r: Result<(), String>)
    ensures
        outcome(r) == common_action_error(*action, lbl@),
{
    let timeout_keys: [&str; 2] = ["timeout_seconds", "timeout"];
    assert(str_views(timeout_keys@) =~= seq!["timeout_seconds"@, "timeout"@]);
    let r1 = validate_integer_parameter(action, &timeout_keys, 1, 300, &labelled(lbl, "超时秒数"));
    if r1.is_err() {
        return r1;
    }
    let env_keys: [&str; 2] = ["env_json", "envJson"];
    assert(str_views(env_keys@) =~= seq!["env_json"@, "envJson"@]);
    validate_json_string_record_parameter(action, &env_keys, &labelled(lbl, "环境变量 JSON"))
}

fn validate_action_for_save(action: &ActionConfig, index: usize) -> (r: Result<(), String>)
    requires
        index < usize::MAX,
    ensures
        outcome(r) == action_error(*action, index as int),
{
    let lbl = numbered("动作 ", index);
    if !is_valid_action_type(action.action_type.as_str()) {
        return Err(message(&lbl, "类型无效"));
    }
    let common = validate_action_common_parameters(action, &lbl);
    if common.is_err() {
        return common;
    }
    let t = chars_of(action.action_type.as_str());
    if chars_eq_str(&t, "open_url") {
        let keys: [&str; 2] = ["url", "url_pattern"];
        assert(str_views(keys@) =~= seq!["url"@, "url_pattern"@]);
        require_action_parameter(action, &keys, &labelled(&lbl, "URL"))
    } else if chars_eq_str(&t, "open_app") || chars_eq_str(&t, "activate_app") {
        let keys: [&str; 2] = ["bundle_id", "bundleId"];
        assert(str_views(keys@) =~= seq!["bundle_id"@, "bundleId"@]);
        require_action_parameter(action, &keys, &labelled(&lbl, "应用"))
    } else if chars_eq_str(&t, "send_notification") {
        Ok(())
    } else if chars_eq_str(&t, "run_shell") {
        let shell = validate_shell_action(action, &lbl);
        if shell.is_err() {
            return shell;
        }
        let keys: [&str; 1] = ["script"];
        assert(str_views(keys@) =~= seq!["script"@]);
        require_action_parameter(action, &keys, &labelled(&lbl, "命令"))
    } else if chars_eq_str(&t, "run_applescript") || chars_eq_str(&t, "run_python") {
        let keys: [&str; 1] = ["script"];
        assert(str_views(keys@) =~= seq!["script"@]);
        require_action_parameter(action, &keys, &labelled(&lbl, "脚本"))
    } else if chars_eq_str(&t, "run_javascript") {
        let keys: [&str; 1] = ["code"];
        assert(str_views(keys@) =~= seq!["code"@]);
        require_action_parameter(action, &keys, &labelled(&lbl, "代码"))
    } else {
        validate_http_action(action, &lbl)
    }
}

fn validate_actions_for_save(rule: &AutomationRule) -> (r: Result<(), String>)
    ensures
        outcome(r) == actions_error(actions_of(*rule)),
{
    let none: Vec<ActionConfig> = Vec::new();
    let acts = match &rule.actions {
        Some(v) => v,
        None => &none,
    };
    let ghost f = action_check(acts@);
    let mut i: usize = 0;
    while i < acts.len()
        invariant
            i <= acts.len(),
            acts@ == actions_of(*rule),
            f == action_check(acts@),
            first_error_upto(i as int, f) is None,
        decreases acts.len() - i,
    {
        let r = validate_action_for_save(&acts[i], i);
        if r.is_err() {
            proof {
                lemma_upto_found(acts.len() as int, f, i as int);
            }
            return r;
        }
        i += 1;
    }
    Ok(())
}

// ---------------------------------------------------------------------
// Conditions and custom variables
// ---------------------------------------------------------------------

/// The first problem of condition `index`: its variable is blank, its
/// operator unknown, or the value it compares against is blank.
pub open spec fn condition_error(c: MatchCondition, index: int) -> Option<Seq<char>> {
    let lbl = label("条件 "@, index);
    if is_blank(c.variable_name@) {
        Some(lbl + "变量为空"@)
    } else if !valid_match_operator(c.operator_type@) {
        Some(lbl + "匹配方式无效"@)
    } else if operator_needs_value(c.operator_type@) && is_blank(opt_text(c.expected_value)) {
        Some(lbl + "匹配值为空"@)
    } else {
        None
    }
}

/// Condition `i` of `conds`, checked.
pub open spec fn condition_check(conds: Seq<MatchCondition>) -> spec_fn(int) -> Option<Seq<char>> {
    |i: int| condition_error(conds[i], i)
}

/// The first problem among the conditions, in order.
pub open spec fn conditions_error(conds: Seq<MatchCondition>) -> Option<Seq<char>> {
    first_error_upto(conds.len() as int, condition_check(conds))
}

fn validate_match_conditions_for_save(rule: &AutomationRule) -> (r: Result<(), String>)
    ensures
        outcome(r) == conditions_error(conditions_of(*rule)),
{
    let none: Vec<MatchCondition> = Vec::new();
    let conds = match &rule.match_conditions {
        Some(v) => v,
        None => &none,
    };
    let ghost f = condition_check(conds@);
    let mut i: usize = 0;
    while i < conds.len()
        invariant
            i <= conds.len(),
            conds@ == conditions_of(*rule),
            f == condition_check(conds@),
            first_error_upto(i as int, f) is None,
        decreases conds.len() - i,
    {
        let c = &conds[i];
        let lbl = numbered("条件 ", i);
        let name = chars_of(c.variable_name.as_str());
        let expected: Vec<char> = match &c.expected_value {
            Some(e) => chars_of(e.as_str()),
            None => Vec::new(),
        };
        let err: Option<String> = if is_blank_chars(&name) {
            Some(message(&lbl, "变量为空"))
        } else if !is_valid_match_operator(c.operator_type.as_str()) {
            Some(message(&lbl, "匹配方式无效"))
        } else if match_operator_needs_value(c.operator_type.as_str()) && is_blank_chars(&expected) {
            Some(message(&lbl, "匹配值为空"))
        } else {
            None
        };
        match err {
            Some(e) => {
                proof {
                    lemma_upto_found(conds.len() as int, f, i as int);
                }
                return Err(e);
            },
            None => {},
        }
        i += 1;
    }
    Ok(())
}

/// A custom variable's name as duplicates are detected: trimmed and
/// lowercased.
pub open spec fn extraction_lower_name(r: VariableExtractionRule) -> Seq<char> {
    spec_to_lowercase(trim(r.name@))
}

/// The first problem of custom variable `i`: its (trimmed) name is
/// invalid or repeats an earlier one (ignoring case), or it is a regular
/// expression rule without a pattern.
pub open spec fn extraction_error_at(rules: Seq<VariableExtractionRule>, i: int) -> Option<Seq<char>> {
    let lbl = label("变量 "@, i);
    let name = trim(rules[i].name@);
    if !valid_variable_name(name) {
        Some(lbl + "名称无效"@)
    } else if exists|j: int| 0 <= j < i && #[trigger] extraction_lower_name(rules[j]) == spec_to_lowercase(name) {
        Some(lbl + "名称重复"@)
    } else if rules[i].method == VariableExtractionMethod::Regex && is_blank(opt_text(rules[i].pattern)) {
        Some(lbl + "正则为空"@)
    } else {
        None
    }
}

/// Custom variable `i` of `rules`, checked.
pub open spec fn extraction_check(rules: Seq<VariableExtractionRule>) -> spec_fn(int) -> Option<Seq<char>> {
    |i: int| extraction_error_at(rules, i)
}

/// The first problem among the custom variables, in order.
pub open spec fn extractions_error(rules: Seq<VariableExtractionRule>) -> Option<Seq<char>> {
    first_error_upto(rules.len() as int, extraction_check(rules))
}

fn contains_chars(list: &Vec<Vec<char>>, k: &Vec<char>) -> (r: bool)
    ensures
        r == exists|j: int| 0 <= j < list.len() && #[trigger] list@[j]@ == k@,
{
    let mut i: usize = 0;
    while i < list.len()
        invariant
            i <= list.len(),
            forall|j: int| 0 <= j < i ==> #[trigger] list@[j]@ != k@,
        decreases list.len() - i,
    {
        if chars_eq(&list[i], k) {
            return true;
        }
        i += 1;
    }
    false
}

fn validate_variable_extractions_for_save(rule: &AutomationRule) -> (r: Result<(), String>)
    ensures
        outcome(r) == extractions_error(extractions_of(*rule)),
{
    let none: Vec<VariableExtractionRule> = Vec::new();
    let exts = match &rule.variable_extractions {
        Some(v) => v,
        None => &none,
    };
    let ghost f = extraction_check(exts@);
    let mut seen: Vec<Vec<char>> = Vec::new();
    let mut i: usize = 0;
    while i < exts.len()
        invariant
            i <= exts.len(),
            exts@ == extractions_of(*rule),
            f == extraction_check(exts@),
            first_error_upto(i as int, f) is None,
            seen.len() == i,
            forall|j: int| 0 <= j < i ==> #[trigger] seen@[j]@ == extraction_lower_name(exts@[j]),
        decreases exts.len() - i,
    {
        let e = &exts[i];
        let lbl = numbered("变量 ", i);
        let name = trim_chars(&chars_of(e.name.as_str()));
        let name_s = string_of(&name);
        let lower = lowercase_chars(&name);
        let pattern: Vec<char> = match &e.pattern {
            Some(p) => chars_of(p.as_str()),
            None => Vec::new(),
        };
        let dup = contains_chars(&seen, &lower);
        assert(dup == exists|j: int| 0 <= j < i && #[trigger] extraction_lower_name(exts@[j]) == spec_to_lowercase(name@)) by {
            if dup {
                let j = choose|j: int| 0 <= j < seen.len() && #[trigger] seen@[j]@ == lower@;
                assert(extraction_lower_name(exts@[j]) == spec_to_lowercase(name@));
            }
            if exists|j: int| 0 <= j < i && #[trigger] extraction_lower_name(exts@[j]) == spec_to_lowercase(name@) {
                let j = choose|j: int| 0 <= j < i && #[trigger] extraction_lower_name(exts@[j]) == spec_to_lowercase(name@);
                assert(seen@[j]@ == lower@);
            }
        }
        let err: Option<String> = if !is_valid_variable_name(name_s.as_str()) {
            Some(message(&lbl, "名称无效"))
        } else if dup {
            Some(message(&lbl, "名称重复"))
        } else if e.method == VariableExtractionMethod::Regex && is_blank_chars(&pattern) {
            Some(message(&lbl, "正则为空"))
        } else {
            None
        };
        match err {
            Some(m) => {
                proof {
                    lemma_upto_found(exts.len() as int, f, i as int);
                }
                return Err(m);
            },
            None => {},
        }
        seen.push(lower);
        i += 1;
    }
    Ok(())
}

// ---------------------------------------------------------------------
// Regular expressions
// ---------------------------------------------------------------------

/// The problem the regex crate finds with `pattern` (compiled
/// case-insensitively when case does not matter), or blankness.
pub open spec fn regex_check(pattern: Seq<char>, case_sensitive: bool) -> Option<Seq<char>> {
    if is_blank(pattern) {
        Some("正则表达式为空"@)
    } else {
        spec_regex_error(case_pattern(pattern, case_sensitive))
    }
}

/// A `regex` or `not_regex` condition's pattern must be usable.
pub open spec fn condition_regex_error(c: MatchCondition, i: int) -> Option<Seq<char>> {
    if c.operator_type@ == "regex"@ || c.operator_type@ == "not_regex"@ {
        match regex_check(opt_text(c.expected_value), c.case_sensitive) {
            Some(e) => Some(label("条件 "@, i) + " 正则无效："@ + e),
            None => None,
        }
    } else {
        None
    }
}

/// A regular-expression custom variable's pattern must be usable.
pub open spec fn extraction_regex_error(r: VariableExtractionRule, i: int) -> Option<Seq<char>> {
    if r.method == VariableExtractionMethod::Regex {
        match regex_check(opt_text(r.pattern), true) {
            Some(e) => Some(label("变量 "@, i) + " 正则无效："@ + e),
            None => None,
        }
    } else {
        None
    }
}

/// Condition `i` of `conds`, its pattern checked.
pub open spec fn condition_regex_check(conds: Seq<MatchCondition>) -> spec_fn(int) -> Option<Seq<char>> {
    |i: int| condition_regex_error(conds[i], i)
}

/// Custom variable `i` of `rules`, its pattern checked.
pub open spec fn extraction_regex_check(rules: Seq<VariableExtractionRule>) -> spec_fn(int) -> Option<Seq<char>> {
    |i: int| extraction_regex_error(rules[i], i)
}

/// The first unusable pattern of a rule: conditions first, then custom
/// variables.
pub open spec fn rule_regexes_error(rule: AutomationRule) -> Option<Seq<char>> {
    first_error(
        first_error_upto(conditions_of(rule).len() as int, condition_regex_check(conditions_of(rule))),
        first_error_upto(extractions_of(rule).len() as int, extraction_regex_check(extractions_of(rule))),
    )
}

/// Checks the patterns of a rule's regular-expression conditions and
/// custom variables.
pub fn validate_rule_regexes(rule: &AutomationRule) -> (r: Result<(), String>)
    ensures
        outcome(r) == rule_regexes_error(*rule),
{
    let no_conds: Vec<MatchCondition> = Vec::new();
    let conds = match &rule.match_conditions {
        Some(v) => v,
        None => &no_conds,
    };
    let ghost f = condition_regex_check(conds@);
    let mut i: usize = 0;
    while i < conds.len()
        invariant
            i <= conds.len(),
            conds@ == conditions_of(*rule),
            f == condition_regex_check(conds@),
            first_error_upto(i as int, f) is None,
        decreases conds.len() - i,
    {
        let c = &conds[i];
        let op = chars_of(c.operator_type.as_str());
        if chars_eq_str(&op, "regex") || chars_eq_str(&op, "not_regex") {
            let pattern: String = match &c.expected_value {
                Some(e) => e.clone(),
                None => String::new(),
            };
            assert(pattern@ == opt_text(c.expected_value));
            match validate_regex_pattern(pattern.as_str(), c.case_sensitive) {
                Err(e) => {
                    let mut v = numbered("条件 ", i);
                    extend_str(&mut v, " 正则无效：");
                    extend_str(&mut v, e.as_str());
                    proof {
                        lemma_upto_found(conds.len() as int, f, i as int);
                    }
                    return Err(string_of(&v));
                },
                Ok(()) => {},
            }
        }
        i += 1;
    }
    let no_exts: Vec<VariableExtractionRule> = Vec::new();
    let exts = match &rule.variable_extractions {
        Some(v) => v,
        None => &no_exts,
    };
    let ghost g = extraction_regex_check(exts@);
    let mut j: usize = 0;
    while j < exts.len()
        invariant
            j <= exts.len(),
            exts@ == extractions_of(*rule),
            conds@ == conditions_of(*rule),
            f == condition_regex_check(conds@),
            first_error_upto(conds.len() as int, f) is None,
            g == extraction_regex_check(exts@),
            first_error_upto(j as int, g) is None,
        decreases exts.len() - j,
    {
        let e = &exts[j];
        if e.method == VariableExtractionMethod::Regex {
            let pattern: String = match &e.pattern {
                Some(p) => p.clone(),
                None => String::new(),
            };
            assert(pattern@ == opt_text(e.pattern));
            match validate_regex_pattern(pattern.as_str(), true) {
                Err(m) => {
                    let mut v = numbered("变量 ", j);
                    extend_str(&mut v, " 正则无效：");
                    extend_str(&mut v, m.as_str());
                    proof {
                        lemma_upto_found(exts.len() as int, g, j as int);
                    }
                    return Err(string_of(&v));
                },
                Ok(()) => {},
            }
        }
        j += 1;
    }
    Ok(())
}

// ---------------------------------------------------------------------
// Whole rules
// ---------------------------------------------------------------------

/// Some element is not blank.
pub open spec fn any_nonblank(s: Seq<String>) -> bool {
    exists|i: int| 0 <= i < s.len() && !is_blank(#[trigger] s[i]@)
}

/// The rule names at least one (non-blank) application.
pub open spec fn has_trigger_app(rule: AutomationRule) -> bool {
    match rule.app_identifiers {
        Some(v) => any_nonblank(v@),
        None => false,
    }
}

/// The rule has at least one condition.
pub open spec fn has_match_conditions(rule: AutomationRule) -> bool {
    match rule.match_conditions {
        Some(v) => v@.len() > 0,
        None => false,
    }
}

/// The rule has at least one action.
pub open spec fn has_actions(rule: AutomationRule) -> bool {
    match rule.actions {
        Some(v) => v@.len() > 0,
        None => false,
    }
}

/// Whether the rule names a (non-blank) application.
pub fn rule_has_trigger_app(rule: &AutomationRule) -> (r: bool)
    ensures
        r == has_trigger_app(*rule),
{
    match &rule.app_identifiers {
        Some(v) => {
            let mut i: usize = 0;
            while i < v.len()
                invariant
                    i <= v.len(),
                    rule.app_identifiers == Some(*v),
                    forall|j: int| 0 <= j < i ==> is_blank(#[trigger] v@[j]@),
                decreases v.len() - i,
            {
                let c = chars_of(v[i].as_str());
                if !is_blank_chars(&c) {
                    assert(!is_blank(v@[i as int]@));
                    assert(any_nonblank(v@));
                    return true;
                }
                i += 1;
            }
            false
        },
        None => false,
    }
}

/// Whether the rule has a condition.
pub fn rule_has_match_conditions(rule: &AutomationRule) -> (r: bool)
    ensures
        r == has_match_conditions(*rule),
{
    match &rule.match_conditions {
        Some(v) => v.len() > 0,
        None => false,
    }
}

/// Whether the rule has an action.
pub fn rule_has_actions(rule: &AutomationRule) -> (r: bool)
    ensures
        r == has_actions(*rule),
{
    match &rule.actions {
        Some(v) => v.len() > 0,
        None => false,
    }
}

/// The first problem of a rule: a blank name, no application, no
/// condition, no action, then those of its conditions, custom variables,
/// actions and patterns, in that order.
pub open spec fn rule_error(rule: AutomationRule) -> Option<Seq<char>> {
    if is_blank(rule.name@) {
        Some("规则名称为空"@)
    } else if !has_trigger_app(rule) {
        Some("触发应用为空"@)
    } else if !has_match_conditions(rule) {
        Some("匹配条件为空"@)
    } else if !has_actions(rule) {
        Some("触发动作为空"@)
    } else {
        first_error(
            conditions_error(conditions_of(rule)),
            first_error(
                extractions_error(extractions_of(rule)),
                first_error(actions_error(actions_of(rule)), rule_regexes_error(rule)),
            ),
        )
    }
}

/// Checks that a rule is complete and well-formed.
pub fn validate_rule_for_save(rule: &AutomationRule) -> (r: Result<(), String>)
    ensures
        outcome(r) == rule_error(*rule),
{
    let name = chars_of(rule.name.as_str());
    if is_blank_chars(&name) {
        return Err(string_of(&chars_of("规则名称为空")));
    }
    if !rule_has_trigger_app(rule) {
        return Err(string_of(&chars_of("触发应用为空")));
    }
    if !rule_has_match_conditions(rule) {
        return Err(string_of(&chars_of("匹配条件为空")));
    }
    if !rule_has_actions(rule) {
        return Err(string_of(&chars_of("触发动作为空")));
    }
    let r1 = validate_match_conditions_for_save(rule);
    if r1.is_err() {
        return r1;
    }
    let r2 = validate_variable_extractions_for_save(rule);
    if r2.is_err() {
        return r2;
    }
    let r3 = validate_actions_for_save(rule);
    if r3.is_err() {
        return r3;
    }
    validate_rule_regexes(rule)
}

/// Rule `i` of `rules`, checked when it is on, its name in the message.
pub open spec fn enabled_rule_check(rules: Seq<AutomationRule>) -> spec_fn(int) -> Option<Seq<char>> {
    |i: int|
        if rule_enabled(rules[i]) {
            match rule_error(rules[i]) {
                Some(e) => Some("规则「"@ + rules[i].name@ + "」"@ + e),
                None => None,
            }
        } else {
            None
        }
}

/// The first problem among the rules that are on.
pub open spec fn rules_error(rules: Seq<AutomationRule>) -> Option<Seq<char>> {
    first_error_upto(rules.len() as int, enabled_rule_check(rules))
}

/// Checks every rule that is on; rules that are off may be incomplete.
pub fn validate_rules_for_save(rules: &Vec<AutomationRule>) -> (r: Result<(), String>)
    ensures
        outcome(r) == rules_error(rules@),
{
    let ghost f = enabled_rule_check(rules@);
    let mut i: usize = 0;
    while i < rules.len()
        invariant
            i <= rules.len(),
            f == enabled_rule_check(rules@),
            first_error_upto(i as int, f) is None,
        decreases rules.len() - i,
    {
        let rule = &rules[i];
        if rule.is_enabled() {
            match validate_rule_for_save(rule) {
                Err(e) => {
                    let mut v = chars_of("规则「");
                    extend_str(&mut v, rule.name.as_str());
                    extend_str(&mut v, "」");
                    extend_str(&mut v, e.as_str());
                    proof {
                        lemma_upto_found(rules.len() as int, f, i as int);
                    }
                    return Err(string_of(&v));
                },
                Ok(()) => {},
            }
        }
        i += 1;
    }
    Ok(())
}

} // verus!
