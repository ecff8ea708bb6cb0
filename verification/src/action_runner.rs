//! What a rule's actions do: their previews, the commands they run, and
//! how their outcomes are reported.
use vstd::prelude::*;
use crate::foreign::{spec_utf8_lossy, utf8_lossy};
use crate::paths::{file_name, file_name_of};
use crate::rules::ActionConfig;
use crate::strmap::{StringMap, Pairs};
use crate::template::{replace_variables, spec_replace_variables, utf8_width};
use crate::text::{
    chars_eq_str, chars_of, decimal, extend_chars, extend_str, is_blank, is_blank_chars,
    lowercase_chars, owned, parse_u64, parse_unsigned, slice_chars, spec_to_lowercase, string_of,
    take_chars, trim, trim_chars,
};
use crate::template::utf8_len;
use crate::validation::{action_parameter, param_lookup, str_views};
use crate::automation::signed_decimal;

verus! {

// ---------------------------------------------------------------------
// Outcomes
// ---------------------------------------------------------------------

/// The outcome of one action.
#[derive(Clone, Debug)]
pub struct ActionExecution {
    pub action_type: String,
    pub success: bool,
    pub message: String,
    pub output: Option<String>,
    pub duration_ms: u64,
    pub attempt_count: u32,
}

/// An action that succeeded.
#[derive(Clone, Debug)]
pub struct ActionRunSuccess {
    pub message: String,
    pub output: Option<String>,
    pub attempt_count: u32,
}

/// An action that failed.
#[derive(Clone, Debug)]
pub struct ActionRunFailure {
    pub message: String,
    pub attempt_count: u32,
}

/// `r` records an action of type `action_type` that ended in `result`
/// after `duration_ms`: its message (a failure's prefixed with
/// `动作失败：`), its output on success, and at least one attempt.
pub open spec fn is_execution(
    r: ActionExecution,
    action_type: Seq<char>,
    result: Result<ActionRunSuccess, ActionRunFailure>,
    duration_ms: u64,
) -> bool {
    &&& r.action_type@ == action_type
    &&& r.duration_ms == duration_ms
    &&& match result {
        Ok(s) => r.success && r.message == s.message && r.output == s.output && r.attempt_count == (
        if s.attempt_count > 1 {
            s.attempt_count
        } else {
            1
        }),
        Err(f) => !r.success && r.message@ == "动作失败："@ + f.message@ && r.output is None
            && r.attempt_count == (if f.attempt_count > 1 {
            f.attempt_count
        } else {
            1
        }),
    }
}

/// What the history records of an action's outcome.
pub fn action_execution(action_type: &str, result: Result<ActionRunSuccess, ActionRunFailure>, duration_ms: u64) -> (r: ActionExecution)
    ensures
        is_execution(r, action_type@, result, duration_ms),
{
    match result {
        Ok(s) => ActionExecution {
            action_type: owned(action_type),
            success: true,
            message: s.message,
            output: s.output,
            duration_ms,
            attempt_count: if s.attempt_count > 1 {
                s.attempt_count
            } else {
                1
            },
        },
        Err(f) => {
            let mut m = chars_of("动作失败：");
            extend_str(&mut m, f.message.as_str());
            ActionExecution {
                action_type: owned(action_type),
                success: false,
                message: string_of(&m),
                output: None,
                duration_ms,
                attempt_count: if f.attempt_count > 1 {
                    f.attempt_count
                } else {
                    1
                },
            }
        },
    }
}

/// Runs `actions` one after another with `run` (which performs an action
/// and says how it ended and how long it took, in milliseconds) and
/// records each outcome, in order.
pub fn run_actions_detailed<F>(actions: &Vec<ActionConfig>, variables: &StringMap, run: &F) -> (r: Vec<ActionExecution>) where
    F: Fn(&ActionConfig, &StringMap) -> (Result<ActionRunSuccess, ActionRunFailure>, u64),

    requires
        forall|i: int| 0 <= i < actions@.len() ==> run.requires((&actions@[i], variables)),
    ensures
        r@.len() == actions@.len(),
        forall|i: int|
            0 <= i < actions@.len() ==> #[trigger] ran_action(*run, actions@[i], *variables, r@[i]),
{
    let mut out: Vec<ActionExecution> = Vec::new();
    let ghost mut outcomes: Seq<(Result<ActionRunSuccess, ActionRunFailure>, u64)> = seq![];
    let mut i: usize = 0;
    while i < actions.len()
        invariant
            i <= actions@.len(),
            out@.len() == i,
            outcomes.len() == i,
            forall|j: int| 0 <= j < actions@.len() ==> run.requires((&actions@[j], variables)),
            forall|j: int|
                0 <= j < i ==> run.ensures((&actions@[j], variables), #[trigger] outcomes[j]) && is_execution(
                    out@[j],
                    actions@[j].action_type@,
                    outcomes[j].0,
                    outcomes[j].1,
                ),
        decreases actions.len() - i,
    {
        let action = &actions[i];
        let outcome = run(action, variables);
        proof {
            outcomes = outcomes.push(outcome);
        }
        let (result, duration_ms) = outcome;
        let execution = action_execution(action.action_type.as_str(), result, duration_ms);
        out.push(execution);
        i += 1;
    }
    proof {
        assert forall|k: int| 0 <= k < actions@.len() implies #[trigger] ran_action(*run, actions@[k], *variables, out@[k]) by {
            assert(run.ensures((&actions@[k], variables), outcomes[k]));
        }
    }
    out
}

/// `e` records a run of `action` by `run`: some outcome `run` may give for
/// it, with its duration.
pub open spec fn ran_action<F: Fn(&ActionConfig, &StringMap) -> (Result<ActionRunSuccess, ActionRunFailure>, u64)>(
    run: F,
    action: ActionConfig,
    variables: StringMap,
    e: ActionExecution,
) -> bool {
    exists|o: (Result<ActionRunSuccess, ActionRunFailure>, u64)|
        #[trigger] run.ensures((&action, &variables), o) && is_execution(e, action.action_type@, o.0, o.1)
}

// ---------------------------------------------------------------------
// Previews
// ---------------------------------------------------------------------

/// A parameter of a previewed action.
#[derive(Clone, Debug)]
pub struct DryRunParameter {
    pub name: String,
    pub value: String,
}

/// An action as it would run.
#[derive(Clone, Debug)]
pub struct ActionDryRun {
    pub action_type: String,
    pub parameters: Vec<DryRunParameter>,
}

/// A previewed value: at most 600 characters, longer ones cut with a
/// marker.
pub open spec fn display_value(s: Seq<char>) -> Seq<char> {
    if s.len() <= 600 {
        s
    } else {
        s.take(600) + "…（已截断）"@
    }
}

/// Cuts a previewed value to 600 characters.
pub fn truncate_display_value(value: &str) -> (r: String)
    ensures
        r@ == display_value(value@),
{
    let v = chars_of(value);
    if v.len() <= 600 {
        return owned(value);
    }
    let mut t = take_chars(&v, 600);
    extend_str(&mut t, "…（已截断）");
    string_of(&t)
}

/// The preview of an action's parameters: each non-blank one, in name
/// order, with the variables filled in.
pub open spec fn preview_params(params: Pairs, vars: Pairs) -> Seq<(Seq<char>, Seq<char>)>
    decreases params.len(),
{
    if params.len() == 0 {
        seq![]
    } else {
        let prev = preview_params(params.drop_last(), vars);
        let (k, v) = params.last();
        if is_blank(v) {
            prev
        } else {
            prev.push((k, display_value(spec_replace_variables(v, vars))))
        }
    }
}

/// The views of previewed parameters.
pub open spec fn param_views(ps: Seq<DryRunParameter>) -> Seq<(Seq<char>, Seq<char>)> {
    ps.map_values(|p: DryRunParameter| (p.name@, p.value@))
}

fn preview_action(action: &ActionConfig, variables: &StringMap) -> (r: ActionDryRun)
    ensures
        r.action_type == action.action_type,
        param_views(r.parameters@) == preview_params(action.parameters.pairs(), variables.pairs()),
{
    let params = &action.parameters;
    let ghost ps = params.pairs();
    let mut out: Vec<DryRunParameter> = Vec::new();
    let n = params.len();
    let mut i: usize = 0;
    while i < n
        invariant
            i <= n,
            ps == params.pairs(),
            n == ps.len(),
            param_views(out@) == preview_params(ps.take(i as int), variables.pairs()),
        decreases n - i,
    {
        assert(ps.take(i + 1).drop_last() =~= ps.take(i as int));
        assert(ps.take(i + 1).last() == ps[i as int]);
        let (name, value) = params.entry(i);
        let vc = chars_of(value.as_str());
        if !is_blank_chars(&vc) {
            let filled = replace_variables(value.as_str(), variables);
            let shown = truncate_display_value(filled.as_str());
            let ghost before = param_views(out@);
            out.push(DryRunParameter { name: name.clone(), value: shown });
            assert(param_views(out@) =~= before.push((ps[i as int].0, display_value(spec_replace_variables(ps[i as int].1, variables.pairs())))));
        }
        i += 1;
    }
    assert(ps.take(n as int) =~= ps);
    ActionDryRun { action_type: action.action_type.clone(), parameters: out }
}

/// Fills in the variables of each action without running anything, to
/// show what would run.
pub fn dry_run_actions(actions: &Vec<ActionConfig>, variables: &StringMap) -> (r: Vec<ActionDryRun>)
    ensures
        r@.len() == actions@.len(),
        forall|i: int|
            0 <= i < r@.len() ==> (#[trigger] r@[i]).action_type == actions@[i].action_type
                && param_views(r@[i].parameters@) == preview_params(
                actions@[i].parameters.pairs(),
                variables.pairs(),
            ),
{
    let mut out: Vec<ActionDryRun> = Vec::new();
    let mut i: usize = 0;
    while i < actions.len()
        invariant
            i <= actions.len(),
            out@.len() == i,
            forall|j: int|
                0 <= j < i ==> (#[trigger] out@[j]).action_type == actions@[j].action_type
                    && param_views(out@[j].parameters@) == preview_params(
                    actions@[j].parameters.pairs(),
                    variables.pairs(),
                ),
        decreases actions.len() - i,
    {
        out.push(preview_action(&actions[i], variables));
        i += 1;
    }
    out
}

// ---------------------------------------------------------------------
// Shells and parameters
// ---------------------------------------------------------------------

/// The value of the first of `keys` present, trimmed and lowercased;
/// `default` when absent or blank.
pub open spec fn lowered_choice(a: ActionConfig, keys: Seq<Seq<char>>, default: Seq<char>) -> Seq<char> {
    match param_lookup(a, keys) {
        Some(v) => if spec_to_lowercase(trim(v)).len() > 0 {
            spec_to_lowercase(trim(v))
        } else {
            default
        },
        None => default,
    }
}

fn lowered_param(action: &ActionConfig, keys: &[&str], default: &str) -> (r: Vec<char>)
    ensures
        r@ == lowered_choice(*action, str_views(keys@), default@),
{
    match action_parameter(action, keys) {
        Some(v) => {
            let l = lowercase_chars(&trim_chars(&chars_of(v.as_str())));
            if l.len() > 0 {
                l
            } else {
                chars_of(default)
            }
        },
        None => chars_of(default),
    }
}

/// The shell a shell action runs: bash unless zsh is chosen.
pub open spec fn shell_executable_of(a: ActionConfig) -> Result<Seq<char>, Seq<char>> {
    let shell = lowered_choice(a, seq!["shell"@], "bash"@);
    if shell == "bash"@ {
        Ok("/bin/bash"@)
    } else if shell == "zsh"@ {
        Ok("/bin/zsh"@)
    } else {
        Err("不支持的 Shell："@ + shell)
    }
}

/// The shell a shell action runs.
pub fn shell_executable(action: &ActionConfig) -> (r: Result<String, String>)
    ensures
        match r {
            Ok(p) => shell_executable_of(*action) == Ok::<Seq<char>, Seq<char>>(p@),
            Err(e) => shell_executable_of(*action) == Err::<Seq<char>, Seq<char>>(e@),
        },
{
    let keys: [&str; 1] = ["shell"];
    assert(str_views(keys@) =~= seq!["shell"@]);
    let shell = lowered_param(action, &keys, "bash");
    if chars_eq_str(&shell, "bash") {
        Ok(owned("/bin/bash"))
    } else if chars_eq_str(&shell, "zsh") {
        Ok(owned("/bin/zsh"))
    } else {
        let mut m = chars_of("不支持的 Shell：");
        extend_chars(&mut m, &shell);
        Err(string_of(&m))
    }
}

/// The options that start the shell in the chosen mode, before the
/// script: `-c`, with `-l` for a login shell and `-i` for an interactive
/// one.
pub open spec fn shell_args_of(a: ActionConfig) -> Result<Seq<Seq<char>>, Seq<char>> {
    let mode = lowered_choice(a, seq!["shell_mode"@, "shellMode"@], "standard"@);
    if mode == "standard"@ {
        Ok(seq!["-c"@])
    } else if mode == "login"@ {
        Ok(seq!["-l"@, "-c"@])
    } else if mode == "interactive"@ {
        Ok(seq!["-i"@, "-c"@])
    } else if mode == "login_interactive"@ || mode == "login-interactive"@ {
        Ok(seq!["-l"@, "-i"@, "-c"@])
    } else {
        Err("不支持的 Shell 模式："@ + mode)
    }
}

/// The views of a list of strings.
pub open spec fn string_views(v: Seq<String>) -> Seq<Seq<char>> {
    v.map_values(|s: String| s@)
}

/// The options that start the shell in the chosen mode.
pub fn shell_args(action: &ActionConfig) -> (r: Result<Vec<String>, String>)
    ensures
        match r {
            Ok(a) => shell_args_of(*action) == Ok::<Seq<Seq<char>>, Seq<char>>(string_views(a@)),
            Err(e) => shell_args_of(*action) == Err::<Seq<Seq<char>>, Seq<char>>(e@),
        },
{
    let keys: [&str; 2] = ["shell_mode", "shellMode"];
    assert(str_views(keys@) =~= seq!["shell_mode"@, "shellMode"@]);
    let mode = lowered_param(action, &keys, "standard");
    let mut args: Vec<String> = Vec::new();
    if chars_eq_str(&mode, "standard") {
        args.push(owned("-c"));
        assert(string_views(args@) =~= seq!["-c"@]);
    } else if chars_eq_str(&mode, "login") {
        args.push(owned("-l"));
        args.push(owned("-c"));
        assert(string_views(args@) =~= seq!["-l"@, "-c"@]);
    } else if chars_eq_str(&mode, "interactive") {
        args.push(owned("-i"));
        args.push(owned("-c"));
        assert(string_views(args@) =~= seq!["-i"@, "-c"@]);
    } else if chars_eq_str(&mode, "login_interactive") || chars_eq_str(&mode, "login-interactive") {
        args.push(owned("-l"));
        args.push(owned("-i"));
        args.push(owned("-c"));
        assert(string_views(args@) =~= seq!["-l"@, "-i"@, "-c"@]);
    } else {
        let mut m = chars_of("不支持的 Shell 模式：");
        extend_chars(&mut m, &mode);
        return Err(string_of(&m));
    }
    Ok(args)
}

/// The HTTP method: the trimmed `method` parameter, `GET` when absent or
/// blank.
pub open spec fn http_method_of(a: ActionConfig) -> Seq<char> {
    match a.parameters.get_spec("method"@) {
        Some(v) => if trim(v).len() > 0 {
            trim(v)
        } else {
            "GET"@
        },
        None => "GET"@,
    }
}

/// The HTTP method of a request action.
pub fn http_method(action: &ActionConfig) -> (r: String)
    ensures
        r@ == http_method_of(*action),
{
    match action.parameters.get_str("method") {
        Some(v) => {
            let t = trim_chars(&chars_of(v.as_str()));
            if t.len() > 0 {
                string_of(&t)
            } else {
                owned("GET")
            }
        },
        None => owned("GET"),
    }
}

/// The first of `keys` present, read as an unsigned integer (trimmed);
/// none when absent or not a number.
pub open spec fn u64_param(a: ActionConfig, keys: Seq<Seq<char>>) -> Option<nat> {
    match param_lookup(a, keys) {
        Some(v) => parse_unsigned(trim(v), u64::MAX as nat),
        None => None,
    }
}

/// The first of `keys` present, read as an unsigned integer.
pub fn action_u64_parameter(action: &ActionConfig, keys: &[&str]) -> (r: Option<u64>)
    ensures
        match r {
            Some(n) => u64_param(*action, str_views(keys@)) == Some(n as nat),
            None => u64_param(*action, str_views(keys@)) is None,
        },
{
    match action_parameter(action, keys) {
        Some(v) => parse_u64(&trim_chars(&chars_of(v.as_str()))),
        None => None,
    }
}

/// An action's time limit in seconds: its `timeout_seconds` (or
/// `timeout`) when positive, else 30; at most 300.
pub open spec fn timeout_of(a: ActionConfig) -> nat {
    let n: nat = match u64_param(a, seq!["timeout_seconds"@, "timeout"@]) {
        Some(n) => if n > 0 {
            n
        } else {
            30
        },
        None => 30,
    };
    if n < 300 {
        n
    } else {
        300
    }
}

/// An action's time limit in seconds.
pub fn action_timeout(action: &ActionConfig) -> (r: u64)
    ensures
        r == timeout_of(*action),
{
    let keys: [&str; 2] = ["timeout_seconds", "timeout"];
    assert(str_views(keys@) =~= seq!["timeout_seconds"@, "timeout"@]);
    let n: u64 = match action_u64_parameter(action, &keys) {
        Some(n) => if n > 0 {
            n
        } else {
            30
        },
        None => 30,
    };
    if n < 300 {
        n
    } else {
        300
    }
}

// ---------------------------------------------------------------------
// Output
// ---------------------------------------------------------------------

/// The number of leading characters of `s` whose UTF-8 encoding fits in
/// `max` bytes.
pub open spec fn fitting_prefix(s: Seq<char>, max: nat) -> nat
    decreases s.len(),
{
    if s.len() == 0 || utf8_len(s) <= max {
        s.len()
    } else {
        fitting_prefix(s.drop_last(), max)
    }
}

/// Output kept for display: up to 8 KiB, cut at a character boundary
/// with a marker.
pub open spec fn truncated_output(s: Seq<char>) -> Seq<char> {
    if utf8_len(s) <= 8192 {
        s
    } else {
        s.take(fitting_prefix(s, 8192) as int) + "\n…（输出已截断）"@
    }
}

fn utf8_width_of(c: char) -> (r: u128)
    ensures
        r == utf8_width(c),
        r <= 4,
{
    let u = c as u32;
    if u < 0x80 {
        1
    } else if u < 0x800 {
        2
    } else if u < 0x10000 {
        3
    } else {
        4
    }
}

fn utf8_len_of(s: &Vec<char>) -> (r: u128)
    ensures
        r == utf8_len(s@),
{
    let mut n: u128 = 0;
    let mut i: usize = 0;
    while i < s.len()
        invariant
            i <= s.len(),
            n == utf8_len(s@.take(i as int)),
            n <= 4 * i,
        decreases s.len() - i,
    {
        assert(s@.take(i + 1).drop_last() =~= s@.take(i as int));
        n = n + utf8_width_of(s[i]);
        i += 1;
    }
    assert(s@.take(s.len() as int) =~= s@);
    n
}

/// Cuts displayed output to 8 KiB.
pub fn truncate_output_text(text: &Vec<char>) -> (r: Vec<char>)
    ensures
        r@ == truncated_output(text@),
{
    let mut total = utf8_len_of(text);
    if total <= 8192 {
        return text.clone();
    }
    let mut n: usize = text.len();
    assert(text@.take(n as int) =~= text@);
    while n > 0 && total > 8192
        invariant
            n <= text.len(),
            total == utf8_len(text@.take(n as int)),
            fitting_prefix(text@, 8192) == fitting_prefix(text@.take(n as int), 8192),
        decreases n,
    {
        assert(text@.take(n as int).drop_last() =~= text@.take(n - 1));
        assert(text@.take(n as int).last() == text@[n - 1]);
        let w = utf8_width_of(text[n - 1]);
        total = total - w;
        n -= 1;
    }
    let mut r = slice_chars(text, 0, n);
    assert(r@ =~= text@.take(n as int));
    extend_str(&mut r, "\n…（输出已截断）");
    r
}

/// The output shown for a finished command: its trimmed standard output
/// and (marked) standard error, each cut to 8 KiB, a blank line between;
/// none when both are blank.
pub open spec fn snippet_of(stdout: Seq<char>, stderr: Seq<char>) -> Option<Seq<char>> {
    let a = trim(stdout);
    let b = trim(stderr);
    if a.len() == 0 && b.len() == 0 {
        None
    } else if b.len() == 0 {
        Some(truncated_output(a))
    } else if a.len() == 0 {
        Some("[stderr]\n"@ + truncated_output(b))
    } else {
        Some(truncated_output(a) + "\n\n"@ + "[stderr]\n"@ + truncated_output(b))
    }
}

/// The output shown for a finished command.
pub fn output_snippet(stdout: &str, stderr: &str) -> (r: Option<String>)
    ensures
        match r {
            Some(s) => snippet_of(stdout@, stderr@) == Some(s@),
            None => snippet_of(stdout@, stderr@) is None,
        },
{
    let a = trim_chars(&chars_of(stdout));
    let b = trim_chars(&chars_of(stderr));
    if a.len() == 0 && b.len() == 0 {
        return None;
    }
    if b.len() == 0 {
        return Some(string_of(&truncate_output_text(&a)));
    }
    let mut err = chars_of("[stderr]\n");
    extend_chars(&mut err, &truncate_output_text(&b));
    if a.len() == 0 {
        return Some(string_of(&err));
    }
    let mut out = truncate_output_text(&a);
    extend_str(&mut out, "\n\n");
    extend_chars(&mut out, &err);
    Some(string_of(&out))
}

/// What is kept of a command's captured output: at most 16 KiB of it
/// (invalid UTF-8 replaced), with a marker when more was captured.
pub open spec fn limited_output(bytes: Seq<u8>) -> Seq<char> {
    if bytes.len() > 16384 {
        spec_utf8_lossy(bytes.take(16384)) + "\n...输出过长，已截断"@
    } else {
        spec_utf8_lossy(bytes)
    }
}

/// What is kept of a command's captured output (the app reads at most
/// one byte more than is kept).
pub fn limited_output_text(bytes: &[u8]) -> (r: String)
    ensures
        r@ == limited_output(bytes@),
{
    if bytes.len() <= 16384 {
        return utf8_lossy(bytes);
    }
    let mut kept: Vec<u8> = Vec::new();
    let mut i: usize = 0;
    while i < 16384
        invariant
            i <= 16384,
            bytes@.len() > 16384,
            kept@ =~= bytes@.take(i as int),
        decreases 16384 - i,
    {
        kept.push(bytes[i]);
        i += 1;
    }
    let text = utf8_lossy(kept.as_slice());
    let mut v = chars_of(text.as_str());
    extend_str(&mut v, "\n...输出过长，已截断");
    string_of(&v)
}

/// `{:?}` of an exit code.
pub open spec fn exit_code_text(code: Option<i32>) -> Seq<char> {
    match code {
        Some(c) => "Some("@ + signed_decimal(c as int) + ")"@,
        None => "None"@,
    }
}

/// The error of a command that exited unsuccessfully.
pub fn command_failure_message(label: &str, code: Option<i32>, stdout: &str, stderr: &str) -> (r: String)
    ensures
        r@ == label@ + " 退出码 "@ + exit_code_text(code) + "："@ + trim(stdout@) + trim(stderr@),
{
    let mut v = chars_of(label);
    extend_str(&mut v, " 退出码 ");
    match code {
        Some(c) => {
            extend_str(&mut v, "Some(");
            extend_chars(&mut v, &crate::automation::signed_decimal_exec(c as i64));
            extend_str(&mut v, ")");
        },
        None => extend_str(&mut v, "None"),
    }
    extend_str(&mut v, "：");
    extend_chars(&mut v, &trim_chars(&chars_of(stdout)));
    extend_chars(&mut v, &trim_chars(&chars_of(stderr)));
    string_of(&v)
}

/// The error of a command stopped at its time limit.
pub fn timeout_message(label: &str, seconds: u64) -> (r: String)
    ensures
        r@ == label@ + " 执行超时（"@ + crate::text::spec_decimal(seconds as nat) + " 秒）"@,
{
    let mut v = chars_of(label);
    extend_str(&mut v, " 执行超时（");
    extend_chars(&mut v, &decimal(seconds));
    extend_str(&mut v, " 秒）");
    string_of(&v)
}

/// The error of a command stopped for writing too much output.
pub fn output_too_large_message(label: &str) -> (r: String)
    ensures
        r@ == label@ + " 输出过大（超过 4 MB）"@,
{
    let mut v = chars_of(label);
    extend_str(&mut v, " 输出过大（超过 4 MB）");
    string_of(&v)
}

/// A command is stopped once its two output files hold more than 4 MiB
/// together.
pub fn output_files_exceed_limit(stdout_bytes: u64, stderr_bytes: u64) -> (r: bool)
    ensures
        r == (stdout_bytes + stderr_bytes > 4194304),
{
    let total: u64 = if stdout_bytes > u64::MAX - stderr_bytes {
        u64::MAX
    } else {
        stdout_bytes + stderr_bytes
    };
    total > 4194304
}


/// What the runner does after one look at a running command.
#[derive(Clone, Copy, Debug, PartialEq, Eq, Structural)]
pub enum CommandPoll {
    /// It has exited: its output is read.
    Finished,
    /// Its time is up: it is stopped and the timeout reported.
    TimedOut,
    /// Its output went over the limit: it is stopped and that reported.
    OutputTooLarge,
    /// It is still running: look again after a short pause.
    Wait,
}

/// One look at a running command, given whether it has exited, how long
/// it has run, its time limit and the sizes of its two output files: an
/// exited command is finished; else one whose time is up is timed out;
/// else one whose output is over the limit is stopped for that; else the
/// runner waits.
pub fn command_poll_step(exited: bool, elapsed_millis: u128, timeout_seconds: u64, stdout_bytes: u64, stderr_bytes: u64) -> (r: CommandPoll)
    ensures
        r == (if exited {
            CommandPoll::Finished
        } else if elapsed_millis >= timeout_seconds * 1000 {
            CommandPoll::TimedOut
        } else if stdout_bytes + stderr_bytes > 4194304 {
            CommandPoll::OutputTooLarge
        } else {
            CommandPoll::Wait
        }),
{
    let limit: u128 = (timeout_seconds as u128) * 1000;
    if exited {
        CommandPoll::Finished
    } else if elapsed_millis >= limit {
        CommandPoll::TimedOut
    } else if output_files_exceed_limit(stdout_bytes, stderr_bytes) {
        CommandPoll::OutputTooLarge
    } else {
        CommandPoll::Wait
    }
}

// ---------------------------------------------------------------------
// Output files
// ---------------------------------------------------------------------

/// The name of a file the runner captures output in.
pub open spec fn output_file_name(name: Seq<char>) -> bool {
    "noticeflow-action-"@.is_prefix_of(name) && ".log"@.is_suffix_of(name)
}

/// Whether `path` names a file the runner captures output in.
pub fn is_action_output_file(path: &str) -> (r: bool)
    ensures
        r == match file_name(path@) {
            Some(n) => output_file_name(n),
            None => false,
        },
{
    match file_name_of(path) {
        Some(n) => crate::text::starts_with(&n, &chars_of("noticeflow-action-"))
            && crate::text::ends_with(&n, &chars_of(".log")),
        None => false,
    }
}

/// A leftover output file is removed once older than `max_age` (times in
/// nanoseconds since the Unix epoch; a file from the future counts as
/// new).
pub fn should_remove_action_output_file(path: &str, modified_nanos: u128, now_nanos: u128, max_age_nanos: u128) -> (r: bool)
    ensures
        r == ((match file_name(path@) {
            Some(n) => output_file_name(n),
            None => false,
        }) && now_nanos > modified_nanos && now_nanos - modified_nanos > max_age_nanos),
{
    is_action_output_file(path) && now_nanos > modified_nanos && now_nanos - modified_nanos > max_age_nanos
}

// ---------------------------------------------------------------------
// Commands
// ---------------------------------------------------------------------

/// A command an action runs, as the runner starts it.
#[derive(Debug)]
pub struct ProcessPlan {
    pub program: String,
    pub args: Vec<String>,
    /// Names the command in its messages.
    pub label: String,
    pub timeout_seconds: u64,
    /// The directory to run in; the runner checks that it is one.
    pub working_directory: Option<String>,
    /// The variables to set, or why they could not be read.
    pub environment: Result<Vec<(String, String)>, String>,
    /// Whether the command's output is shown.
    pub capture_output: bool,
    pub success_message: String,
}

/// A command as a value: program, arguments, label, time limit, working
/// directory, environment, whether output is shown, success message.
pub struct PlannedCommand {
    pub program: Seq<char>,
    pub args: Seq<Seq<char>>,
    pub label: Seq<char>,
    pub timeout_seconds: nat,
    pub working_directory: Option<Seq<char>>,
    pub environment: Result<Seq<(Seq<char>, Seq<char>)>, Seq<char>>,
    pub capture_output: bool,
    pub success_message: Seq<char>,
}

/// The views of environment entries.
pub open spec fn entry_views(v: Seq<(String, String)>) -> Seq<(Seq<char>, Seq<char>)> {
    v.map_values(|e: (String, String)| (e.0@, e.1@))
}

impl ProcessPlan {
    /// The command as a value.
    pub open spec fn planned(&self) -> PlannedCommand {
        PlannedCommand {
            program: self.program@,
            args: string_views(self.args@),
            label: self.label@,
            timeout_seconds: self.timeout_seconds as nat,
            working_directory: match self.working_directory {
                Some(w) => Some(w@),
                None => None,
            },
            environment: match self.environment {
                Ok(v) => Ok(entry_views(v@)),
                Err(e) => Err(e@),
            },
            capture_output: self.capture_output,
            success_message: self.success_message@,
        }
    }
}

/// The directory a script runs in: the first of `working_directory`,
/// `workingDirectory` present, variables filled in, when not blank.
pub open spec fn working_directory_of(a: ActionConfig, vars: Pairs) -> Option<Seq<char>> {
    match param_lookup(a, seq!["working_directory"@, "workingDirectory"@]) {
        Some(v) => {
            let filled = spec_replace_variables(v, vars);
            if is_blank(filled) {
                None
            } else {
                Some(filled)
            }
        },
        None => None,
    }
}

/// The environment entries of a script: each entry with a non-blank
/// name, its value with the variables filled in.
pub open spec fn env_entries(entries: Seq<(Seq<char>, Seq<char>)>, vars: Pairs) -> Seq<(Seq<char>, Seq<char>)>
    decreases entries.len(),
{
    if entries.len() == 0 {
        seq![]
    } else {
        let prev = env_entries(entries.drop_last(), vars);
        let (k, v) = entries.last();
        if is_blank(k) {
            prev
        } else {
            prev.push((k, spec_replace_variables(v, vars)))
        }
    }
}

/// The environment of a script: from the first of `env_json`, `envJson`
/// present and not blank, a JSON object of strings.
pub open spec fn environment_of(a: ActionConfig, vars: Pairs) -> Result<Seq<(Seq<char>, Seq<char>)>, Seq<char>> {
    match param_lookup(a, seq!["env_json"@, "envJson"@]) {
        Some(text) => if is_blank(text) {
            Ok(seq![])
        } else {
            match crate::foreign::spec_json_string_record(text) {
                Ok(entries) => Ok(env_entries(entries, vars)),
                Err(e) => Err("环境变量 JSON 格式错误："@ + e),
            }
        },
        None => Ok(seq![]),
    }
}

/// The directory a script runs in, if one is set.
pub fn working_directory(action: &ActionConfig, variables: &StringMap) -> (r: Option<String>)
    ensures
        match r {
            Some(w) => working_directory_of(*action, variables.pairs()) == Some(w@),
            None => working_directory_of(*action, variables.pairs()) is None,
        },
{
    let keys: [&str; 2] = ["working_directory", "workingDirectory"];
    assert(str_views(keys@) =~= seq!["working_directory"@, "workingDirectory"@]);
    match action_parameter(action, &keys) {
        Some(v) => {
            let filled = replace_variables(v.as_str(), variables);
            if is_blank_chars(&chars_of(filled.as_str())) {
                None
            } else {
                Some(filled)
            }
        },
        None => None,
    }
}

/// The environment variables of a script.
pub fn process_environment(action: &ActionConfig, variables: &StringMap) -> (r: Result<Vec<(String, String)>, String>)
    ensures
        match r {
            Ok(v) => environment_of(*action, variables.pairs()) == Ok::<Seq<(Seq<char>, Seq<char>)>, Seq<char>>(entry_views(v@)),
            Err(e) => environment_of(*action, variables.pairs()) == Err::<Seq<(Seq<char>, Seq<char>)>, Seq<char>>(e@),
        },
{
    let keys: [&str; 2] = ["env_json", "envJson"];
    assert(str_views(keys@) =~= seq!["env_json"@, "envJson"@]);
    let text = match action_parameter(action, &keys) {
        Some(v) => v,
        None => {
            let v: Vec<(String, String)> = Vec::new();
            assert(entry_views(v@) =~= seq![]);
            return Ok(v);
        },
    };
    if is_blank_chars(&chars_of(text.as_str())) {
        let v: Vec<(String, String)> = Vec::new();
        assert(entry_views(v@) =~= seq![]);
        return Ok(v);
    }
    match crate::foreign::json_string_record(text.as_str()) {
        Err(e) => {
            let mut m = chars_of("环境变量 JSON 格式错误：");
            extend_str(&mut m, e.as_str());
            Err(string_of(&m))
        },
        Ok(entries) => {
            let ghost ev = entry_views(entries@);
            let mut out: Vec<(String, String)> = Vec::new();
            let mut i: usize = 0;
            while i < entries.len()
                invariant
                    i <= entries.len(),
                    ev == entry_views(entries@),
                    entry_views(out@) == env_entries(ev.take(i as int), variables.pairs()),
                decreases entries.len() - i,
            {
                assert(ev.take(i + 1).drop_last() =~= ev.take(i as int));
                assert(ev.take(i + 1).last() == (entries@[i as int].0@, entries@[i as int].1@));
                let key = &entries[i].0;
                if !is_blank_chars(&chars_of(key.as_str())) {
                    let value = replace_variables(entries[i].1.as_str(), variables);
                    let ghost before = entry_views(out@);
                    out.push((key.clone(), value));
                    assert(entry_views(out@) =~= before.push((entries@[i as int].0@, spec_replace_variables(entries@[i as int].1@, variables.pairs()))));
                }
                i += 1;
            }
            assert(ev.take(entries.len() as int) =~= ev);
            Ok(out)
        },
    }
}

/// The command of a script action: `program`, `prefix`, then the script
/// (the parameter `key`, variables filled in), run in the action's
/// directory and environment; its output is shown.
pub open spec fn script_plan(
    a: ActionConfig,
    vars: Pairs,
    program: Seq<char>,
    prefix: Seq<Seq<char>>,
    key: Seq<char>,
    label: Seq<char>,
) -> Result<PlannedCommand, Seq<char>> {
    match a.parameters.get_spec(key) {
        None => Err("未配置 "@ + label + " 内容"@),
        Some(script) => Ok(
            PlannedCommand {
                program,
                args: prefix.push(spec_replace_variables(script, vars)),
                label,
                timeout_seconds: timeout_of(a),
                working_directory: working_directory_of(a, vars),
                environment: environment_of(a, vars),
                capture_output: true,
                success_message: label + " 执行完成"@,
            },
        ),
    }
}

/// The outcome of planning as a value.
pub open spec fn plan_view(r: Result<ProcessPlan, String>) -> Result<PlannedCommand, Seq<char>> {
    match r {
        Ok(p) => Ok(p.planned()),
        Err(e) => Err(e@),
    }
}

/// The command of a script action.
pub fn run_process_script(
    executable: &str,
    prefix_args: &Vec<String>,
    parameter_key: &str,
    action: &ActionConfig,
    variables: &StringMap,
    label: &str,
) -> (r: Result<ProcessPlan, String>)
    ensures
        plan_view(r) == script_plan(
            *action,
            variables.pairs(),
            executable@,
            string_views(prefix_args@),
            parameter_key@,
            label@,
        ),
{
    let script = match action.parameters.get_str(parameter_key) {
        Some(s) => s,
        None => {
            let mut m = chars_of("未配置 ");
            extend_str(&mut m, label);
            extend_str(&mut m, " 内容");
            return Err(string_of(&m));
        },
    };
    let filled = replace_variables(script.as_str(), variables);
    let mut args: Vec<String> = Vec::new();
    let mut i: usize = 0;
    while i < prefix_args.len()
        invariant
            i <= prefix_args.len(),
            args@ =~= prefix_args@.take(i as int),
        decreases prefix_args.len() - i,
    {
        args.push(prefix_args[i].clone());
        assert(prefix_args@.take(i + 1) =~= prefix_args@.take(i as int).push(prefix_args@[i as int]));
        i += 1;
    }
    assert(prefix_args@.take(prefix_args.len() as int) =~= prefix_args@);
    let ghost before = string_views(args@);
    args.push(filled);
    assert(string_views(args@) =~= before.push(spec_replace_variables(script@, variables.pairs())));
    let mut done = chars_of(label);
    extend_str(&mut done, " 执行完成");
    Ok(
        ProcessPlan {
            program: owned(executable),
            args,
            label: owned(label),
            timeout_seconds: action_timeout(action),
            working_directory: working_directory(action, variables),
            environment: process_environment(action, variables),
            capture_output: true,
            success_message: string_of(&done),
        },
    )
}

fn strings_of(items: &[&str]) -> (r: Vec<String>)
    ensures
        string_views(r@) == str_views(items@),
{
    let mut r: Vec<String> = Vec::new();
    let mut i: usize = 0;
    while i < items.len()
        invariant
            i <= items.len(),
            string_views(r@) =~= str_views(items@).take(i as int),
        decreases items.len() - i,
    {
        let ghost before = string_views(r@);
        r.push(owned(items[i]));
        assert(string_views(r@) =~= before.push(items@[i as int]@));
        assert(str_views(items@).take(i + 1) =~= str_views(items@).take(i as int).push(items@[i as int]@));
        i += 1;
    }
    assert(str_views(items@).take(items.len() as int) =~= str_views(items@));
    r
}

/// The command of a shell action.
pub open spec fn shell_plan(a: ActionConfig, vars: Pairs) -> Result<PlannedCommand, Seq<char>> {
    match shell_executable_of(a) {
        Err(e) => Err(e),
        Ok(exe) => match shell_args_of(a) {
            Err(e) => Err(e),
            Ok(args) => script_plan(a, vars, exe, args, "script"@, "Shell"@),
        },
    }
}

/// The command of a shell action.
pub fn run_shell(action: &ActionConfig, variables: &StringMap) -> (r: Result<ProcessPlan, String>)
    ensures
        plan_view(r) == shell_plan(*action, variables.pairs()),
{
    let exe = match shell_executable(action) {
        Ok(e) => e,
        Err(e) => return Err(e),
    };
    let args = match shell_args(action) {
        Ok(a) => a,
        Err(e) => return Err(e),
    };
    run_process_script(exe.as_str(), &args, "script", action, variables, "Shell")
}

/// The interpreter of a Python action: its `python_path`, else the
/// system one.
pub open spec fn python_of(a: ActionConfig) -> Seq<char> {
    match a.parameters.get_spec("python_path"@) {
        Some(p) => p,
        None => "/usr/bin/python3"@,
    }
}

/// The command of a Python action.
pub fn run_python(action: &ActionConfig, variables: &StringMap) -> (r: Result<ProcessPlan, String>)
    ensures
        plan_view(r) == script_plan(*action, variables.pairs(), python_of(*action), seq!["-c"@], "script"@, "Python"@),
{
    let python = match action.parameters.get_str("python_path") {
        Some(p) => p.clone(),
        None => owned("/usr/bin/python3"),
    };
    let prefix: [&str; 1] = ["-c"];
    let args = strings_of(&prefix);
    assert(str_views(prefix@) =~= seq!["-c"@]);
    run_process_script(python.as_str(), &args, "script", action, variables, "Python")
}

/// The command of a link action: `open`, in the chosen browser unless it
/// is blank or `default`, of the trimmed URL (the `url` or `url_pattern`
/// parameter, `{{url}}` by default, variables filled in), which may be
/// neither empty nor look like an option.
pub open spec fn open_url_plan(a: ActionConfig, vars: Pairs) -> Result<PlannedCommand, Seq<char>> {
    let template = match param_lookup(a, seq!["url"@, "url_pattern"@]) {
        Some(t) => t,
        None => "{{url}}"@,
    };
    let url = trim(spec_replace_variables(template, vars));
    let browser = match a.parameters.get_spec("browser"@) {
        Some(b) => b,
        None => Seq::empty(),
    };
    if url.len() == 0 {
        Err("URL 为空"@)
    } else if url[0] == '-' {
        Err("URL 不能以 - 开头"@)
    } else {
        Ok(
            PlannedCommand {
                program: "/usr/bin/open"@,
                args: if browser.len() > 0 && browser != "default"@ {
                    seq!["-b"@, browser, url]
                } else {
                    seq![url]
                },
                label: "打开链接"@,
                timeout_seconds: timeout_of(a),
                working_directory: None,
                environment: Ok(seq![]),
                capture_output: false,
                success_message: "已打开链接："@ + url,
            },
        )
    }
}

fn no_environment() -> (r: Result<Vec<(String, String)>, String>)
    ensures
        r matches Ok(v) && entry_views(v@) == Seq::<(Seq<char>, Seq<char>)>::empty(),
{
    let v: Vec<(String, String)> = Vec::new();
    assert(entry_views(v@) =~= Seq::<(Seq<char>, Seq<char>)>::empty());
    Ok(v)
}

/// The command of a link action.
pub fn open_url(action: &ActionConfig, variables: &StringMap) -> (r: Result<ProcessPlan, String>)
    ensures
        plan_view(r) == open_url_plan(*action, variables.pairs()),
{
    let keys: [&str; 2] = ["url", "url_pattern"];
    assert(str_views(keys@) =~= seq!["url"@, "url_pattern"@]);
    let template: String = match action_parameter(action, &keys) {
        Some(t) => t.clone(),
        None => owned("{{url}}"),
    };
    let url = trim_chars(&chars_of(replace_variables(template.as_str(), variables).as_str()));
    if url.len() == 0 {
        return Err(owned("URL 为空"));
    }
    if url[0] == '-' {
        return Err(owned("URL 不能以 - 开头"));
    }
    let browser: String = match action.parameters.get_str("browser") {
        Some(b) => b.clone(),
        None => String::new(),
    };
    let url_s = string_of(&url);
    let mut args: Vec<String> = Vec::new();
    let bc = chars_of(browser.as_str());
    if bc.len() > 0 && !chars_eq_str(&bc, "default") {
        args.push(owned("-b"));
        args.push(browser);
        args.push(url_s.clone());
    } else {
        args.push(url_s.clone());
    }
    let mut done = chars_of("已打开链接：");
    extend_chars(&mut done, &url);
    let plan = ProcessPlan {
        program: owned("/usr/bin/open"),
        args,
        label: owned("打开链接"),
        timeout_seconds: action_timeout(action),
        working_directory: None,
        environment: no_environment(),
        capture_output: false,
        success_message: string_of(&done),
    };
    assert(plan.planned().args =~= open_url_plan(*action, variables.pairs())->Ok_0.args);
    assert(plan.planned().environment =~= open_url_plan(*action, variables.pairs())->Ok_0.environment);
    Ok(plan)
}

/// The command of an application action: `open -b` of the bundle id
/// (`bundle_id` or `bundleId`, variables filled in), which must be given
/// and not blank.
pub open spec fn open_app_plan(a: ActionConfig, vars: Pairs) -> Result<PlannedCommand, Seq<char>> {
    match param_lookup(a, seq!["bundle_id"@, "bundleId"@]) {
        None => Err("未配置应用 Bundle ID"@),
        Some(b) => {
            let id = spec_replace_variables(b, vars);
            if is_blank(id) {
                Err("应用 Bundle ID 为空"@)
            } else {
                Ok(
                    PlannedCommand {
                        program: "/usr/bin/open"@,
                        args: seq!["-b"@, id],
                        label: "打开应用"@,
                        timeout_seconds: timeout_of(a),
                        working_directory: None,
                        environment: Ok(seq![]),
                        capture_output: false,
                        success_message: "已打开应用："@ + id,
                    },
                )
            }
        },
    }
}

/// The command of an application action.
pub fn open_app(action: &ActionConfig, variables: &StringMap) -> (r: Result<ProcessPlan, String>)
    ensures
        plan_view(r) == open_app_plan(*action, variables.pairs()),
{
    let keys: [&str; 2] = ["bundle_id", "bundleId"];
    assert(str_views(keys@) =~= seq!["bundle_id"@, "bundleId"@]);
    let bundle = match action_parameter(action, &keys) {
        Some(b) => b,
        None => return Err(owned("未配置应用 Bundle ID")),
    };
    let id = replace_variables(bundle.as_str(), variables);
    if is_blank_chars(&chars_of(id.as_str())) {
        return Err(owned("应用 Bundle ID 为空"));
    }
    let mut done = chars_of("已打开应用：");
    extend_str(&mut done, id.as_str());
    let mut args: Vec<String> = Vec::new();
    args.push(owned("-b"));
    args.push(id);
    let plan = ProcessPlan {
        program: owned("/usr/bin/open"),
        args,
        label: owned("打开应用"),
        timeout_seconds: action_timeout(action),
        working_directory: None,
        environment: no_environment(),
        capture_output: false,
        success_message: string_of(&done),
    };
    assert(plan.planned().args =~= open_app_plan(*action, variables.pairs())->Ok_0.args);
    assert(plan.planned().environment =~= open_app_plan(*action, variables.pairs())->Ok_0.environment);
    Ok(plan)
}

/// The command of a notification action: an AppleScript posting the
/// body and title (defaults `NoticeFlow` and empty), variables filled in.
pub open spec fn send_notification_plan(a: ActionConfig, vars: Pairs) -> PlannedCommand {
    let title = spec_replace_variables(
        match a.parameters.get_spec("title"@) {
            Some(t) => t,
            None => "NoticeFlow"@,
        },
        vars,
    );
    let body = spec_replace_variables(
        match a.parameters.get_spec("body"@) {
            Some(b) => b,
            None => Seq::empty(),
        },
        vars,
    );
    PlannedCommand {
        program: "/usr/bin/osascript"@,
        args: seq![
            "-e"@,
            "display notification "@ + crate::analysis::applescript_literal(body) + " with title "@
                + crate::analysis::applescript_literal(title),
        ],
        label: "发送通知"@,
        timeout_seconds: timeout_of(a),
        working_directory: None,
        environment: Ok(seq![]),
        capture_output: false,
        success_message: "已发送通知："@ + title,
    }
}

/// A notification action shows its `body` parameter as the notification
/// text and its `title` parameter as the title: with parameters in which
/// no placeholder can start (no `$` or `{`), the script quotes the body
/// after `display notification` and the title after `with title`, and the
/// success message names the title.
pub proof fn lemma_notification_shows_body_under_title(a: ActionConfig, vars: Pairs, title: Seq<char>, body: Seq<char>)
    requires
        a.parameters.get_spec("title"@) == Some(title),
        a.parameters.get_spec("body"@) == Some(body),
        !title.contains('$'),
        !title.contains('{'),
        !body.contains('$'),
        !body.contains('{'),
    ensures
        send_notification_plan(a, vars).args == seq![
            "-e"@,
            "display notification "@ + crate::analysis::applescript_literal(body) + " with title "@
                + crate::analysis::applescript_literal(title),
        ],
        send_notification_plan(a, vars).success_message == "已发送通知："@ + title,
{
    crate::template::lemma_plain_template_unchanged(title, vars);
    crate::template::lemma_plain_template_unchanged(body, vars);
}

/// The command of a notification action.
pub fn send_notification(action: &ActionConfig, variables: &StringMap) -> (r: ProcessPlan)
    ensures
        r.planned() == send_notification_plan(*action, variables.pairs()),
{
    let title_t: String = match action.parameters.get_str("title") {
        Some(t) => t.clone(),
        None => owned("NoticeFlow"),
    };
    let body_t: String = match action.parameters.get_str("body") {
        Some(b) => b.clone(),
        None => String::new(),
    };
    let title = replace_variables(title_t.as_str(), variables);
    let body = replace_variables(body_t.as_str(), variables);
    let mut script = chars_of("display notification ");
    extend_str(&mut script, crate::analysis::applescript_quote(body.as_str()).as_str());
    extend_str(&mut script, " with title ");
    extend_str(&mut script, crate::analysis::applescript_quote(title.as_str()).as_str());
    let mut done = chars_of("已发送通知：");
    extend_str(&mut done, title.as_str());
    let mut args: Vec<String> = Vec::new();
    args.push(owned("-e"));
    args.push(string_of(&script));
    let plan = ProcessPlan {
        program: owned("/usr/bin/osascript"),
        args,
        label: owned("发送通知"),
        timeout_seconds: action_timeout(action),
        working_directory: None,
        environment: no_environment(),
        capture_output: false,
        success_message: string_of(&done),
    };
    assert(plan.planned().args =~= send_notification_plan(*action, variables.pairs()).args);
    assert(plan.planned().environment =~= send_notification_plan(*action, variables.pairs()).environment);
    plan
}

/// The command each kind of action (other than an HTTP request) runs.
pub open spec fn action_plan(a: ActionConfig, vars: Pairs) -> Result<PlannedCommand, Seq<char>> {
    let t = a.action_type@;
    if t == "open_url"@ {
        open_url_plan(a, vars)
    } else if t == "run_shell"@ {
        shell_plan(a, vars)
    } else if t == "run_javascript"@ {
        script_plan(a, vars, "/usr/bin/osascript"@, seq!["-l"@, "JavaScript"@, "-e"@], "code"@, "JavaScript"@)
    } else if t == "run_python"@ {
        script_plan(a, vars, python_of(a), seq!["-c"@], "script"@, "Python"@)
    } else if t == "run_applescript"@ {
        script_plan(a, vars, "/usr/bin/osascript"@, seq!["-e"@], "script"@, "AppleScript"@)
    } else if t == "open_app"@ || t == "activate_app"@ {
        open_app_plan(a, vars)
    } else if t == "send_notification"@ {
        Ok(send_notification_plan(a, vars))
    } else {
        Err("未知动作类型："@ + t)
    }
}

/// The command an action (other than an HTTP request) runs.
pub fn run_action_inner(action: &ActionConfig, variables: &StringMap) -> (r: Result<ProcessPlan, String>)
    ensures
        plan_view(r) == action_plan(*action, variables.pairs()),
{
    let t = chars_of(action.action_type.as_str());
    if chars_eq_str(&t, "open_url") {
        open_url(action, variables)
    } else if chars_eq_str(&t, "run_shell") {
        run_shell(action, variables)
    } else if chars_eq_str(&t, "run_javascript") {
        let prefix: [&str; 3] = ["-l", "JavaScript", "-e"];
        let args = strings_of(&prefix);
        assert(str_views(prefix@) =~= seq!["-l"@, "JavaScript"@, "-e"@]);
        run_process_script("/usr/bin/osascript", &args, "code", action, variables, "JavaScript")
    } else if chars_eq_str(&t, "run_python") {
        run_python(action, variables)
    } else if chars_eq_str(&t, "run_applescript") {
        let prefix: [&str; 1] = ["-e"];
        let args = strings_of(&prefix);
        assert(str_views(prefix@) =~= seq!["-e"@]);
        run_process_script("/usr/bin/osascript", &args, "script", action, variables, "AppleScript")
    } else if chars_eq_str(&t, "open_app") || chars_eq_str(&t, "activate_app") {
        open_app(action, variables)
    } else if chars_eq_str(&t, "send_notification") {
        Ok(send_notification(action, variables))
    } else {
        let mut m = chars_of("未知动作类型：");
        extend_chars(&mut m, &t);
        Err(string_of(&m))
    }
}

/// What a finished command reports: its success message, with its output
/// when that is shown.
pub fn process_outcome(plan: &ProcessPlan, output: Result<(String, String), String>) -> (r: Result<ActionRunSuccess, String>)
    ensures
        match output {
            Ok((so, se)) => r matches Ok(s) && s.message == plan.success_message && s.attempt_count == 1
                && (plan.capture_output ==> match s.output {
                Some(o) => snippet_of(so@, se@) == Some(o@),
                None => snippet_of(so@, se@) is None,
            }) && (!plan.capture_output ==> s.output is None),
            Err(e) => r == Err::<ActionRunSuccess, String>(e),
        },
{
    match output {
        Ok((so, se)) => Ok(
            ActionRunSuccess {
                message: plan.success_message.clone(),
                output: if plan.capture_output {
                    output_snippet(so.as_str(), se.as_str())
                } else {
                    None
                },
                attempt_count: 1,
            },
        ),
        Err(e) => Err(e),
    }
}

// ---------------------------------------------------------------------
// HTTP requests
// ---------------------------------------------------------------------

/// An HTTP request action, ready to run.
#[derive(Clone, Debug)]
pub struct HttpPlan {
    pub url: String,
    pub method: String,
    /// Further attempts after a failed one.
    pub retry_count: u64,
    pub retry_interval_seconds: u64,
    /// Text the response must contain.
    pub response_contains: Option<String>,
    pub timeout_seconds: u64,
}

/// The URL of a request: the `url` parameter with the variables filled
/// in, trimmed; it must be given, not empty, and not look like an option.
pub open spec fn http_url_of(a: ActionConfig, vars: Pairs) -> Result<Seq<char>, Seq<char>> {
    match a.parameters.get_spec("url"@) {
        None => Err("未配置 HTTP URL"@),
        Some(u) => {
            let url = trim(spec_replace_variables(u, vars));
            if url.len() == 0 {
                Err("HTTP URL 为空"@)
            } else if url[0] == '-' {
                Err("HTTP URL 不能以 - 开头"@)
            } else {
                Ok(url)
            }
        },
    }
}

/// `n`, or `default` when absent, at most `max`.
pub open spec fn bounded_or(n: Option<nat>, default: nat, max: nat) -> nat {
    let v = match n {
        Some(n) => n,
        None => default,
    };
    if v < max {
        v
    } else {
        max
    }
}

/// The text a response must contain, variables filled in (none when not
/// set or empty).
pub open spec fn response_expectation_of(a: ActionConfig, vars: Pairs) -> Option<Seq<char>> {
    match param_lookup(a, seq!["response_contains"@, "responseContains"@]) {
        Some(v) => if spec_replace_variables(v, vars).len() > 0 {
            Some(spec_replace_variables(v, vars))
        } else {
            None
        },
        None => None,
    }
}

/// Prepares an HTTP request action: its URL, method, retries (at most 5,
/// one second apart by default, at most a minute), expected response text
/// and time limit.
pub fn http_request(action: &ActionConfig, variables: &StringMap) -> (r: Result<HttpPlan, ActionRunFailure>)
    ensures
        match http_url_of(*action, variables.pairs()) {
            Err(e) => r matches Err(f) && f.message@ == e && f.attempt_count == 1,
            Ok(url) => r matches Ok(p) && p.url@ == url && p.method@ == http_method_of(*action)
                && p.retry_count == bounded_or(u64_param(*action, seq!["retry_count"@, "retryCount"@]), 0, 5)
                && p.retry_interval_seconds == bounded_or(
                u64_param(*action, seq!["retry_interval_seconds"@, "retryIntervalSeconds"@]),
                1,
                60,
            ) && match p.response_contains {
                Some(t) => response_expectation_of(*action, variables.pairs()) == Some(t@),
                None => response_expectation_of(*action, variables.pairs()) is None,
            } && p.timeout_seconds == timeout_of(*action),
        },
{
    let raw = match action.parameters.get_str("url") {
        Some(u) => u,
        None => return Err(ActionRunFailure { message: owned("未配置 HTTP URL"), attempt_count: 1 }),
    };
    let url = trim_chars(&chars_of(replace_variables(raw.as_str(), variables).as_str()));
    if url.len() == 0 {
        return Err(ActionRunFailure { message: owned("HTTP URL 为空"), attempt_count: 1 });
    }
    if url[0] == '-' {
        return Err(ActionRunFailure { message: owned("HTTP URL 不能以 - 开头"), attempt_count: 1 });
    }
    let count_keys: [&str; 2] = ["retry_count", "retryCount"];
    assert(str_views(count_keys@) =~= seq!["retry_count"@, "retryCount"@]);
    let count = match action_u64_parameter(action, &count_keys) {
        Some(n) => n,
        None => 0,
    };
    let interval_keys: [&str; 2] = ["retry_interval_seconds", "retryIntervalSeconds"];
    assert(str_views(interval_keys@) =~= seq!["retry_interval_seconds"@, "retryIntervalSeconds"@]);
    let interval = match action_u64_parameter(action, &interval_keys) {
        Some(n) => n,
        None => 1,
    };
    let expect_keys: [&str; 2] = ["response_contains", "responseContains"];
    assert(str_views(expect_keys@) =~= seq!["response_contains"@, "responseContains"@]);
    let expectation = match action_parameter(action, &expect_keys) {
        Some(v) => {
            let filled = replace_variables(v.as_str(), variables);
            if chars_of(filled.as_str()).len() > 0 {
                Some(filled)
            } else {
                None
            }
        },
        None => None,
    };
    Ok(
        HttpPlan {
            url: string_of(&url),
            method: http_method(action),
            retry_count: if count < 5 {
                count
            } else {
                5
            },
            retry_interval_seconds: if interval < 60 {
                interval
            } else {
                60
            },
            response_contains: expectation,
            timeout_seconds: action_timeout(action),
        },
    )
}

/// The `-H` options of the request headers, variables filled in.
pub open spec fn header_args(entries: Seq<(Seq<char>, Seq<char>)>, vars: Pairs) -> Seq<Seq<char>>
    decreases entries.len(),
{
    if entries.len() == 0 {
        seq![]
    } else {
        let (k, v) = entries.last();
        header_args(entries.drop_last(), vars) + seq!["-H"@, k + ": "@ + spec_replace_variables(v, vars)]
    }
}

/// The arguments of `curl` for a request: silent but showing errors,
/// failing on HTTP errors, the method, the headers (a JSON object of
/// strings), the body, then `--` and the URL, so that the URL is never
/// read as an option.
pub open spec fn curl_args(a: ActionConfig, vars: Pairs, method: Seq<char>, url: Seq<char>) -> Result<Seq<Seq<char>>, Seq<char>> {
    let head = seq!["-sS"@, "--fail"@, "-X"@, method];
    let data = match a.parameters.get_spec("body"@) {
        Some(b) => seq!["--data"@, spec_replace_variables(b, vars)],
        None => seq![],
    };
    let tail = seq!["--"@, url];
    match a.parameters.get_spec("headers"@) {
        Some(h) => if is_blank(h) {
            Ok(head + data + tail)
        } else {
            match crate::foreign::spec_json_string_record(h) {
                Err(e) => Err("HTTP Headers JSON 格式错误："@ + e),
                Ok(entries) => Ok(head + header_args(entries, vars) + data + tail),
            }
        },
        None => Ok(head + data + tail),
    }
}

/// The arguments of `curl` for a request.
pub fn http_request_command(action: &ActionConfig, variables: &StringMap, method: &str, url: &str) -> (r: Result<Vec<String>, String>)
    ensures
        match r {
            Ok(a) => curl_args(*action, variables.pairs(), method@, url@) == Ok::<Seq<Seq<char>>, Seq<char>>(string_views(a@)),
            Err(e) => curl_args(*action, variables.pairs(), method@, url@) == Err::<Seq<Seq<char>>, Seq<char>>(e@),
        },
{
    let mut args: Vec<String> = Vec::new();
    args.push(owned("-sS"));
    args.push(owned("--fail"));
    args.push(owned("-X"));
    args.push(owned(method));
    let ghost head = string_views(args@);
    assert(head =~= seq!["-sS"@, "--fail"@, "-X"@, method@]);
    let ghost mut headers: Seq<Seq<char>> = seq![];
    match action.parameters.get_str("headers") {
        Some(h) => {
            if !is_blank_chars(&chars_of(h.as_str())) {
                match crate::foreign::json_string_record(h.as_str()) {
                    Err(e) => {
                        let mut m = chars_of("HTTP Headers JSON 格式错误：");
                        extend_str(&mut m, e.as_str());
                        return Err(string_of(&m));
                    },
                    Ok(entries) => {
                        let ghost ev = entry_views(entries@);
                        let mut i: usize = 0;
                        while i < entries.len()
                            invariant
                                i <= entries.len(),
                                ev == entry_views(entries@),
                                string_views(args@) == head + header_args(ev.take(i as int), variables.pairs()),
                            decreases entries.len() - i,
                        {
                            assert(ev.take(i + 1).drop_last() =~= ev.take(i as int));
                            assert(ev.take(i + 1).last() == (entries@[i as int].0@, entries@[i as int].1@));
                            let mut line = chars_of(entries[i].0.as_str());
                            extend_str(&mut line, ": ");
                            extend_str(&mut line, replace_variables(entries[i].1.as_str(), variables).as_str());
                            let ghost before = string_views(args@);
                            args.push(owned("-H"));
                            args.push(string_of(&line));
                            assert(string_views(args@) =~= before + seq!["-H"@, entries@[i as int].0@ + ": "@ + spec_replace_variables(entries@[i as int].1@, variables.pairs())]);
                            i += 1;
                        }
                        assert(ev.take(entries.len() as int) =~= ev);
                        proof {
                            headers = header_args(ev, variables.pairs());
                        }
                    },
                }
            }
        },
        None => {},
    }
    assert(string_views(args@) =~= head + headers);
    let ghost before_data = string_views(args@);
    match action.parameters.get_str("body") {
        Some(b) => {
            args.push(owned("--data"));
            args.push(replace_variables(b.as_str(), variables));
            assert(string_views(args@) =~= before_data + seq!["--data"@, spec_replace_variables(b@, variables.pairs())]);
        },
        None => {},
    }
    let ghost before_tail = string_views(args@);
    args.push(owned("--"));
    args.push(owned(url));
    assert(string_views(args@) =~= before_tail + seq!["--"@, url@]);
    Ok(args)
}

/// What follows one attempt of a request.
#[derive(Clone, Debug)]
pub enum HttpStep {
    /// The request succeeded.
    Done(ActionRunSuccess),
    /// Wait, then try again; the error so far.
    Retry(String),
    /// The request failed for good.
    Fail(ActionRunFailure),
}

/// The step after attempt `attempt` (counting from 0) ended with
/// `outcome` (the command's output, or its error): a response lacking the
/// expected text counts as a failure; a failure is retried while retries
/// remain.
pub open spec fn http_step_of(plan: HttpPlan, attempt: nat, outcome: Result<(String, String), String>) -> (bool, bool, Seq<char>, Option<Seq<char>>, nat) {
    match outcome {
        Ok((so, se)) => match plan.response_contains {
            Some(expected) if !crate::text::contains_seq(so@, expected@) => {
                let e = "HTTP 响应不包含期望内容："@ + expected@;
                if attempt < plan.retry_count {
                    (false, true, e, None, attempt + 1)
                } else {
                    (false, false, e, None, attempt + 1)
                }
            },
            _ => (true, false, "HTTP 请求完成："@ + plan.method@ + " "@ + plan.url@, snippet_of(so@, se@), attempt + 1),
        },
        Err(e) => if attempt < plan.retry_count {
            (false, true, e@, None, attempt + 1)
        } else {
            (false, false, e@, None, (plan.retry_count + 1) as nat)
        },
    }
}

/// The step after one attempt of a request.
pub fn http_attempt_step(plan: &HttpPlan, attempt: u64, outcome: Result<(String, String), String>) -> (r: HttpStep)
    requires
        attempt <= plan.retry_count,
        plan.retry_count <= 5,
    ensures
        ({
            let (done, retry, message, output, attempts) = http_step_of(*plan, attempt as nat, outcome);
            match r {
                HttpStep::Done(s) => done && s.message@ == message && s.attempt_count == attempts && match s.output {
                    Some(o) => output == Some(o@),
                    None => output is None,
                },
                HttpStep::Retry(e) => !done && retry && e@ == message,
                HttpStep::Fail(f) => !done && !retry && f.message@ == message && f.attempt_count == attempts,
            }
        }),
{
    let attempts = (attempt + 1) as u32;
    match outcome {
        Ok((so, se)) => {
            match &plan.response_contains {
                Some(expected) => {
                    if !crate::text::contains(&chars_of(so.as_str()), &chars_of(expected.as_str())) {
                        let mut m = chars_of("HTTP 响应不包含期望内容：");
                        extend_str(&mut m, expected.as_str());
                        let e = string_of(&m);
                        if attempt < plan.retry_count {
                            return HttpStep::Retry(e);
                        }
                        return HttpStep::Fail(ActionRunFailure { message: e, attempt_count: attempts });
                    }
                },
                None => {},
            }
            let mut m = chars_of("HTTP 请求完成：");
            extend_str(&mut m, plan.method.as_str());
            extend_str(&mut m, " ");
            extend_str(&mut m, plan.url.as_str());
            HttpStep::Done(
                ActionRunSuccess {
                    message: string_of(&m),
                    output: output_snippet(so.as_str(), se.as_str()),
                    attempt_count: attempts,
                },
            )
        },
        Err(e) => {
            if attempt < plan.retry_count {
                HttpStep::Retry(e)
            } else {
                HttpStep::Fail(ActionRunFailure { message: e, attempt_count: (plan.retry_count + 1) as u32 })
            }
        },
    }
}

} // verus!
