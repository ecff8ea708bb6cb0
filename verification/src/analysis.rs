//! Explaining a rule's verdict on one notification, and the short texts
//! the service logs and posts.
use vstd::prelude::*;
use crate::automation::{match_block_reason, rule_match_block_reason};
use crate::foreign::{current_local_minute, is_clock_minute, opt_view, parse_rfc3339, spec_parse_rfc3339};
use crate::notification_db::NotificationRecord;
use crate::rules::{
    AutomationRule, MatchCondition, app_matches, condition_holds, conditions_of, extractions_of,
    has_trigger_time, matches_record_app, opt_seq, trigger_time_matches, trigger_time_ok,
};
use crate::strmap::{StringMap, lookup_last};
use crate::template::is_internal_key;
use crate::text::{
    chars_eq, chars_of, decimal, eq_ignore_ascii_case, eq_ignore_ascii_case_chars, extend_chars,
    extend_str, join, join_chars, owned, replace_char, replace_char_chars, spec_decimal, string_of,
    take_chars, trim, trim_chars, views,
};
use crate::variables::{VariableExtractionRule, extract_variables, variable_pairs};

verus! {

// ---------------------------------------------------------------------
// Explanations
// ---------------------------------------------------------------------

/// One condition of a rule, as evaluated on a notification.
#[derive(Clone, Debug)]
pub struct ConditionExplanation {
    pub variable_name: String,
    pub operator_type: String,
    pub expected_value: String,
    pub actual_value: String,
    pub case_sensitive: bool,
    pub matched: bool,
}

/// A rule's verdict on a notification, with its reasons.
#[derive(Clone, Debug)]
pub struct MatchExplanation {
    pub matched: bool,
    pub rule_name: String,
    pub app_matched: bool,
    pub time_matched: bool,
    pub variable_count: usize,
    pub conditions: Vec<ConditionExplanation>,
    pub message: String,
}

/// The explanation together with the variables it was computed on.
#[derive(Clone, Debug)]
pub struct RuleMatchAnalysis {
    pub explanation: MatchExplanation,
    pub variables: StringMap,
}

/// How many of `keys` are shown to the user (not `__…`).
pub open spec fn visible_count(keys: Seq<Seq<char>>) -> nat
    decreases keys.len(),
{
    if keys.len() == 0 {
        0
    } else {
        visible_count(keys.drop_last()) + if is_internal_key(keys.last()) {
            0nat
        } else {
            1nat
        }
    }
}

/// How many variables are shown to the user.
pub fn visible_variable_count(variables: &StringMap) -> (r: usize)
    ensures
        r == visible_count(variables.keys()),
{
    let keys = variables.key_list();
    let ghost ks = variables.keys();
    let mut n: usize = 0;
    let mut i: usize = 0;
    while i < keys.len()
        invariant
            i <= keys.len(),
            keys@.map_values(|v: Vec<char>| v@) == ks,
            n == visible_count(ks.take(i as int)),
            n <= i,
        decreases keys.len() - i,
    {
        assert(ks.take(i + 1).drop_last() =~= ks.take(i as int));
        assert(ks.take(i + 1).last() == keys@[i as int]@);
        if !crate::text::starts_with(&keys[i], &chars_of("__")) {
            n += 1;
        }
        i += 1;
    }
    assert(ks.take(keys.len() as int) =~= ks);
    n
}

/// How many conditions failed.
pub open spec fn failed_count(cs: Seq<ConditionExplanation>) -> nat
    decreases cs.len(),
{
    if cs.len() == 0 {
        0
    } else {
        failed_count(cs.drop_last()) + if cs.last().matched {
            0nat
        } else {
            1nat
        }
    }
}

/// The reasons a rule did not match, in the order they are listed.
pub open spec fn failure_reasons(app_matched: bool, time_matched: bool, block: Option<Seq<char>>, failed: nat) -> Seq<Seq<char>> {
    let a: Seq<Seq<char>> = if !app_matched {
        seq!["触发应用不匹配"@]
    } else {
        seq![]
    };
    let b = if !time_matched {
        a.push("触发时间不匹配"@)
    } else {
        a
    };
    let c = match block {
        Some(r) => b.push(r),
        None => b,
    };
    let d = if failed > 0 {
        c.push(spec_decimal(failed) + " 个条件未通过"@)
    } else {
        c
    };
    if d.len() == 0 {
        seq!["未满足规则"@]
    } else {
        d
    }
}

/// The one-line verdict.
pub open spec fn match_message_text(
    name: Seq<char>,
    matched: bool,
    app_matched: bool,
    time_matched: bool,
    block: Option<Seq<char>>,
    failed: nat,
) -> Seq<char> {
    if matched {
        "匹配成功："@ + name + "，未执行动作"@
    } else {
        "匹配失败："@ + name + "（"@ + join(
            failure_reasons(app_matched, time_matched, block, failed),
            "，"@,
        ) + "）"@
    }
}

fn count_failed(conditions: &[ConditionExplanation]) -> (r: usize)
    ensures
        r == failed_count(conditions@),
{
    let mut n: usize = 0;
    let mut i: usize = 0;
    while i < conditions.len()
        invariant
            i <= conditions.len(),
            n == failed_count(conditions@.take(i as int)),
            n <= i,
        decreases conditions.len() - i,
    {
        assert(conditions@.take(i + 1).drop_last() =~= conditions@.take(i as int));
        if !conditions[i].matched {
            n += 1;
        }
        i += 1;
    }
    assert(conditions@.take(conditions.len() as int) =~= conditions@);
    n
}

/// The one-line verdict on a rule.
pub fn match_message(
    rule: &AutomationRule,
    matched: bool,
    app_matched: bool,
    time_matched: bool,
    conditions: &[ConditionExplanation],
    block_reason: Option<&str>,
) -> (r: String)
    ensures
        r@ == match_message_text(
            rule.name@,
            matched,
            app_matched,
            time_matched,
            match block_reason {
                Some(b) => Some(b@),
                None => None,
            },
            failed_count(conditions@),
        ),
{
    if matched {
        let mut v = chars_of("匹配成功：");
        extend_str(&mut v, rule.name.as_str());
        extend_str(&mut v, "，未执行动作");
        return string_of(&v);
    }
    let failed = count_failed(conditions);
    let mut reasons: Vec<Vec<char>> = Vec::new();
    if !app_matched {
        reasons.push(chars_of("触发应用不匹配"));
    }
    if !time_matched {
        reasons.push(chars_of("触发时间不匹配"));
    }
    match block_reason {
        Some(b) => reasons.push(chars_of(b)),
        None => {},
    }
    if failed > 0 {
        let mut f = decimal(failed as u64);
        extend_str(&mut f, " 个条件未通过");
        reasons.push(f);
    }
    if reasons.len() == 0 {
        reasons.push(chars_of("未满足规则"));
    }
    assert(views(reasons@) =~= failure_reasons(
        app_matched,
        time_matched,
        match block_reason {
            Some(b) => Some(b@),
            None => None,
        },
        failed as nat,
    ));
    let mut v = chars_of("匹配失败：");
    extend_str(&mut v, rule.name.as_str());
    extend_str(&mut v, "（");
    let sep = chars_of("，");
    let joined = join_chars(&reasons, &sep);
    extend_chars(&mut v, &joined);
    extend_str(&mut v, "）");
    string_of(&v)
}

/// The value a condition saw: the variable's value, or empty.
pub open spec fn value_or_empty(v: Option<Seq<char>>) -> Seq<char> {
    match v {
        Some(s) => s,
        None => Seq::empty(),
    }
}

/// The text of an optional string (empty when absent).
pub open spec fn text_of(o: Option<String>) -> Seq<char> {
    match o {
        Some(s) => s@,
        None => Seq::empty(),
    }
}

/// `e` explains condition `c` on variables whose lookup gives `looked_up`.
pub open spec fn explains_condition(e: ConditionExplanation, c: MatchCondition, looked_up: Option<Seq<char>>) -> bool {
    &&& e.variable_name == c.variable_name
    &&& e.operator_type == c.operator_type
    &&& e.expected_value@ == text_of(c.expected_value)
    &&& e.actual_value@ == value_or_empty(looked_up)
    &&& e.case_sensitive == c.case_sensitive
    &&& e.matched == condition_holds(c, looked_up)
}

fn explain_condition(c: &MatchCondition, variables: &StringMap) -> (e: ConditionExplanation)
    ensures
        explains_condition(e, *c, variables.get_spec(c.variable_name@)),
{
    let actual = match variables.get_str(c.variable_name.as_str()) {
        Some(v) => v.clone(),
        None => String::new(),
    };
    let expected = match &c.expected_value {
        Some(v) => v.clone(),
        None => String::new(),
    };
    ConditionExplanation {
        variable_name: c.variable_name.clone(),
        operator_type: c.operator_type.clone(),
        expected_value: expected,
        actual_value: actual,
        case_sensitive: c.case_sensitive,
        matched: c.evaluate(variables),
    }
}

/// `a` is the analysis of `rule` on `record` in the minute `minute`.
pub open spec fn is_analysis(a: RuleMatchAnalysis, rule: AutomationRule, record: NotificationRecord, minute: Option<Seq<char>>) -> bool {
    let e = a.explanation;
    let conds = conditions_of(rule);
    let lookup = |name: Seq<char>| lookup_last(variable_pairs(record, extractions_of(rule)), name);
    &&& forall|k: Seq<char>| #[trigger] a.variables.get_spec(k) == lookup(k)
    &&& e.rule_name == rule.name
    &&& e.app_matched == app_matches(opt_seq(rule.app_identifiers), record.app_identifier@)
    &&& e.time_matched == trigger_time_ok(opt_view(rule.trigger_time), minute)
    &&& e.conditions@.len() == conds.len()
    &&& forall|i: int|
        0 <= i < conds.len() ==> explains_condition(
            #[trigger] e.conditions@[i],
            conds[i],
            lookup(conds[i].variable_name@),
        )
    &&& e.matched == (match_block_reason(rule) is None && e.app_matched && e.time_matched
        && failed_count(e.conditions@) == 0)
    &&& e.variable_count == visible_count(a.variables.keys())
    &&& e.message@ == match_message_text(
        rule.name@,
        e.matched,
        e.app_matched,
        e.time_matched,
        match_block_reason(rule),
        failed_count(e.conditions@),
    )
}

/// Evaluates `rule` on `record` as if the local time were
/// `current_minute`, without running anything.
pub fn analyze_rule_match_at(rule: &AutomationRule, record: &NotificationRecord, current_minute: Option<&str>) -> (a: RuleMatchAnalysis)
    ensures
        is_analysis(
            a,
            *rule,
            *record,
            match current_minute {
                Some(m) => Some(m@),
                None => None,
            },
        ),
{
    let no_extractions: Vec<VariableExtractionRule> = Vec::new();
    let extractions = match &rule.variable_extractions {
        Some(v) => v,
        None => &no_extractions,
    };
    let variables = extract_variables(record, extractions);
    let block = rule_match_block_reason(rule);
    let ids: Option<&[String]> = match &rule.app_identifiers {
        Some(v) => Some(v.as_slice()),
        None => None,
    };
    let app_matched = matches_record_app(ids, record.app_identifier.as_str());
    let trigger: Option<&str> = match &rule.trigger_time {
        Some(t) => Some(t.as_str()),
        None => None,
    };
    let time_matched = trigger_time_matches(trigger, current_minute);
    let no_conditions: Vec<MatchCondition> = Vec::new();
    let conds = match &rule.match_conditions {
        Some(v) => v,
        None => &no_conditions,
    };
    assert(conds@ == conditions_of(*rule));
    let mut explained: Vec<ConditionExplanation> = Vec::new();
    let mut i: usize = 0;
    while i < conds.len()
        invariant
            i <= conds.len(),
            explained@.len() == i,
            forall|j: int|
                0 <= j < i ==> explains_condition(
                    #[trigger] explained@[j],
                    conds@[j],
                    variables.get_spec(conds@[j].variable_name@),
                ),
        decreases conds.len() - i,
    {
        explained.push(explain_condition(&conds[i], &variables));
        i += 1;
    }
    let failed = count_failed(explained.as_slice());
    let matched = block.is_none() && app_matched && time_matched && failed == 0;
    let block_ref: Option<&str> = match &block {
        Some(b) => Some(b.as_str()),
        None => None,
    };
    let message = match_message(rule, matched, app_matched, time_matched, explained.as_slice(), block_ref);
    let variable_count = visible_variable_count(&variables);
    RuleMatchAnalysis {
        explanation: MatchExplanation {
            matched,
            rule_name: rule.name.clone(),
            app_matched,
            time_matched,
            variable_count,
            conditions: explained,
            message,
        },
        variables,
    }
}

/// Evaluates `rule` on `record` now, without running anything; the local
/// clock is read only when the rule is limited to a minute of the day,
/// and the rule is then evaluated at the local minute read (`"%H:%M"`).
pub fn analyze_rule_match(rule: &AutomationRule, record: &NotificationRecord) -> (a: RuleMatchAnalysis)
    ensures
        !has_trigger_time(*rule) ==> is_analysis(a, *rule, *record, None),
        has_trigger_time(*rule) ==> exists|m: Seq<char>|
            is_clock_minute(m) && #[trigger] is_analysis(a, *rule, *record, Some(m)),
{
    let limited = match &rule.trigger_time {
        Some(t) => trim_chars(&chars_of(t.as_str())).len() > 0,
        None => false,
    };
    if limited {
        let now = current_local_minute("%H:%M");
        let a = analyze_rule_match_at(rule, record, Some(now.as_str()));
        assert(is_analysis(a, *rule, *record, Some(now@)));
        a
    } else {
        analyze_rule_match_at(rule, record, None)
    }
}

// ---------------------------------------------------------------------
// Explanation lines
// ---------------------------------------------------------------------

/// `通过` (passed) or `未通过` (failed).
pub open spec fn pass_fail(value: bool) -> Seq<char> {
    if value {
        "通过"@
    } else {
        "未通过"@
    }
}

/// The label for a passed or failed check.
pub fn pass_fail_label(value: bool) -> (r: String)
    ensures
        r@ == pass_fail(value),
{
    if value {
        owned("通过")
    } else {
        owned("未通过")
    }
}

/// `value` trimmed, cut to `max` characters with `...` appended when
/// longer.
pub open spec fn truncated(value: Seq<char>, max: nat) -> Seq<char> {
    let t = trim(value);
    if t.len() <= max {
        t
    } else {
        t.take(max as int) + "..."@
    }
}

fn truncate_chars(value: &str, max: usize) -> (r: String)
    ensures
        r@ == truncated(value@, max as nat),
{
    let t = trim_chars(&chars_of(value));
    if t.len() <= max {
        return string_of(&t);
    }
    let mut v = take_chars(&t, max);
    extend_str(&mut v, "...");
    string_of(&v)
}

/// A value as a log line shows it: at most 120 characters.
pub fn truncate_log_value(value: &str) -> (r: String)
    ensures
        r@ == truncated(value@, 120),
{
    truncate_chars(value, 120)
}

/// A notification body as the service posts it: at most 160 characters.
pub fn truncate_notification_body(value: &str) -> (r: String)
    ensures
        r@ == truncated(value@, 160),
{
    truncate_chars(value, 160)
}

/// The line describing condition `i`.
pub open spec fn condition_line(i: int, c: ConditionExplanation) -> Seq<char> {
    "条件 "@ + spec_decimal((i + 1) as nat) + "："@ + c.variable_name@ + " "@ + c.operator_type@ + " "@
        + c.expected_value@ + "，实际值："@ + truncated(c.actual_value@, 120) + "，"@ + pass_fail(
        c.matched,
    )
}

/// `lines` are the message of a match explanation, then what matched and
/// how many variables there are, then a line for each condition.
pub open spec fn explanation_lines(lines: Seq<String>, explanation: MatchExplanation) -> bool {
    &&& lines.len() == explanation.conditions@.len() + 2
    &&& lines[0] == explanation.message
    &&& lines[1]@ == "应用："@ + pass_fail(explanation.app_matched) + "；时间："@ + pass_fail(
        explanation.time_matched,
    ) + "；变量："@ + spec_decimal(explanation.variable_count as nat) + " 个"@
    &&& forall|i: int|
        0 <= i < explanation.conditions@.len() ==> (#[trigger] lines[i + 2])@ == condition_line(
            i,
            explanation.conditions@[i],
        )
}

/// The text of a match explanation: its message, what matched and how
/// many variables there are, then a line for each condition.
pub fn match_explanation_lines(explanation: &MatchExplanation) -> (r: Vec<String>)
    ensures
        explanation_lines(r@, *explanation),
{
    let mut lines: Vec<String> = Vec::new();
    lines.push(explanation.message.clone());
    let mut summary = chars_of("应用：");
    extend_str(&mut summary, pass_fail_label(explanation.app_matched).as_str());
    extend_str(&mut summary, "；时间：");
    extend_str(&mut summary, pass_fail_label(explanation.time_matched).as_str());
    extend_str(&mut summary, "；变量：");
    extend_chars(&mut summary, &decimal(explanation.variable_count as u64));
    extend_str(&mut summary, " 个");
    lines.push(string_of(&summary));
    let conds = &explanation.conditions;
    let mut i: usize = 0;
    while i < conds.len()
        invariant
            i <= conds.len(),
            conds@ == explanation.conditions@,
            lines@.len() == i + 2,
            lines@[0] == explanation.message,
            lines@[1]@ == "应用："@ + pass_fail(explanation.app_matched) + "；时间："@ + pass_fail(
                explanation.time_matched,
            ) + "；变量："@ + spec_decimal(explanation.variable_count as nat) + " 个"@,
            forall|j: int| 0 <= j < i ==> (#[trigger] lines@[j + 2])@ == condition_line(j, conds@[j]),
        decreases conds.len() - i,
    {
        let c = &conds[i];
        let mut line = chars_of("条件 ");
        extend_chars(&mut line, &decimal(i as u64 + 1));
        extend_str(&mut line, "：");
        extend_str(&mut line, c.variable_name.as_str());
        extend_str(&mut line, " ");
        extend_str(&mut line, c.operator_type.as_str());
        extend_str(&mut line, " ");
        extend_str(&mut line, c.expected_value.as_str());
        extend_str(&mut line, "，实际值：");
        extend_str(&mut line, truncate_log_value(c.actual_value.as_str()).as_str());
        extend_str(&mut line, "，");
        extend_str(&mut line, pass_fail_label(c.matched).as_str());
        assert(line@ =~= condition_line(i as int, conds@[i as int]));
        lines.push(string_of(&line));
        i += 1;
    }
    lines
}

// ---------------------------------------------------------------------
// AppleScript text
// ---------------------------------------------------------------------

/// `value` as an AppleScript string literal: quoted, with backslashes and
/// double quotes escaped.
pub open spec fn applescript_literal(value: Seq<char>) -> Seq<char> {
    seq!['"'] + replace_char(replace_char(value, '\\', seq!['\\', '\\']), '"', seq!['\\', '"'])
        + seq!['"']
}

/// Quotes `value` for an AppleScript source.
pub fn applescript_quote(value: &str) -> (r: String)
    ensures
        r@ == applescript_literal(value@),
{
    let v = chars_of(value);
    let mut bs: Vec<char> = Vec::new();
    bs.push('\\');
    bs.push('\\');
    assert(bs@ =~= seq!['\\', '\\']);
    let mut dq: Vec<char> = Vec::new();
    dq.push('\\');
    dq.push('"');
    assert(dq@ =~= seq!['\\', '"']);
    let once = replace_char_chars(&v, '\\', &bs);
    let twice = replace_char_chars(&once, '"', &dq);
    let mut out: Vec<char> = Vec::new();
    out.push('"');
    extend_chars(&mut out, &twice);
    out.push('"');
    assert(out@ =~= applescript_literal(value@));
    string_of(&out)
}

/// The status part of the notification posted after a job.
pub open spec fn result_status(success: bool, success_count: nat, failed_count: nat) -> Seq<char> {
    if success {
        "成功 "@ + spec_decimal(success_count) + " 个动作"@
    } else {
        "成功 "@ + spec_decimal(success_count) + " 个，失败 "@ + spec_decimal(failed_count) + " 个"@
    }
}

/// The AppleScript that posts the outcome of a job.
pub open spec fn result_script(
    success: bool,
    rule_name: Seq<char>,
    notification_title: Seq<char>,
    success_count: nat,
    failed_count: nat,
) -> Seq<char> {
    let title = if success {
        "NoticeFlow 动作完成"@
    } else {
        "NoticeFlow 动作失败"@
    };
    let body = truncated(
        rule_name + " / "@ + notification_title + "："@ + result_status(success, success_count, failed_count),
        160,
    );
    "display notification "@ + applescript_literal(body) + " with title "@ + applescript_literal(title)
        + " subtitle "@ + applescript_literal("NoticeFlow Automation"@)
}

/// The AppleScript that posts the outcome of a job.
pub fn automation_result_script(
    success: bool,
    rule_name: &str,
    notification_title: &str,
    success_count: usize,
    failed_count: usize,
) -> (r: String)
    ensures
        r@ == result_script(success, rule_name@, notification_title@, success_count as nat, failed_count as nat),
{
    let title = if success {
        owned("NoticeFlow 动作完成")
    } else {
        owned("NoticeFlow 动作失败")
    };
    let mut status = chars_of("成功 ");
    extend_chars(&mut status, &decimal(success_count as u64));
    if success {
        extend_str(&mut status, " 个动作");
    } else {
        extend_str(&mut status, " 个，失败 ");
        extend_chars(&mut status, &decimal(failed_count as u64));
        extend_str(&mut status, " 个");
    }
    assert(status@ =~= result_status(success, success_count as nat, failed_count as nat));
    let mut text = chars_of(rule_name);
    extend_str(&mut text, " / ");
    extend_str(&mut text, notification_title);
    extend_str(&mut text, "：");
    extend_chars(&mut text, &status);
    let body = truncate_notification_body(string_of(&text).as_str());
    let mut script = chars_of("display notification ");
    extend_str(&mut script, applescript_quote(body.as_str()).as_str());
    extend_str(&mut script, " with title ");
    extend_str(&mut script, applescript_quote(title.as_str()).as_str());
    extend_str(&mut script, " subtitle ");
    extend_str(&mut script, applescript_quote("NoticeFlow Automation").as_str());
    string_of(&script)
}

// ---------------------------------------------------------------------
// Notifications the user acts on
// ---------------------------------------------------------------------

/// A notification as the user interface identifies it, its time in
/// RFC 3339.
#[derive(Clone, Debug)]
pub struct NotificationRecordIdentity {
    pub id: i64,
    pub app_identifier: String,
    pub app_name: String,
    pub delivered_at: String,
    pub title: String,
    pub subtitle: String,
    pub body: String,
}

/// `record` is still the notification the user saw: same id, application
/// (ASCII case ignored), texts, and delivery instant.
pub open spec fn identity_matches(record: NotificationRecord, expected: NotificationRecordIdentity) -> bool {
    &&& record.id == expected.id
    &&& eq_ignore_ascii_case(record.app_identifier@, expected.app_identifier@)
    &&& record.title@ == expected.title@
    &&& record.subtitle@ == expected.subtitle@
    &&& record.body@ == expected.body@
    &&& match spec_parse_rfc3339(expected.delivered_at@) {
        Ok((millis, nanos)) => millis == record.delivered_at && nanos % 1_000_000 == 0,
        Err(_) => false,
    }
}

/// Whether `record` is still the notification the user saw.
pub fn notification_identity_matches(record: &NotificationRecord, expected: &NotificationRecordIdentity) -> (r: bool)
    ensures
        r == identity_matches(*record, *expected),
{
    if record.id != expected.id {
        return false;
    }
    let a = chars_of(record.app_identifier.as_str());
    let b = chars_of(expected.app_identifier.as_str());
    if !eq_ignore_ascii_case_chars(&a, &b) {
        return false;
    }
    if !chars_eq(&chars_of(record.title.as_str()), &chars_of(expected.title.as_str()))
        || !chars_eq(&chars_of(record.subtitle.as_str()), &chars_of(expected.subtitle.as_str()))
        || !chars_eq(&chars_of(record.body.as_str()), &chars_of(expected.body.as_str())) {
        return false;
    }
    match parse_rfc3339(expected.delivered_at.as_str()) {
        Ok((millis, nanos)) => millis == record.delivered_at && nanos % 1_000_000 == 0,
        Err(_) => false,
    }
}

/// The notification the user identified, its time cut to whole
/// milliseconds.
pub fn record_from_identity(record: &NotificationRecordIdentity) -> (r: Result<NotificationRecord, String>)
    ensures
        match spec_parse_rfc3339(record.delivered_at@) {
            Ok((millis, _)) => r matches Ok(n) && n.id == record.id && n.app_identifier == record.app_identifier
                && n.app_name == record.app_name && n.delivered_at == millis && n.title == record.title
                && n.subtitle == record.subtitle && n.body == record.body,
            Err(m) => r matches Err(e) && e@ == "通知时间格式无效："@ + m,
        },
{
    match parse_rfc3339(record.delivered_at.as_str()) {
        Ok((millis, _)) => Ok(
            NotificationRecord {
                id: record.id,
                app_identifier: record.app_identifier.clone(),
                app_name: record.app_name.clone(),
                delivered_at: millis,
                title: record.title.clone(),
                subtitle: record.subtitle.clone(),
                body: record.body.clone(),
            },
        ),
        Err(m) => {
            let mut v = chars_of("通知时间格式无效：");
            extend_str(&mut v, m.as_str());
            Err(string_of(&v))
        },
    }
}

/// The problems met while marking a deleted notification in the archive
/// (`mark`: rows changed or error) and recording the deletion (`audit`).
pub open spec fn deletion_errors(mark: Result<usize, String>, audit: Result<(), String>) -> Seq<Seq<char>> {
    let a: Seq<Seq<char>> = match mark {
        Ok(n) => if n == 0 {
            seq!["归档标记失败：本地归档中未找到这条通知"@]
        } else {
            seq![]
        },
        Err(e) => seq!["归档标记失败："@ + e@],
    };
    match audit {
        Ok(()) => a,
        Err(e) => a.push("审计记录失败："@ + e@),
    }
}

/// The problems met while marking and auditing a deletion.
pub fn mark_deleted_errors(mark: &Result<usize, String>, audit: &Result<(), String>) -> (r: Vec<String>)
    ensures
        r@.map_values(|s: String| s@) == deletion_errors(*mark, *audit),
{
    let mut errors: Vec<String> = Vec::new();
    match mark {
        Ok(n) => {
            if *n == 0 {
                errors.push(owned("归档标记失败：本地归档中未找到这条通知"));
            }
        },
        Err(e) => {
            let mut v = chars_of("归档标记失败：");
            extend_str(&mut v, e.as_str());
            errors.push(string_of(&v));
        },
    }
    let ghost before = errors@.map_values(|s: String| s@);
    match audit {
        Ok(()) => {},
        Err(e) => {
            let mut v = chars_of("审计记录失败：");
            extend_str(&mut v, e.as_str());
            errors.push(string_of(&v));
            assert(errors@.map_values(|s: String| s@) =~= before.push("审计记录失败："@ + e@));
        },
    }
    assert(errors@.map_values(|s: String| s@) =~= deletion_errors(*mark, *audit));
    errors
}

/// The answer when the store no longer holds the notification: it is
/// hidden from the list, or the local errors are reported.
pub open spec fn missing_record_message(errors: Seq<Seq<char>>) -> Seq<char> {
    if errors.len() == 0 {
        "系统通知库中未找到这条记录，已从 NoticeFlow 列表隐藏"@
    } else {
        "系统通知库中未找到这条记录，且本地归档更新失败："@ + join(errors, "；"@)
    }
}

fn joined_errors(errors: &Vec<String>) -> (r: Vec<char>)
    ensures
        r@ == join(errors@.map_values(|s: String| s@), "；"@),
{
    let mut parts: Vec<Vec<char>> = Vec::new();
    let mut i: usize = 0;
    while i < errors.len()
        invariant
            i <= errors.len(),
            views(parts@) =~= errors@.map_values(|s: String| s@).take(i as int),
        decreases errors.len() - i,
    {
        let ghost before = views(parts@);
        parts.push(chars_of(errors[i].as_str()));
        assert(views(parts@) =~= before.push(errors@[i as int]@));
        assert(errors@.map_values(|s: String| s@).take(i + 1) =~= errors@.map_values(|s: String| s@).take(i as int).push(errors@[i as int]@));
        i += 1;
    }
    assert(errors@.map_values(|s: String| s@).take(errors.len() as int) =~= errors@.map_values(|s: String| s@));
    join_chars(&parts, &chars_of("；"))
}

/// The answer when the store no longer holds the notification.
pub fn missing_record_error(local_errors: &Vec<String>) -> (r: String)
    ensures
        r@ == missing_record_message(local_errors@.map_values(|s: String| s@)),
{
    if local_errors.len() == 0 {
        return owned("系统通知库中未找到这条记录，已从 NoticeFlow 列表隐藏");
    }
    let mut v = chars_of("系统通知库中未找到这条记录，且本地归档更新失败：");
    extend_chars(&mut v, &joined_errors(local_errors));
    string_of(&v)
}

/// The outcome of deleting a notification from the store (`changed`
/// rows) after marking and auditing it locally.
pub fn system_deletion_result(changed: usize, local_errors: &Vec<String>) -> (r: Result<(), String>)
    ensures
        changed == 0 ==> (r matches Err(m) && m@ == missing_record_message(
            local_errors@.map_values(|s: String| s@),
        )),
        changed > 0 && local_errors@.len() > 0 ==> (r matches Err(m) && m@
            == "系统通知已删除，但本地归档/审计更新失败："@ + join(
            local_errors@.map_values(|s: String| s@),
            "；"@,
        )),
        changed > 0 && local_errors@.len() == 0 ==> r is Ok,
{
    if changed == 0 {
        return Err(missing_record_error(local_errors));
    }
    if local_errors.len() > 0 {
        let mut v = chars_of("系统通知已删除，但本地归档/审计更新失败：");
        extend_chars(&mut v, &joined_errors(local_errors));
        return Err(string_of(&v));
    }
    Ok(())
}

} // verus!
