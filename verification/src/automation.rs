//! The decisions of the automation service: which notifications it
//! watches, how it explains a rule's verdict, how the watcher backs off,
//! and the messages it shows.
use vstd::prelude::*;
use crate::foreign::{opt_view, parse_rfc3339, spec_parse_rfc3339, spec_utf8_lossy, utf8_lossy};
use crate::notification_db::NotificationRecord;
use crate::rules::{app_list_matches, app_id_matches};
use crate::text::{
    chars_eq, chars_eq_str, chars_of, concat, decimal, eq_ignore_ascii_case,
    eq_ignore_ascii_case_chars, extend_chars, extend_str, is_blank, owned, replace_char,
    replace_char_chars, spec_decimal, string_of, take_chars, trim, trim_chars, trimmed,
    contains, contains_seq, spec_to_lowercase, to_lowercase,
};
use crate::validation::{has_actions, has_match_conditions, has_trigger_app, rule_has_actions,
    rule_has_match_conditions, rule_has_trigger_app, rule_error};
use crate::rules::AutomationRule;

verus! {

// ---------------------------------------------------------------------
// Incomplete rules
// ---------------------------------------------------------------------

/// Why a rule may not run automatically: it names no application, has no
/// condition, or has no action (checked in that order).
pub open spec fn automation_block_reason(rule: AutomationRule) -> Option<Seq<char>> {
    if !has_trigger_app(rule) {
        Some("缺少触发应用"@)
    } else if !has_match_conditions(rule) {
        Some("缺少匹配条件"@)
    } else if !has_actions(rule) {
        Some("缺少触发动作"@)
    } else {
        None
    }
}

/// Why a rule cannot match at all: it names no application or has no
/// condition.
pub open spec fn match_block_reason(rule: AutomationRule) -> Option<Seq<char>> {
    if !has_trigger_app(rule) {
        Some("缺少触发应用"@)
    } else if !has_match_conditions(rule) {
        Some("缺少匹配条件"@)
    } else {
        None
    }
}

/// Why a rule may not run automatically, if it may not.
pub fn rule_automation_block_reason(rule: &AutomationRule) -> (r: Option<String>)
    ensures
        r matches Some(m) ==> automation_block_reason(*rule) == Some(m@),
        r is None ==> automation_block_reason(*rule) is None,
{
    if !rule_has_trigger_app(rule) {
        Some(owned("缺少触发应用"))
    } else if !rule_has_match_conditions(rule) {
        Some(owned("缺少匹配条件"))
    } else if !rule_has_actions(rule) {
        Some(owned("缺少触发动作"))
    } else {
        None
    }
}

/// Why a rule cannot match at all, if it cannot.
pub fn rule_match_block_reason(rule: &AutomationRule) -> (r: Option<String>)
    ensures
        r matches Some(m) ==> match_block_reason(*rule) == Some(m@),
        r is None ==> match_block_reason(*rule) is None,
{
    if !rule_has_trigger_app(rule) {
        Some(owned("缺少触发应用"))
    } else if !rule_has_match_conditions(rule) {
        Some(owned("缺少匹配条件"))
    } else {
        None
    }
}

/// A rule that passes the checks for saving is never held back as
/// incomplete, neither from matching nor from running automatically.
pub proof fn lemma_valid_rule_not_blocked(rule: AutomationRule)
    requires
        rule_error(rule) is None,
    ensures
        automation_block_reason(rule) is None,
        match_block_reason(rule) is None,
{
}

// ---------------------------------------------------------------------
// Which applications are watched
// ---------------------------------------------------------------------

/// Whether the selected applications are the ones ignored or the only
/// ones watched.
#[derive(Clone, Copy, Debug, PartialEq, Eq, Structural)]
pub enum AppFilterMode {
    Exclude,
    Include,
}

/// The filter mode a setting names: `include` (after trimming) selects
/// the watched applications, anything else the ignored ones.
pub open spec fn filter_mode_of(mode: Option<Seq<char>>) -> AppFilterMode {
    match mode {
        Some(m) => if trim(m) == "include"@ {
            AppFilterMode::Include
        } else {
            AppFilterMode::Exclude
        },
        None => AppFilterMode::Exclude,
    }
}

/// The name of a filter mode.
pub open spec fn filter_mode_name(mode: AppFilterMode) -> Seq<char> {
    match mode {
        AppFilterMode::Include => "include"@,
        AppFilterMode::Exclude => "exclude"@,
    }
}

/// The filter mode a setting names.
pub fn app_filter_mode(mode: Option<&str>) -> (r: AppFilterMode)
    ensures
        r == filter_mode_of(
            match mode {
                Some(m) => Some(m@),
                None => None,
            },
        ),
{
    match mode {
        Some(m) => {
            let t = trimmed(m);
            if chars_eq_str(&t, "include") {
                AppFilterMode::Include
            } else {
                AppFilterMode::Exclude
            }
        },
        None => AppFilterMode::Exclude,
    }
}

/// The name of the filter mode a setting names (`include` or `exclude`).
pub fn normalized_app_filter_mode(mode: Option<&str>) -> (r: String)
    ensures
        r@ == filter_mode_name(
            filter_mode_of(
                match mode {
                    Some(m) => Some(m@),
                    None => None,
                },
            ),
        ),
{
    match app_filter_mode(mode) {
        AppFilterMode::Include => owned("include"),
        AppFilterMode::Exclude => owned("exclude"),
    }
}

/// Whether `app_identifier` is one of the selected applications (both
/// trimmed, ASCII case ignored, blanks never selected).
pub fn is_ignored_app(ignored: &[String], app_identifier: &str) -> (r: bool)
    ensures
        r == app_list_matches(ignored@, app_identifier@),
{
    let app = trimmed(app_identifier);
    if app.len() == 0 {
        return false;
    }
    let mut i: usize = 0;
    while i < ignored.len()
        invariant
            i <= ignored.len(),
            app@ == trim(app_identifier@),
            app@.len() > 0,
            forall|j: int| 0 <= j < i ==> !app_id_matches(#[trigger] ignored@[j]@, app_identifier@),
        decreases ignored.len() - i,
    {
        let candidate = trimmed(ignored[i].as_str());
        if candidate.len() > 0 && eq_ignore_ascii_case_chars(&candidate, &app) {
            assert(app_id_matches(ignored@[i as int]@, app_identifier@));
            return true;
        }
        i += 1;
    }
    false
}

/// Whether notifications of an application are visible: in exclude mode
/// unless selected, in include mode only when selected.
pub open spec fn visible_app(mode: AppFilterMode, apps: Seq<String>, app: Seq<char>) -> bool {
    match mode {
        AppFilterMode::Exclude => !app_list_matches(apps, app),
        AppFilterMode::Include => app_list_matches(apps, app),
    }
}

/// Whether notifications of `app_identifier` are visible.
pub fn is_visible_app(mode: AppFilterMode, app_identifiers: &[String], app_identifier: &str) -> (r: bool)
    ensures
        r == visible_app(mode, app_identifiers@, app_identifier@),
{
    match mode {
        AppFilterMode::Exclude => !is_ignored_app(app_identifiers, app_identifier),
        AppFilterMode::Include => is_ignored_app(app_identifiers, app_identifier),
    }
}

/// With the same selection, the two modes show exactly complementary
/// sets of applications.
pub proof fn lemma_filter_modes_complementary(apps: Seq<String>, app: Seq<char>)
    ensures
        visible_app(AppFilterMode::Include, apps, app) == !visible_app(AppFilterMode::Exclude, apps, app),
{
}

// ---------------------------------------------------------------------
// Listing
// ---------------------------------------------------------------------

/// How many notifications a listing asks for: 200 by default, at most
/// 1000.
pub open spec fn list_limit(limit: Option<usize>) -> int {
    let n: int = match limit {
        Some(n) => n as int,
        None => 200,
    };
    if n < 1000 {
        n
    } else {
        1000
    }
}

/// How many notifications a listing asks for.
pub fn normalized_notification_list_limit(limit: Option<usize>) -> (r: usize)
    ensures
        r == list_limit(limit),
{
    let n: usize = match limit {
        Some(n) => n,
        None => 200,
    };
    if n < 1000 {
        n
    } else {
        1000
    }
}

/// The notifications the app posts about its own actions, which must not
/// trigger rules again.
pub open spec fn internal_feedback(record: NotificationRecord) -> bool {
    &&& record.subtitle@ == "NoticeFlow Automation"@
    &&& (record.title@ == "NoticeFlow 动作完成"@ || record.title@ == "NoticeFlow 动作失败"@)
}

/// Whether a notification is one the app posted about its own actions.
pub fn is_internal_automation_feedback_record(record: &NotificationRecord) -> (r: bool)
    ensures
        r == internal_feedback(*record),
{
    let subtitle = chars_of(record.subtitle.as_str());
    if !chars_eq_str(&subtitle, "NoticeFlow Automation") {
        return false;
    }
    let title = chars_of(record.title.as_str());
    chars_eq_str(&title, "NoticeFlow 动作完成") || chars_eq_str(&title, "NoticeFlow 动作失败")
}

// ---------------------------------------------------------------------
// Watching the store
// ---------------------------------------------------------------------

/// The pause before the watcher's next poll, in milliseconds: short while
/// polls succeed, growing with consecutive failures up to a minute.
pub open spec fn sleep_millis(consecutive_errors: u32) -> u64 {
    if consecutive_errors == 0 {
        300
    } else if consecutive_errors == 1 {
        3000
    } else if consecutive_errors == 2 {
        8000
    } else if consecutive_errors == 3 {
        15000
    } else if consecutive_errors == 4 {
        30000
    } else {
        60000
    }
}

/// The pause before the watcher's next poll, in milliseconds.
pub fn watcher_sleep_duration(consecutive_errors: u32) -> (r: u64)
    ensures
        r == sleep_millis(consecutive_errors),
{
    match consecutive_errors {
        0 => 300,
        1 => 3000,
        2 => 8000,
        3 => 15000,
        4 => 30000,
        _ => 60000,
    }
}

/// The pause never exceeds a minute and never shrinks as failures add up.
pub proof fn lemma_backoff_capped_and_monotone(a: u32, b: u32)
    ensures
        sleep_millis(a) <= 60000,
        a <= b ==> sleep_millis(a) <= sleep_millis(b),
{
}

/// The store's record ids went backwards: it was rebuilt.
pub open spec fn store_was_reset(last_record_id: i64, current_max_record_id: i64) -> bool {
    last_record_id > 0 && current_max_record_id < last_record_id
}

/// Whether the store was rebuilt since the last record seen.
pub fn notification_store_was_reset(last_record_id: i64, current_max_record_id: i64) -> (r: bool)
    ensures
        r == store_was_reset(last_record_id, current_max_record_id),
{
    last_record_id > 0 && current_max_record_id < last_record_id
}

/// The new starting point after a rebuild: the store's current largest
/// id, so that old notifications are not replayed.
pub fn notification_store_reset_baseline(last_record_id: i64, current_max_record_id: i64) -> (r: Option<i64>)
    ensures
        r == (if store_was_reset(last_record_id, current_max_record_id) {
            Some(current_max_record_id)
        } else {
            None
        }),
{
    if notification_store_was_reset(last_record_id, current_max_record_id) {
        Some(current_max_record_id)
    } else {
        None
    }
}

/// The counts after which a repeated watcher error is shown again.
pub open spec fn reminder_count(n: u32) -> bool {
    n == 1 || n == 3 || n == 6
}

/// One thing that moves the watcher's last record id: a reading of the
/// starting point (the store's largest id, or none on failure), an empty
/// poll with the store's largest id read after it (or none on failure), a
/// failed poll, or a batch of records handed on.
pub enum WatchEvent {
    Baseline(Option<i64>),
    EmptyPoll(Option<i64>),
    PollFailed,
    Batch(Seq<NotificationRecord>),
}

/// The id a reading of the store's largest id gave, if it succeeded.
pub open spec fn read_id(result: Result<i64, String>) -> Option<i64> {
    match result {
        Ok(id) => Some(id),
        Err(_) => None,
    }
}

/// The watcher's last record id after `e`, from `last`: a starting point
/// read replaces it; an empty poll moves it back to the store's largest
/// id only when the store was rebuilt; a batch moves it to the batch's
/// largest id; nothing else moves it.
pub open spec fn watch_next(last: i64, e: WatchEvent) -> i64 {
    match e {
        WatchEvent::Baseline(Some(id)) => id,
        WatchEvent::EmptyPoll(Some(m)) => if store_was_reset(last, m) {
            m
        } else {
            last
        },
        WatchEvent::Batch(records) => match crate::dispatch::max_id_of(records) {
            Some(m) => m,
            None => last,
        },
        _ => last,
    }
}

/// The watcher's loop state.
pub struct WatcherState {
    /// The starting record id is known.
    pub baseline_ready: bool,
    pub consecutive_errors: u32,
    pub last_reported_error: String,
    /// The last record id handled.
    pub last_record_id: i64,
}

/// What the watcher tells the user: a status change or an error.
#[derive(Clone, Debug)]
pub enum WatcherNotice {
    Status(String),
    Error(String),
}

/// How one more failure with `message` is reported: shown (and
/// remembered) when it differs from the last one shown or the count of
/// failures in a row reaches 1, 3 or 6; otherwise kept quiet.
pub open spec fn error_reported(before: WatcherState, message: Seq<char>, r: Option<WatcherNotice>, after: WatcherState) -> bool {
    if before.last_reported_error@ != message || reminder_count(bumped(before.consecutive_errors)) {
        r matches Some(WatcherNotice::Error(m)) && m@ == message && after.last_reported_error@ == message
    } else {
        r is None && after.last_reported_error == before.last_reported_error
    }
}

/// The count of consecutive errors after one more.
pub open spec fn bumped(n: u32) -> u32 {
    if n == u32::MAX {
        n
    } else {
        (n + 1) as u32
    }
}

impl WatcherState {
    /// The state once the first look at the store gave `result` (its
    /// largest record id or an error), and the line to log.
    pub fn start(result: Result<i64, String>) -> (r: (WatcherState, String))
        ensures
            match result {
                Ok(id) => r.0.baseline_ready && r.0.last_record_id == id && r.1@ == "监听已启动，起始通知记录 ID："@
                    + signed_decimal(id as int),
                Err(e) => !r.0.baseline_ready && r.0.last_record_id == 0 && r.1@ == "监听启动失败："@ + e@,
            },
            r.0.consecutive_errors == 0,
            r.0.last_reported_error@.len() == 0,
    {
        match result {
            Ok(id) => {
                let mut m = chars_of("监听已启动，起始通知记录 ID：");
                extend_chars(&mut m, &signed_decimal_exec(id));
                (
                    WatcherState {
                        baseline_ready: true,
                        consecutive_errors: 0,
                        last_reported_error: String::new(),
                        last_record_id: id,
                    },
                    string_of(&m),
                )
            },
            Err(e) => {
                let mut m = chars_of("监听启动失败：");
                extend_str(&mut m, e.as_str());
                (
                    WatcherState {
                        baseline_ready: false,
                        consecutive_errors: 0,
                        last_reported_error: String::new(),
                        last_record_id: 0,
                    },
                    string_of(&m),
                )
            },
        }
    }

    /// The pause before the next poll, in milliseconds.
    pub fn sleep_millis(&self) -> (r: u64)
        ensures
            r == sleep_millis(self.consecutive_errors),
    {
        watcher_sleep_duration(self.consecutive_errors)
    }

    /// Counts one more failure; the message is shown when it differs from
    /// the last one shown, or on the first, third and sixth failure in a
    /// row.
    pub fn report_error(&mut self, message: String) -> (r: Option<WatcherNotice>)
        ensures
            final(self).consecutive_errors == bumped(old(self).consecutive_errors),
            final(self).baseline_ready == old(self).baseline_ready,
            final(self).last_record_id == old(self).last_record_id,
            (old(self).last_reported_error@ != message@ || reminder_count(
                bumped(old(self).consecutive_errors),
            )) ==> (r matches Some(WatcherNotice::Error(m)) && m@ == message@
                && final(self).last_reported_error@ == message@),
            !(old(self).last_reported_error@ != message@ || reminder_count(
                bumped(old(self).consecutive_errors),
            )) ==> (r is None && final(self).last_reported_error == old(self).last_reported_error),
    {
        self.consecutive_errors = if self.consecutive_errors == u32::MAX {
            self.consecutive_errors
        } else {
            self.consecutive_errors + 1
        };
        let last = chars_of(self.last_reported_error.as_str());
        let msg = chars_of(message.as_str());
        let n = self.consecutive_errors;
        let should_report = !chars_eq(&last, &msg) || n == 1 || n == 3 || n == 6;
        if !should_report {
            return None;
        }
        self.last_reported_error = message.clone();
        Some(WatcherNotice::Error(message))
    }

    /// A poll succeeded: the failure count and the last error start over.
    pub fn clear_errors(&mut self)
        ensures
            final(self).consecutive_errors == 0,
            final(self).last_reported_error@.len() == 0,
            final(self).baseline_ready == old(self).baseline_ready,
            final(self).last_record_id == old(self).last_record_id,
    {
        self.consecutive_errors = 0;
        self.last_reported_error = String::new();
    }

    /// While the starting point is unknown, the store's largest record id
    /// was read again with `result`.
    pub fn on_baseline(&mut self, result: Result<i64, String>) -> (r: Option<WatcherNotice>)
        ensures
            final(self).last_record_id == watch_next(old(self).last_record_id, WatchEvent::Baseline(read_id(result))),
            match result {
                Ok(id) => final(self).baseline_ready && final(self).last_record_id == id
                    && final(self).consecutive_errors == 0 && (r matches Some(WatcherNotice::Status(m))
                    && m@ == "监听已恢复，新的起始通知记录 ID："@ + signed_decimal(id as int)),
                Err(e) => final(self).consecutive_errors == bumped(old(self).consecutive_errors)
                    && final(self).baseline_ready == old(self).baseline_ready
                    && final(self).last_record_id == old(self).last_record_id
                    && error_reported(*old(self), "监听等待授权或数据库可用："@ + e@, r, *final(self)),
            },
    {
        match result {
            Ok(id) => {
                self.last_record_id = id;
                self.baseline_ready = true;
                self.clear_errors();
                let mut m = chars_of("监听已恢复，新的起始通知记录 ID：");
                extend_chars(&mut m, &signed_decimal_exec(id));
                Some(WatcherNotice::Status(string_of(&m)))
            },
            Err(e) => {
                let mut m = chars_of("监听等待授权或数据库可用：");
                extend_str(&mut m, e.as_str());
                self.report_error(string_of(&m))
            },
        }
    }

    /// Reading the records after the last one failed: the starting point
    /// must be read again.
    pub fn on_poll_error(&mut self, error: &str) -> (r: Option<WatcherNotice>)
        ensures
            final(self).last_record_id == watch_next(old(self).last_record_id, WatchEvent::PollFailed),
            !final(self).baseline_ready,
            final(self).consecutive_errors == bumped(old(self).consecutive_errors),
            final(self).last_record_id == old(self).last_record_id,
            error_reported(*old(self), "轮询通知失败："@ + error@, r, *final(self)),
    {
        self.baseline_ready = false;
        let mut m = chars_of("轮询通知失败：");
        extend_str(&mut m, error);
        self.report_error(string_of(&m))
    }

    /// No record followed the last one; the store's largest id was read
    /// with `result` to detect a rebuilt store.
    pub fn on_empty_poll(&mut self, result: Result<i64, String>) -> (r: Option<WatcherNotice>)
        ensures
            final(self).last_record_id == watch_next(old(self).last_record_id, WatchEvent::EmptyPoll(read_id(result))),
            match result {
                Ok(max_id) => if store_was_reset(old(self).last_record_id, max_id) {
                    final(self).last_record_id == max_id && (r matches Some(WatcherNotice::Status(m))
                        && m@ == "检测到系统通知库记录 ID 从 "@ + signed_decimal(
                        old(self).last_record_id as int,
                    ) + " 回退到 "@ + signed_decimal(max_id as int) + "，已重建监听基线，避免回放旧通知"@)
                } else {
                    final(self).last_record_id == old(self).last_record_id && r is None
                },
                Err(e) => !final(self).baseline_ready && final(self).consecutive_errors == bumped(
                    old(self).consecutive_errors,
                ) && final(self).last_record_id == old(self).last_record_id
                    && error_reported(*old(self), "检查通知库状态失败："@ + e@, r, *final(self)),
            },
    {
        match result {
            Ok(max_id) => match notification_store_reset_baseline(self.last_record_id, max_id) {
                Some(baseline) => {
                    let mut m = chars_of("检测到系统通知库记录 ID 从 ");
                    extend_chars(&mut m, &signed_decimal_exec(self.last_record_id));
                    extend_str(&mut m, " 回退到 ");
                    extend_chars(&mut m, &signed_decimal_exec(baseline));
                    extend_str(&mut m, "，已重建监听基线，避免回放旧通知");
                    self.last_record_id = baseline;
                    Some(WatcherNotice::Status(string_of(&m)))
                },
                None => None,
            },
            Err(e) => {
                self.baseline_ready = false;
                let mut m = chars_of("检查通知库状态失败：");
                extend_str(&mut m, e.as_str());
                self.report_error(string_of(&m))
            },
        }
    }
}

/// Another batch is read right away when this one was full.
pub fn batch_should_continue(batch_len: usize) -> (r: bool)
    ensures
        r == (batch_len >= 100),
{
    batch_len >= 100
}

/// Records read per batch.
pub const WATCHER_RECORD_BATCH_LIMIT: usize = 100;

/// Batches read at most in one poll.
pub const MAX_WATCHER_BATCHES_PER_TICK: u32 = 10;

/// One poll of the watcher: how many batches it has read and whether any
/// of them held records.
pub struct WatchTick {
    pub batches_read: u32,
    pub saw_records: bool,
    /// A batch came back short, empty or failed: the poll is over.
    pub done: bool,
}

impl WatchTick {
    /// A poll that has read nothing yet.
    pub fn new() -> (r: WatchTick)
        ensures
            r.batches_read == 0 && !r.saw_records && !r.done,
    {
        WatchTick { batches_read: 0, saw_records: false, done: false }
    }

    /// Whether another batch is read: the poll is not over and has read
    /// fewer than ten batches.
    pub fn wants_batch(&self) -> (r: bool)
        ensures
            r == (!self.done && self.batches_read < MAX_WATCHER_BATCHES_PER_TICK),
    {
        !self.done && self.batches_read < MAX_WATCHER_BATCHES_PER_TICK
    }

    /// A batch of `batch_len` records was read: the poll goes on only
    /// after a full batch.
    pub fn on_batch(&mut self, batch_len: usize)
        requires
            old(self).batches_read < MAX_WATCHER_BATCHES_PER_TICK,
        ensures
            final(self).batches_read == old(self).batches_read + 1,
            final(self).saw_records == (old(self).saw_records || batch_len > 0),
            final(self).done == (old(self).done || batch_len < WATCHER_RECORD_BATCH_LIMIT),
    {
        self.batches_read = self.batches_read + 1;
        if batch_len > 0 {
            self.saw_records = true;
        }
        if !batch_should_continue(batch_len) {
            self.done = true;
        }
    }

    /// Reading a batch failed: the poll is over.
    pub fn on_failure(&mut self)
        ensures
            final(self).done,
            final(self).batches_read == old(self).batches_read,
            final(self).saw_records == old(self).saw_records,
    {
        self.done = true;
    }

    /// Pending hit counts are saved (when due) after a poll that saw no
    /// records.
    pub fn flushes_hit_counts(&self) -> (r: bool)
        ensures
            r == !self.saw_records,
    {
        !self.saw_records
    }
}

/// Decimal text of a signed integer (`i64::to_string`).
pub open spec fn signed_decimal(n: int) -> Seq<char> {
    if n < 0 {
        seq!['-'] + spec_decimal((-n) as nat)
    } else {
        spec_decimal(n as nat)
    }
}

/// Decimal text of a signed integer.
pub fn signed_decimal_exec(n: i64) -> (r: Vec<char>)
    ensures
        r@ == signed_decimal(n as int),
{
    if n < 0 {
        let magnitude: u64 = if n == i64::MIN {
            9223372036854775808u64
        } else {
            (-n) as u64
        };
        let mut v: Vec<char> = Vec::new();
        v.push('-');
        let d = decimal(magnitude);
        extend_chars(&mut v, &d);
        v
    } else {
        decimal(n as u64)
    }
}

// ---------------------------------------------------------------------
// Saving hit counts
// ---------------------------------------------------------------------

/// Pending hit counts are written when there are some and the write is
/// forced, 20 have gathered, or 5 seconds have passed since the last write.
pub open spec fn flush_due(pending_total: u64, elapsed_millis: u64, force: bool) -> bool {
    pending_total > 0 && (force || pending_total >= 20 || elapsed_millis >= 5000)
}

/// Whether the pending hit counts should be written now.
pub fn should_flush_hit_counts(pending_total: u64, elapsed_millis: u64, force: bool) -> (r: bool)
    ensures
        r == flush_due(pending_total, elapsed_millis, force),
{
    pending_total > 0 && (force || pending_total >= 20 || elapsed_millis >= 5000)
}

/// The login item is restored after a failed save only when the save
/// had changed it.
pub fn should_rollback_launch_at_login(previous: bool, target: bool) -> (r: bool)
    ensures
        r == (previous != target),
{
    previous != target
}

/// The step of saving settings that failed: turning the login item on or
/// off, writing the settings file, or moving the data (rules and archive)
/// to the target directory.
#[derive(Clone, Copy, Debug, PartialEq, Eq, Structural)]
pub enum SettingsSaveStage {
    LaunchAtLogin,
    SettingsFile,
    DataMigration,
}

/// How a failed settings save is undone and reported.
#[derive(Clone, Debug)]
pub struct SettingsSaveRollback {
    /// The previous settings are written back.
    pub restore_settings: bool,
    /// The login item is set back to this.
    pub restore_launch_at_login: Option<bool>,
    pub message: String,
}

/// Undoing a settings save that failed at `stage` with `error`: nothing
/// was changed when the login item could not be set; once it was set, it
/// is set back (when the save changed it); a failed data move also writes
/// the previous settings back and says so.
pub fn settings_save_rollback(stage: SettingsSaveStage, previous_launch: bool, target_launch: bool, error: String) -> (r: SettingsSaveRollback)
    ensures
        r.restore_settings == (stage == SettingsSaveStage::DataMigration),
        r.restore_launch_at_login == (if stage != SettingsSaveStage::LaunchAtLogin && previous_launch != target_launch {
            Some(previous_launch)
        } else {
            None
        }),
        r.message@ == (if stage == SettingsSaveStage::DataMigration {
            "数据迁移失败，设置已回滚："@ + error@
        } else {
            error@
        }),
{
    let restore_launch_at_login = match stage {
        SettingsSaveStage::LaunchAtLogin => None,
        _ => if should_rollback_launch_at_login(previous_launch, target_launch) {
            Some(previous_launch)
        } else {
            None
        },
    };
    match stage {
        SettingsSaveStage::DataMigration => {
            let mut m = chars_of("数据迁移失败，设置已回滚：");
            extend_str(&mut m, error.as_str());
            SettingsSaveRollback { restore_settings: true, restore_launch_at_login, message: string_of(&m) }
        },
        _ => SettingsSaveRollback { restore_settings: false, restore_launch_at_login, message: error },
    }
}

// ---------------------------------------------------------------------
// Paths chosen in dialogs
// ---------------------------------------------------------------------

/// `s` without trailing carriage returns and line feeds.
pub open spec fn strip_line_ends(s: Seq<char>) -> Seq<char>
    decreases s.len(),
{
    if s.len() > 0 && (s.last() == '\r' || s.last() == '\n') {
        strip_line_ends(s.drop_last())
    } else {
        s
    }
}

/// The path a dialog script printed: its output (invalid UTF-8
/// replaced) without trailing line ends, other white space kept; none
/// when nothing is left.
pub fn osascript_stdout_path(stdout: &[u8]) -> (r: Option<String>)
    ensures
        ({
            let p = strip_line_ends(spec_utf8_lossy(stdout@));
            if p.len() == 0 {
                r is None
            } else {
                r matches Some(s) && s@ == p
            }
        }),
{
    let text = utf8_lossy(stdout);
    let v = chars_of(text.as_str());
    let mut n: usize = v.len();
    assert(v@.take(n as int) =~= v@);
    while n > 0 && (v[n - 1] == '\r' || v[n - 1] == '\n')
        invariant
            n <= v.len(),
            strip_line_ends(v@) == strip_line_ends(v@.take(n as int)),
        decreases n,
    {
        assert(v@.take(n as int).drop_last() =~= v@.take(n - 1));
        assert(v@.take(n as int).last() == v@[n - 1]);
        n -= 1;
    }
    if n == 0 {
        None
    } else {
        let p = crate::text::slice_chars(&v, 0, n);
        assert(p@ =~= v@.take(n as int));
        Some(string_of(&p))
    }
}

/// Whether an `osascript` error says the user cancelled the dialog: it
/// holds the error number `-128`, or, once lowercased, "user canceled".
pub open spec fn is_dialog_cancel(error: Seq<char>) -> bool {
    contains_seq(error, "-128"@) || contains_seq(spec_to_lowercase(error), "user canceled"@)
}

/// The path a successful dialog gave, as `osascript_stdout_path` reads it.
pub open spec fn chosen_path(stdout: Seq<u8>) -> Option<Seq<char>> {
    let p = strip_line_ends(spec_utf8_lossy(stdout));
    if p.len() == 0 {
        None
    } else {
        Some(p)
    }
}

/// What a choose dialog comes to, given whether `osascript` succeeded and
/// what it printed: the chosen path (none for an empty answer) on
/// success; none when the user cancelled; else the trimmed error, or
/// `failure` when the error is empty.
pub fn dialog_outcome(success: bool, stdout: &[u8], stderr: &[u8], failure: &str) -> (r: Result<Option<String>, String>)
    ensures
        ({
            let error = trim(spec_utf8_lossy(stderr@));
            if success {
                r matches Ok(p) && opt_view(p) == chosen_path(stdout@)
            } else if is_dialog_cancel(error) {
                r matches Ok(p) && p is None
            } else if error.len() == 0 {
                r matches Err(m) && m@ == failure@
            } else {
                r matches Err(m) && m@ == error
            }
        }),
{
    if success {
        return Ok(osascript_stdout_path(stdout));
    }
    let text = utf8_lossy(stderr);
    let error = trim_chars(&chars_of(text.as_str()));
    let error_text = string_of(&error);
    let lowered = to_lowercase(error_text.as_str());
    let cancelled = contains(&error, &chars_of("-128")) || contains(&chars_of(lowered.as_str()), &chars_of("user canceled"));
    if cancelled {
        Ok(None)
    } else if error.len() == 0 {
        Err(owned(failure))
    } else {
        Err(error_text)
    }
}

// ---------------------------------------------------------------------
// Settings that failed to load
// ---------------------------------------------------------------------

/// Errors met when loading the rules file and the settings file.
#[derive(Clone, Debug)]
pub struct PersistenceLoadErrors {
    pub rules: Option<String>,
    pub settings: Option<String>,
}

/// Which saves a load error blocks.
#[derive(Clone, Copy, Debug, PartialEq, Eq, Structural)]
pub enum PersistenceDomain {
    Rules,
    Any,
}

/// The message shown while saving is blocked, naming each file that
/// failed to load.
pub open spec fn load_error_message(errors: PersistenceLoadErrors) -> Option<Seq<char>> {
    let head = "配置加载失败，为避免覆盖原文件，保存已被阻止。请修复文件后重启应用。"@;
    match (errors.rules, errors.settings) {
        (None, None) => None,
        (Some(r), None) => Some(head + "rules.json："@ + r@),
        (None, Some(s)) => Some(head + "settings.json："@ + s@),
        (Some(r), Some(s)) => Some(head + "rules.json："@ + r@ + "；"@ + "settings.json："@ + s@),
    }
}

/// The message shown while saving is blocked by a load error, if any.
pub fn persistence_load_error_message(errors: &PersistenceLoadErrors) -> (r: Option<String>)
    ensures
        match r {
            Some(m) => load_error_message(*errors) == Some(m@),
            None => load_error_message(*errors) is None,
        },
{
    if errors.rules.is_none() && errors.settings.is_none() {
        return None;
    }
    let mut v = chars_of("配置加载失败，为避免覆盖原文件，保存已被阻止。请修复文件后重启应用。");
    match &errors.rules {
        Some(e) => {
            extend_str(&mut v, "rules.json：");
            extend_str(&mut v, e.as_str());
        },
        None => {},
    }
    match &errors.settings {
        Some(e) => {
            if errors.rules.is_some() {
                extend_str(&mut v, "；");
            }
            extend_str(&mut v, "settings.json：");
            extend_str(&mut v, e.as_str());
        },
        None => {},
    }
    proof {
        let head = "配置加载失败，为避免覆盖原文件，保存已被阻止。请修复文件后重启应用。"@;
        match (&errors.rules, &errors.settings) {
            (Some(r), Some(s)) => {
                assert(v@ =~= head + "rules.json："@ + r@ + "；"@ + "settings.json："@ + s@);
            },
            (Some(r), None) => {
                assert(v@ =~= head + "rules.json："@ + r@);
            },
            (None, Some(s)) => {
                assert(v@ =~= head + "settings.json："@ + s@);
            },
            _ => {},
        }
    }
    Some(string_of(&v))
}

/// Whether a save in `domain` may go ahead: the rules file is protected
/// while it failed to load; every other save while either file did.
pub open spec fn persistence_block(errors: PersistenceLoadErrors, domain: PersistenceDomain) -> Option<Seq<char>> {
    match domain {
        PersistenceDomain::Rules => match errors.rules {
            Some(e) => Some("规则文件加载失败，为避免覆盖原文件，已阻止保存。请修复 rules.json 后重启应用："@ + e@),
            None => None,
        },
        PersistenceDomain::Any => load_error_message(errors),
    }
}

/// Refuses a save in `domain` while a file it could overwrite failed to
/// load.
pub fn ensure_persistence_loaded(errors: &PersistenceLoadErrors, domain: PersistenceDomain) -> (r: Result<(), String>)
    ensures
        match r {
            Ok(()) => persistence_block(*errors, domain) is None,
            Err(m) => persistence_block(*errors, domain) == Some(m@),
        },
{
    match domain {
        PersistenceDomain::Rules => match &errors.rules {
            Some(e) => {
                let mut v = chars_of("规则文件加载失败，为避免覆盖原文件，已阻止保存。请修复 rules.json 后重启应用：");
                extend_str(&mut v, e.as_str());
                Err(string_of(&v))
            },
            None => Ok(()),
        },
        PersistenceDomain::Any => match persistence_load_error_message(errors) {
            Some(m) => Err(m),
            None => Ok(()),
        },
    }
}

// ---------------------------------------------------------------------
// Paths the user asks to reveal
// ---------------------------------------------------------------------

/// A `..` component of a Unix path: a `..` between separators or ends.
pub open spec fn parent_component_at(s: Seq<char>, i: int) -> bool {
    &&& 0 <= i
    &&& i + 2 <= s.len()
    &&& s[i] == '.'
    &&& s[i + 1] == '.'
    &&& (i == 0 || s[i - 1] == '/')
    &&& (i + 2 == s.len() || s[i + 2] == '/')
}

/// Whether a path has a `..` component.
pub fn path_has_parent_component(path: &str) -> (r: bool)
    ensures
        r == exists|i: int| parent_component_at(path@, i),
{
    let s = chars_of(path);
    let mut i: usize = 0;
    while s.len() >= 2 && i <= s.len() - 2
        invariant
            s@ == path@,
            i <= s.len(),
            forall|j: int| 0 <= j < i ==> !parent_component_at(path@, j),
        decreases s.len() - i,
    {
        if s[i] == '.' && s[i + 1] == '.' && (i == 0 || s[i - 1] == '/') && (i + 2 == s.len() || s[i
            + 2] == '/') {
            assert(parent_component_at(path@, i as int));
            return true;
        }
        i += 1;
    }
    assert forall|j: int| !parent_component_at(path@, j) by {
        if 0 <= j && j + 2 <= path@.len() {
            assert(j < i);
        }
    }
    false
}

} // verus!
