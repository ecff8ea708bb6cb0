//! The decisions behind the commands the window sends: which listing to
//! show when a source fails, whether the notification store looks sound,
//! which paths may be revealed, what the settings view shows, how rules
//! move to a new data directory, and what hiding, deleting or testing a
//! rule answers.
use vstd::prelude::*;
use crate::analysis::{
    NotificationRecordIdentity, RuleMatchAnalysis, explanation_lines, identity_matches, match_explanation_lines,
    notification_identity_matches,
};
use crate::app_catalog::{inside, is_inside};
use crate::app_settings::{AppSettings, same_path, same_path_exec};
use crate::automation::{
    automation_block_reason, filter_mode_name, filter_mode_of, normalized_app_filter_mode,
    rule_automation_block_reason,
};
use crate::dispatch::{first_with_id, has_rule};
use crate::foreign::opt_view;
use crate::notification_db::NotificationRecord;
use crate::paths::{join_path, path_join};
use crate::rules::{AutomationRule, is_matching_result, matching_rules, same_rule};
use crate::text::{chars_of, extend_str, owned, string_of};
use crate::validation::{rule_error, validate_rule_for_save};

verus! {

// ---------------------------------------------------------------------
// Listing notifications
// ---------------------------------------------------------------------

/// The log line when the archive could not take the store's records.
pub fn sync_failure_log(error: &str) -> (r: String)
    ensures
        r@ == "同步本地归档失败，临时使用系统通知结果："@ + error@,
{
    let mut m = chars_of("同步本地归档失败，临时使用系统通知结果：");
    extend_str(&mut m, error);
    string_of(&m)
}

/// The listing once the store's records are archived: the archive's view
/// (hidden and deleted ones left out) when it can be read, else the
/// store's records with a log line.
pub fn listing_after_sync(
    system_records: Vec<NotificationRecord>,
    archived: Result<Vec<NotificationRecord>, String>,
) -> (r: (Vec<NotificationRecord>, Option<String>))
    ensures
        match archived {
            Ok(a) => r.0 == a && r.1 is None,
            Err(e) => r.0 == system_records && (r.1 matches Some(m) && m@ == "读取本地归档失败，临时使用系统通知结果："@
                + e@),
        },
{
    match archived {
        Ok(records) => (records, None),
        Err(e) => {
            let mut m = chars_of("读取本地归档失败，临时使用系统通知结果：");
            extend_str(&mut m, e.as_str());
            (system_records, Some(string_of(&m)))
        },
    }
}

/// The listing when the store cannot be read: the archive's records when
/// it has some, else the store's error; both errors when neither can be
/// read.
pub fn listing_after_system_error(system_error: String, archived: Result<Vec<NotificationRecord>, String>) -> (r: Result<
    Vec<NotificationRecord>,
    String,
>)
    ensures
        match archived {
            Ok(a) => if a@.len() > 0 {
                r == Ok::<Vec<NotificationRecord>, String>(a)
            } else {
                r matches Err(m) && m == system_error
            },
            Err(e) => r matches Err(m) && m@ == "读取系统通知失败："@ + system_error@ + "；读取本地归档失败："@ + e@,
        },
{
    match archived {
        Ok(records) => if records.len() > 0 {
            Ok(records)
        } else {
            Err(system_error)
        },
        Err(e) => {
            let mut m = chars_of("读取系统通知失败：");
            extend_str(&mut m, system_error.as_str());
            extend_str(&mut m, "；读取本地归档失败：");
            extend_str(&mut m, e.as_str());
            Err(string_of(&m))
        },
    }
}

// ---------------------------------------------------------------------
// Checking the notification store
// ---------------------------------------------------------------------

/// The message when the store opens but holds nothing while the app has
/// seen notifications before.
pub open spec fn store_rebuilt_message() -> Seq<char> {
    "系统通知数据库当前可打开但 record 表为空；检测到本地归档或 db.corrupt，macOS 可能已重建/损坏通知库。NoticeFlow 当前只能显示本地归档，无法读取重建后的新通知。建议重启 usernoted 或重启系统后再刷新。"@
}

/// Whether the store is usable, from the number of records it holds, the
/// number the archive holds, and the size of a `db.corrupt` backup if one
/// exists: a store with records is fine; an empty one is suspicious when
/// the archive has records or the backup is larger than 4 KiB.
pub fn database_diagnostic(record_count: i64, archive_count: u64, corrupt_backup_len: Option<u64>) -> (r: Result<(), String>)
    ensures
        record_count > 0 ==> r is Ok,
        record_count <= 0 && (archive_count > 0 || (corrupt_backup_len matches Some(n) && n > 4096)) ==> (r matches Err(
            m,
        ) && m@ == store_rebuilt_message()),
        record_count <= 0 && !(archive_count > 0 || (corrupt_backup_len matches Some(n) && n > 4096)) ==> (r matches Err(
            m,
        ) && m@ == "系统通知数据库当前没有可读取记录。"@),
{
    if record_count > 0 {
        return Ok(());
    }
    let backup_large = match corrupt_backup_len {
        Some(n) => n > 4096,
        None => false,
    };
    if archive_count > 0 || backup_large {
        return Err(
            owned(
                "系统通知数据库当前可打开但 record 表为空；检测到本地归档或 db.corrupt，macOS 可能已重建/损坏通知库。NoticeFlow 当前只能显示本地归档，无法读取重建后的新通知。建议重启 usernoted 或重启系统后再刷新。",
            ),
        );
    }
    Err(owned("系统通知数据库当前没有可读取记录。"))
}

// ---------------------------------------------------------------------
// Revealing paths
// ---------------------------------------------------------------------

/// What the file system says about a path to reveal and the places it
/// may lie in: each resolved (`canonicalize` of the path, or of its parent
/// when it does not exist), `None` where that failed.
#[derive(Clone, Debug)]
pub struct RevealProbe {
    /// The path, or its parent when it does not exist, resolved.
    pub path_anchor: Option<String>,
    /// The data directory, or its parent, resolved.
    pub data_dir_anchor: Option<String>,
    /// The default data directory, or its parent, resolved.
    pub default_dir_anchor: Option<String>,
    /// The path itself resolved.
    pub canonical_path: Option<String>,
    /// Each allowed file resolved, in order.
    pub canonical_allowed: Vec<Option<String>>,
}

/// The message when a path may not be revealed.
pub open spec fn reveal_refused() -> Seq<char> {
    "不允许打开未授权路径"@
}

/// `path` lies within directory `dir`, both as written and as resolved.
pub open spec fn within_directory(path: Seq<char>, dir: Seq<char>, path_anchor: Option<String>, dir_anchor: Option<String>) -> bool {
    &&& inside(path, dir)
    &&& path_anchor is Some
    &&& dir_anchor is Some
    &&& inside(path_anchor->Some_0@, dir_anchor->Some_0@)
}

/// `path` is the allowed file `allowed`, as written or as resolved.
pub open spec fn same_target(path: Seq<char>, allowed: Seq<char>, canonical_path: Option<String>, canonical_allowed: Option<String>) -> bool {
    ||| same_path(path, allowed)
    ||| (canonical_path is Some && canonical_allowed is Some && same_path(
        canonical_path->Some_0@,
        canonical_allowed->Some_0@,
    ))
}

/// A path may be revealed: it is absolute without `..`, and lies in the
/// data directory or the default one, or is one of the allowed files.
pub open spec fn reveal_allowed(
    path: Seq<char>,
    data_dir: Seq<char>,
    default_data_dir: Seq<char>,
    allowed_files: Seq<String>,
    probe: RevealProbe,
) -> bool {
    &&& crate::app_settings::is_absolute(path)
    &&& !has_parent_component(path)
    &&& {
        ||| within_directory(path, data_dir, probe.path_anchor, probe.data_dir_anchor)
        ||| within_directory(path, default_data_dir, probe.path_anchor, probe.default_dir_anchor)
        ||| exists|i: int| 0 <= i < allowed_files.len() && #[trigger] is_allowed_file(path, allowed_files, probe, i)
    }
}

/// `path` is allowed file `i`.
pub open spec fn is_allowed_file(path: Seq<char>, allowed_files: Seq<String>, probe: RevealProbe, i: int) -> bool {
    same_target(
        path,
        allowed_files[i]@,
        probe.canonical_path,
        if i < probe.canonical_allowed@.len() {
            probe.canonical_allowed@[i]
        } else {
            None
        },
    )
}

/// `path` has a `..` component.
pub open spec fn has_parent_component(path: Seq<char>) -> bool {
    exists|i: int| #[trigger] crate::automation::parent_component_at(path, i)
}

fn anchored_inside(path: &str, dir: &str, path_anchor: &Option<String>, dir_anchor: &Option<String>) -> (r: bool)
    ensures
        r == within_directory(path@, dir@, *path_anchor, *dir_anchor),
{
    if !is_inside(path, dir) {
        return false;
    }
    match (path_anchor, dir_anchor) {
        (Some(p), Some(d)) => is_inside(p.as_str(), d.as_str()),
        _ => false,
    }
}

/// Whether a path may be revealed in Finder: absolute, without `..`, and
/// inside the data directory or the default one (as written and as
/// resolved), or one of `allowed_files` (the notification store, the
/// archive, the rules and the settings).
pub fn validate_reveal_path(
    path: &str,
    data_dir: &str,
    default_data_dir: &str,
    allowed_files: &Vec<String>,
    probe: &RevealProbe,
) -> (r: Result<(), String>)
    ensures
        r is Ok <==> reveal_allowed(path@, data_dir@, default_data_dir@, allowed_files@, *probe),
        r matches Err(m) ==> m@ == reveal_refused(),
{
    let p = chars_of(path);
    let absolute = p.len() > 0 && p[0] == '/';
    if !absolute || crate::automation::path_has_parent_component(path) {
        return Err(owned("不允许打开未授权路径"));
    }
    if anchored_inside(path, data_dir, &probe.path_anchor, &probe.data_dir_anchor) || anchored_inside(
        path,
        default_data_dir,
        &probe.path_anchor,
        &probe.default_dir_anchor,
    ) {
        return Ok(());
    }
    let mut i: usize = 0;
    while i < allowed_files.len()
        invariant
            i <= allowed_files@.len(),
            crate::app_settings::is_absolute(path@),
            !has_parent_component(path@),
            forall|j: int| 0 <= j < i ==> !#[trigger] is_allowed_file(path@, allowed_files@, *probe, j),
        decreases allowed_files.len() - i,
    {
        let allowed = allowed_files[i].as_str();
        let resolved: Option<&String> = if i < probe.canonical_allowed.len() {
            match &probe.canonical_allowed[i] {
                Some(c) => Some(c),
                None => None,
            }
        } else {
            None
        };
        let same = same_path_exec(path, allowed) || match (&probe.canonical_path, resolved) {
            (Some(cp), Some(ca)) => same_path_exec(cp.as_str(), ca.as_str()),
            _ => false,
        };
        if same {
            assert(is_allowed_file(path@, allowed_files@, *probe, i as int));
            return Ok(());
        }
        i += 1;
    }
    Err(owned("不允许打开未授权路径"))
}

// ---------------------------------------------------------------------
// The settings view
// ---------------------------------------------------------------------

/// What the settings view shows.
#[derive(Clone, Debug)]
pub struct SettingsInfo {
    pub notification_database_path: String,
    pub notification_database_checked: bool,
    pub notification_database_accessible: bool,
    pub notification_database_error: Option<String>,
    pub data_directory: String,
    pub notification_archive_path: String,
    pub rules_path: String,
    pub settings_path: String,
    pub launch_at_login: bool,
    pub app_filter_mode: String,
    pub ignored_app_identifiers: Vec<String>,
    pub watcher_running: bool,
    pub last_record_id: i64,
    pub persistence_load_error: Option<String>,
}

/// The settings view: the store is reported checked only on a deep check
/// (`diagnostic_error` is then what the check found), the archive and
/// rules lie in the data directory, and login launch is on when the
/// system or the settings say so.
pub fn settings_info(
    notification_database_path: String,
    deep_check: Option<bool>,
    diagnostic_error: Option<String>,
    data_directory: &str,
    settings_path: String,
    launch_at_login_enabled: bool,
    settings: &AppSettings,
    watcher_running: bool,
    last_record_id: i64,
    persistence_load_error: Option<String>,
) -> (r: SettingsInfo)
    ensures
        r.notification_database_path == notification_database_path,
        r.notification_database_checked == (deep_check == Some(true)),
        r.notification_database_error == (if deep_check == Some(true) {
            diagnostic_error
        } else {
            None
        }),
        r.notification_database_accessible == (deep_check == Some(true) && diagnostic_error is None),
        r.data_directory@ == data_directory@,
        r.notification_archive_path@ == path_join(data_directory@, "notifications.sqlite"@),
        r.rules_path@ == path_join(data_directory@, "rules.json"@),
        r.settings_path == settings_path,
        r.launch_at_login == (launch_at_login_enabled || settings.launch_at_login),
        r.app_filter_mode@ == filter_mode_name(filter_mode_of(opt_view(settings.app_filter_mode))),
        r.ignored_app_identifiers@ == settings.ignored_app_identifiers@,
        r.watcher_running == watcher_running,
        r.last_record_id == last_record_id,
        r.persistence_load_error == persistence_load_error,
{
    let checked = match deep_check {
        Some(b) => b,
        None => false,
    };
    let error = if checked {
        diagnostic_error
    } else {
        None
    };
    let accessible = checked && error.is_none();
    let mode = normalized_app_filter_mode(
        match &settings.app_filter_mode {
            Some(m) => Some(m.as_str()),
            None => None,
        },
    );
    let mut ignored: Vec<String> = Vec::new();
    let mut i: usize = 0;
    while i < settings.ignored_app_identifiers.len()
        invariant
            i <= settings.ignored_app_identifiers@.len(),
            ignored@ == settings.ignored_app_identifiers@.take(i as int),
        decreases settings.ignored_app_identifiers.len() - i,
    {
        ignored.push(settings.ignored_app_identifiers[i].clone());
        assert(settings.ignored_app_identifiers@.take(i + 1) =~= settings.ignored_app_identifiers@.take(i as int).push(
            settings.ignored_app_identifiers@[i as int],
        ));
        i += 1;
    }
    assert(settings.ignored_app_identifiers@.take(i as int) =~= settings.ignored_app_identifiers@);
    SettingsInfo {
        notification_database_path,
        notification_database_checked: checked,
        notification_database_accessible: accessible,
        notification_database_error: error,
        data_directory: owned(data_directory),
        notification_archive_path: join_path(data_directory, "notifications.sqlite"),
        rules_path: join_path(data_directory, "rules.json"),
        settings_path,
        launch_at_login: launch_at_login_enabled || settings.launch_at_login,
        app_filter_mode: mode,
        ignored_app_identifiers: ignored,
        watcher_running,
        last_record_id,
        persistence_load_error,
    }
}

// ---------------------------------------------------------------------
// Moving to another data directory
// ---------------------------------------------------------------------

/// Where the rules come from when the data directory changes.
#[derive(Clone, Copy, Debug, PartialEq, Eq, Structural)]
pub enum TargetRulesPlan {
    /// The target already has a rules file: it is loaded, not
    /// overwritten.
    LoadTarget,
    /// The rules in use are kept; they are written to the target when it
    /// is another directory.
    KeepCurrent { write_rules: bool },
}

/// Where the rules come from when the data directory changes from
/// `current` to `target` (whose rules file exists or not).
pub fn rules_for_target_data_directory(current: &str, target: &str, target_rules_exist: bool) -> (r: TargetRulesPlan)
    ensures
        !same_path(current@, target@) && target_rules_exist ==> r == TargetRulesPlan::LoadTarget,
        !(!same_path(current@, target@) && target_rules_exist) ==> r == (TargetRulesPlan::KeepCurrent {
            write_rules: !same_path(current@, target@),
        }),
{
    let same = same_path_exec(current, target);
    if !same && target_rules_exist {
        TargetRulesPlan::LoadTarget
    } else {
        TargetRulesPlan::KeepCurrent { write_rules: !same }
    }
}

/// The archive files to copy when the data directory changes: none when
/// it stays, else the archive of the old directory to that of the new
/// one (copied only when the new one has none).
pub fn archive_copy_paths(current: &str, target: &str) -> (r: Option<(String, String)>)
    ensures
        same_path(current@, target@) ==> r is None,
        !same_path(current@, target@) ==> (r matches Some((from, to)) && from@ == path_join(
            current@,
            "notifications.sqlite"@,
        ) && to@ == path_join(target@, "notifications.sqlite"@)),
{
    if same_path_exec(current, target) {
        return None;
    }
    Some((join_path(current, "notifications.sqlite"), join_path(target, "notifications.sqlite")))
}

/// The message recorded when rules are not loaded because the settings
/// could not be.
pub fn skipped_rules_message() -> (r: String)
    ensures
        r@ == "settings.json 加载失败，已跳过规则加载"@,
{
    owned("settings.json 加载失败，已跳过规则加载")
}

// ---------------------------------------------------------------------
// Hiding and deleting a notification
// ---------------------------------------------------------------------

/// Whether the store's copy of a notification may be hidden: it must
/// exist and still be the notification the user saw.
pub fn hide_check(system_record: &Option<NotificationRecord>, identity: &NotificationRecordIdentity) -> (r: Result<(), String>)
    ensures
        match system_record {
            None => r matches Err(m) && m@ == "本地归档和系统通知库中都未找到这条通知，隐藏失败"@,
            Some(rec) => if identity_matches(*rec, *identity) {
                r is Ok
            } else {
                r matches Err(m) && m@ == "系统通知库中的同 ID 通知已变化，已取消隐藏操作"@
            },
        },
{
    match system_record {
        None => Err(owned("本地归档和系统通知库中都未找到这条通知，隐藏失败")),
        Some(rec) => if notification_identity_matches(rec, identity) {
            Ok(())
        } else {
            Err(owned("系统通知库中的同 ID 通知已变化，已取消隐藏操作"))
        },
    }
}

/// The outcome of hiding: an error when no archived row changed.
pub fn hide_result(changed: usize) -> (r: Result<(), String>)
    ensures
        changed == 0 ==> (r matches Err(m) && m@ == "本地归档中未找到这条通知，隐藏失败"@),
        changed > 0 ==> r is Ok,
{
    if changed == 0 {
        Err(owned("本地归档中未找到这条通知，隐藏失败"))
    } else {
        Ok(())
    }
}

/// The answer when the store's notification of that id has changed: the
/// old list entry was hidden, or nothing was done.
pub fn changed_notification_message(hid_archived: bool) -> (r: String)
    ensures
        hid_archived ==> r@ == "系统通知库中的同 ID 通知已变化，已隐藏列表中的旧记录，未删除系统通知"@,
        !hid_archived ==> r@ == "系统通知库中的同 ID 通知已变化，未删除系统通知；刷新后可查看最新记录"@,
{
    if hid_archived {
        owned("系统通知库中的同 ID 通知已变化，已隐藏列表中的旧记录，未删除系统通知")
    } else {
        owned("系统通知库中的同 ID 通知已变化，未删除系统通知；刷新后可查看最新记录")
    }
}

/// What deleting does when the store no longer has the notification:
/// nothing when the archive has none either, or when the archived one
/// has changed; otherwise mark it deleted (`None` here).
pub fn archived_deletion_check(archived: &Option<NotificationRecord>, identity: &NotificationRecordIdentity) -> (r: Option<String>)
    ensures
        match archived {
            None => r matches Some(m) && m@ == "系统通知库和本地归档中都未找到这条通知"@,
            Some(rec) => if identity_matches(*rec, *identity) {
                r is None
            } else {
                r matches Some(m) && m@ == "系统通知库中未找到这条记录，且本地归档中的同 ID 通知已变化，未改动本地归档"@
            },
        },
{
    match archived {
        None => Some(owned("系统通知库和本地归档中都未找到这条通知")),
        Some(rec) => if notification_identity_matches(rec, identity) {
            None
        } else {
            Some(owned("系统通知库中未找到这条记录，且本地归档中的同 ID 通知已变化，未改动本地归档"))
        },
    }
}

// ---------------------------------------------------------------------
// Trying rules on a notification
// ---------------------------------------------------------------------

/// The rule of id `rule_id` (the first one), copied.
pub fn find_rule_by_id(rules: &Vec<AutomationRule>, rule_id: &str) -> (r: Result<AutomationRule, String>)
    ensures
        !has_rule(rules@, rule_id@) ==> (r matches Err(m) && m@ == "未找到规则"@),
        has_rule(rules@, rule_id@) ==> (r matches Ok(rule) && exists|k: int| #[trigger] first_with_id(rules@, rule_id@, k) && same_rule(rule, rules@[k])),
{
    let key = chars_of(rule_id);
    let mut k: usize = 0;
    while k < rules.len()
        invariant
            k <= rules@.len(),
            key@ == rule_id@,
            forall|j: int| 0 <= j < k ==> #[trigger] rules@[j].id@ != rule_id@,
        decreases rules.len() - k,
    {
        if crate::text::chars_eq(&chars_of(rules[k].id.as_str()), &key) {
            let rule = rules[k].duplicate();
            assert(first_with_id(rules@, rule_id@, k as int));
            return Ok(rule);
        }
        k += 1;
    }
    Err(owned("未找到规则"))
}

/// Before a rule runs its actions on a notification, it must be one that
/// could be saved; a trial that only matches needs nothing.
pub fn run_rule_precheck(rule: &AutomationRule, execute_actions: bool) -> (r: Result<(), String>)
    ensures
        !execute_actions ==> r is Ok,
        execute_actions && rule_error(*rule) is None ==> r is Ok,
        execute_actions && rule_error(*rule) is Some ==> (r matches Err(m) && m@ == "规则「"@ + rule.name@ + "」"@ + rule_error(
            *rule,
        )->Some_0),
{
    if !execute_actions {
        return Ok(());
    }
    match validate_rule_for_save(rule) {
        Ok(()) => Ok(()),
        Err(e) => {
            let mut m = chars_of("规则「");
            extend_str(&mut m, rule.name.as_str());
            extend_str(&mut m, "」");
            extend_str(&mut m, e.as_str());
            Err(string_of(&m))
        },
    }
}

/// What trying a rule on a notification answers once it is analysed: the
/// verdict's message when it does not match; the explanation lines when
/// only matching was asked; `None` when its actions are to run.
pub fn run_rule_outcome(analysis: &RuleMatchAnalysis, execute_actions: bool) -> (r: Result<Option<Vec<String>>, String>)
    ensures
        !analysis.explanation.matched ==> r == Err::<Option<Vec<String>>, String>(analysis.explanation.message),
        analysis.explanation.matched && execute_actions ==> r matches Ok(None),
        analysis.explanation.matched && !execute_actions ==> (r matches Ok(Some(lines)) && explanation_lines(
            lines@,
            analysis.explanation,
        )),
{
    if !analysis.explanation.matched {
        return Err(analysis.explanation.message.clone());
    }
    if execute_actions {
        return Ok(None);
    }
    let lines = match_explanation_lines(&analysis.explanation);
    Ok(Some(lines))
}

/// The names of the rules that match a notification and may run
/// automatically, in rule order.
pub fn runnable_rule_names(rules: &Vec<AutomationRule>, record: &NotificationRecord) -> (r: Vec<String>)
    ensures
        exists|minute: Option<Seq<char>>, matched: Seq<(AutomationRule, crate::strmap::StringMap)>|
            is_matching_result(matched, rules@, *record, minute) && r@ == runnable_names(matched),
{
    let matched = matching_rules(rules, record);
    let ghost all = matched@;
    let mut names: Vec<String> = Vec::new();
    let mut i: usize = 0;
    while i < matched.len()
        invariant
            i <= matched@.len(),
            all == matched@,
            names@ == runnable_names(all.take(i as int)),
        decreases matched.len() - i,
    {
        assert(all.take(i + 1).drop_last() =~= all.take(i as int));
        if rule_automation_block_reason(&matched[i].0).is_none() {
            names.push(matched[i].0.name.clone());
        }
        i += 1;
    }
    assert(all.take(i as int) =~= all);
    names
}

/// The names of the matched rules that may run automatically.
pub open spec fn runnable_names(matched: Seq<(AutomationRule, crate::strmap::StringMap)>) -> Seq<String>
    decreases matched.len(),
{
    if matched.len() == 0 {
        seq![]
    } else if automation_block_reason(matched.last().0) is None {
        runnable_names(matched.drop_last()).push(matched.last().0.name)
    } else {
        runnable_names(matched.drop_last())
    }
}

} // verus!
