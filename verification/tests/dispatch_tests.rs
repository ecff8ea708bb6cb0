use noticeflow::action_runner::ActionExecution;
use noticeflow::automation::AppFilterMode;
use noticeflow::commands::{
    archive_copy_paths, changed_notification_message, database_diagnostic, find_rule_by_id, hide_result,
    listing_after_sync, listing_after_system_error, rules_for_target_data_directory, run_rule_outcome,
    run_rule_precheck, runnable_rule_names, settings_info, validate_reveal_path, RevealProbe,
    TargetRulesPlan,
};
use noticeflow::analysis::analyze_rule_match_at;
use noticeflow::app_settings::AppSettings;
use noticeflow::dispatch::{
    action_job_summary, append_history, commit_rule_cooldown, cooldown_remaining_seconds, dispatch_match,
    history_entries, increment_hit_counts, job_report, job_start_message, keep_current_hit_counts,
    largest_record_id, process_new_records, push_log, rules_with_rule_enabled, visible_records,
    visible_variables_json, ActionQueue, MatchOutcome,
};
use noticeflow::id_table::IdTable;
use noticeflow::notification_db::NotificationRecord;
use noticeflow::rules::{ActionConfig, AutomationRule, MatchCondition};
use noticeflow::strmap::StringMap;
use noticeflow::tray_icon::{inside_rounded_rect, tray_icon_rgba};

const SECOND: u128 = 1_000_000_000;

fn params(pairs: &[(&str, &str)]) -> StringMap {
    let mut map = StringMap::new();
    for (k, v) in pairs {
        map.insert(k.to_string(), v.to_string());
    }
    map
}

fn record(id: i64, app: &str, title: &str) -> NotificationRecord {
    NotificationRecord {
        id,
        app_identifier: app.to_string(),
        app_name: "Example".to_string(),
        delivered_at: 0,
        title: title.to_string(),
        subtitle: String::new(),
        body: "body".to_string(),
    }
}

fn rule(id: &str, cooldown: Option<u64>) -> AutomationRule {
    AutomationRule {
        id: id.to_string(),
        name: format!("规则{id}"),
        enabled: Some(true),
        trigger_time: None,
        cooldown_seconds: cooldown,
        hit_count: None,
        app_identifiers: Some(vec!["com.example.App".to_string()]),
        match_conditions: Some(vec![MatchCondition {
            variable_name: "title".to_string(),
            operator_type: "contains".to_string(),
            expected_value: Some("审批".to_string()),
            case_sensitive: false,
        }]),
        variable_extractions: None,
        actions: Some(vec![ActionConfig {
            action_type: "open_url".to_string(),
            parameters: params(&[("url", "https://example.com")]),
        }]),
    }
}

#[test]
fn queued_jobs_run_first_in_first_out() {
    let mut queue = ActionQueue::new();
    let first = queue
        .enqueue_action_job(rule("a", None), record(1, "com.example.App", "审批 1"), StringMap::new())
        .expect("queued");
    queue
        .enqueue_action_job(rule("b", None), record(2, "com.example.App", "审批 2"), StringMap::new())
        .expect("queued");
    assert_eq!(queue.len(), 2);
    assert_eq!(first.rule_id, "a");
    assert_eq!(first.action_count, 1);
    assert_eq!(first.id.len(), 36);

    assert!(queue.is_in_flight("a", 1));
    assert!(!queue.is_in_flight("a", 2));
    let next = queue.start_next().expect("a job");
    assert_eq!(next.rule.id, "a");
    assert_eq!(queue.status().running.map(|item| item.rule_id), Some("a".to_string()));
    assert!(queue.is_in_flight("a", 1));
    queue.finish_current();
    assert!(!queue.is_in_flight("a", 1));
    assert_eq!(queue.start_next().map(|job| job.rule.id), Some("b".to_string()));
    queue.finish_current();
    assert!(queue.start_next().is_none());
}

#[test]
fn a_full_queue_refuses_more_jobs() {
    let mut queue = ActionQueue::new();
    for id in 0..200 {
        queue
            .enqueue_action_job(rule("a", None), record(id, "com.example.App", "审批"), StringMap::new())
            .expect("room left");
    }
    let refused = queue
        .enqueue_action_job(rule("a", None), record(999, "com.example.App", "审批"), StringMap::new())
        .expect_err("queue is full");
    assert_eq!(refused, "动作队列已满（200 条），请稍后再试");
    assert_eq!(queue.len(), 200);
    assert_eq!(queue.status().max_pending_count, 200);
}

#[test]
fn cooldowns_count_whole_seconds_left() {
    let mut cooldowns: IdTable<u128> = IdTable::new();
    let cooling = rule("a", Some(60));
    assert_eq!(cooldown_remaining_seconds(&cooldowns, &cooling, 10 * SECOND), None);
    commit_rule_cooldown(&mut cooldowns, &cooling, 10 * SECOND);
    assert_eq!(cooldown_remaining_seconds(&cooldowns, &cooling, 10 * SECOND), Some(60));
    assert_eq!(
        cooldown_remaining_seconds(&cooldowns, &cooling, 10 * SECOND + SECOND / 2),
        Some(59)
    );
    assert_eq!(
        cooldown_remaining_seconds(&cooldowns, &cooling, 70 * SECOND - 1),
        Some(1)
    );
    assert_eq!(cooldown_remaining_seconds(&cooldowns, &cooling, 70 * SECOND), None);

    let free = rule("b", None);
    commit_rule_cooldown(&mut cooldowns, &free, 10 * SECOND);
    assert_eq!(cooldowns.get("b"), None);
    assert_eq!(cooldown_remaining_seconds(&cooldowns, &free, 10 * SECOND), None);
}

#[test]
fn each_match_is_skipped_or_queued_with_its_message() {
    let mut queue = ActionQueue::new();
    let mut cooldowns: IdTable<u128> = IdTable::new();
    let approval = record(1, "com.example.App", "审批");

    let (outcome, notices) = dispatch_match(
        &mut queue,
        &mut cooldowns,
        rule("a", Some(30)),
        &approval,
        StringMap::new(),
        SECOND,
    );
    assert!(matches!(outcome, MatchOutcome::Queued(_)));
    assert_eq!(notices.len(), 2);
    assert_eq!(notices[0].message, "规则命中：规则a / 审批");
    assert_eq!(notices[0].kind.as_deref(), Some("match"));
    assert_eq!(notices[1].message, "动作已入队：规则a / 审批（1 个动作）");

    let (outcome, notices) = dispatch_match(
        &mut queue,
        &mut cooldowns,
        rule("a", Some(30)),
        &approval,
        StringMap::new(),
        2 * SECOND,
    );
    assert!(matches!(outcome, MatchOutcome::InFlight));
    assert_eq!(notices[0].message, "跳过已在执行队列中的通知动作：规则a / 审批");

    let (outcome, notices) = dispatch_match(
        &mut queue,
        &mut cooldowns,
        rule("a", Some(30)),
        &record(2, "com.example.App", "审批"),
        StringMap::new(),
        2 * SECOND,
    );
    assert!(matches!(outcome, MatchOutcome::CoolingDown(29)));
    assert_eq!(notices[0].message, "规则冷却中，跳过动作：规则a（剩余 29 秒）");

    let mut incomplete = rule("c", None);
    incomplete.actions = Some(Vec::new());
    let (outcome, notices) = dispatch_match(
        &mut queue,
        &mut cooldowns,
        incomplete,
        &approval,
        StringMap::new(),
        2 * SECOND,
    );
    assert!(matches!(outcome, MatchOutcome::Incomplete(_)));
    assert_eq!(notices[0].message, "跳过不完整规则：规则c / 审批（缺少触发动作）");
    assert_eq!(queue.len(), 1);
}

#[test]
fn new_records_are_filtered_matched_and_queued() {
    let mut queue = ActionQueue::new();
    let mut cooldowns: IdTable<u128> = IdTable::new();
    let rules = vec![rule("a", None)];
    let mut feedback = record(3, "com.example.App", "NoticeFlow 动作完成");
    feedback.subtitle = "NoticeFlow Automation".to_string();
    let records = vec![
        record(5, "com.example.App", "审批 A"),
        record(7, "com.other.App", "审批 B"),
        feedback,
    ];
    let outcome = process_new_records(
        &mut queue,
        &mut cooldowns,
        &rules,
        AppFilterMode::Exclude,
        &["com.other.app".to_string()],
        records,
        SECOND,
    );
    assert_eq!(outcome.last_record_id, Some(7));
    assert_eq!(outcome.notices[0].message, "发现新通知：1 条");
    assert!(!outcome.notices[0].logged);
    assert_eq!(outcome.hit_rule_ids, vec!["a".to_string()]);
    assert_eq!(queue.len(), 1);

    let none = process_new_records(
        &mut queue,
        &mut cooldowns,
        &rules,
        AppFilterMode::Include,
        &[],
        vec![record(9, "com.example.App", "审批")],
        SECOND,
    );
    assert!(none.notices.is_empty());
    assert!(none.hit_rule_ids.is_empty());
    assert_eq!(queue.len(), 1);
}

#[test]
fn visible_records_and_ids() {
    let records = vec![record(2, "a", "x"), record(9, "b", "y"), record(4, "a", "z")];
    assert_eq!(largest_record_id(&records), Some(9));
    assert_eq!(largest_record_id(&vec![]), None);
    let shown = visible_records(AppFilterMode::Include, &["A".to_string()], records);
    let ids: Vec<i64> = shown.iter().map(|r| r.id).collect();
    assert_eq!(ids, vec![2, 4]);
}

#[test]
fn hits_are_counted_on_the_first_rule_of_each_id() {
    let mut rules = vec![rule("a", None), rule("b", None), rule("a", None)];
    rules[1].hit_count = Some(u64::MAX - 1);
    let mut pending: IdTable<u64> = IdTable::new();
    increment_hit_counts(
        &mut rules,
        &mut pending,
        &["a".to_string(), "b".to_string(), "a".to_string(), "b".to_string(), "zzz".to_string()],
    );
    assert_eq!(rules[0].hit_count, Some(2));
    assert_eq!(rules[1].hit_count, Some(u64::MAX));
    assert_eq!(rules[2].hit_count, None);
    assert_eq!(pending.get("a"), Some(2));
    assert_eq!(pending.get("b"), Some(2));
    assert_eq!(pending.get("zzz"), None);
    assert_eq!(pending.total(), Some(4));
    pending.clear();
    assert_eq!(pending.total(), Some(0));
}

#[test]
fn saving_rules_keeps_larger_counted_hits() {
    let mut current = vec![rule("a", None), rule("b", None)];
    current[0].hit_count = Some(10);
    current[1].hit_count = Some(1);
    let mut edited = vec![rule("a", None), rule("b", None), rule("c", None)];
    edited[0].hit_count = Some(3);
    edited[1].hit_count = Some(5);
    keep_current_hit_counts(&mut edited, &current);
    assert_eq!(edited[0].hit_count, Some(10));
    assert_eq!(edited[1].hit_count, Some(5));
    assert_eq!(edited[2].hit_count, None);
}

#[test]
fn switching_rules_on_checks_them_first() {
    let mut broken = rule("b", None);
    broken.match_conditions = Some(Vec::new());
    let rules = vec![rule("a", None), broken];

    let off = rules_with_rule_enabled(&rules, "b", false).expect("disabling always works");
    assert_eq!(off[1].enabled, Some(false));
    assert_eq!(off[0].enabled, Some(true));

    let refused = rules_with_rule_enabled(&rules, "b", true).expect_err("broken rule");
    assert_eq!(refused, "规则「规则b」匹配条件为空");

    assert_eq!(
        rules_with_rule_enabled(&rules, "zzz", true).expect_err("unknown rule"),
        "未找到规则"
    );
}

#[test]
fn finished_jobs_report_their_counts() {
    let summary = {
        let mut queue = ActionQueue::new();
        queue
            .enqueue_action_job(rule("a", None), record(1, "com.example.App", "审批"), StringMap::new())
            .expect("queued")
    };
    assert_eq!(job_start_message(&summary), "动作开始：规则a / 审批");
    let ok = ActionExecution {
        action_type: "open_url".to_string(),
        success: true,
        message: "ok".to_string(),
        output: None,
        duration_ms: 1,
        attempt_count: 1,
    };
    let mut failed = ok.clone();
    failed.success = false;

    let all_good = job_report(&summary, &vec![ok.clone()]);
    assert_eq!(all_good.done_message, "动作完成：规则a / 审批（成功 1 个）");
    assert_eq!(all_good.outcome_kind, "action_success");

    let mixed = job_report(&summary, &vec![ok, failed]);
    assert_eq!(mixed.success_count, 1);
    assert_eq!(mixed.failed_count, 1);
    assert_eq!(
        mixed.done_message,
        "动作完成但有失败：规则a / 审批（成功 1 个，失败 1 个）"
    );
    assert_eq!(mixed.outcome_kind, "action_error");
}

#[test]
fn history_records_each_execution_and_keeps_the_latest() {
    let executions = vec![
        ActionExecution {
            action_type: "open_url".to_string(),
            success: true,
            message: "ok".to_string(),
            output: Some("out".to_string()),
            duration_ms: 3,
            attempt_count: 1,
        },
        ActionExecution {
            action_type: "run_shell".to_string(),
            success: false,
            message: "动作失败：x".to_string(),
            output: None,
            duration_ms: 4,
            attempt_count: 2,
        },
    ];
    let variables = params(&[("title", "审批"), ("__noticeflow_url_values", "[]")]);
    let entries = history_entries(
        &rule("a", None),
        &record(1, "com.example.App", "审批"),
        &executions,
        Some("queue-1"),
        &variables,
    );
    assert_eq!(entries.len(), 2);
    assert_eq!(entries[1].action_index, 1);
    assert_eq!(entries[0].origin, "auto");
    assert_eq!(entries[0].queue_id.as_deref(), Some("queue-1"));
    assert_eq!(entries[0].output.as_deref(), Some("out"));
    assert_eq!(entries[0].variables_json.as_deref(), Some(r#"{"title":"审批"}"#));
    assert_eq!(
        visible_variables_json(&variables).as_deref(),
        Some(r#"{"title":"审批"}"#)
    );

    let mut history = Vec::new();
    for _ in 0..251 {
        append_history(&mut history, entries.clone());
    }
    assert_eq!(history.len(), 500);
}

#[test]
fn logs_skip_repeats_and_keep_the_latest() {
    let mut logs = Vec::new();
    push_log(&mut logs, "a".to_string());
    push_log(&mut logs, "a".to_string());
    assert_eq!(logs, vec!["a".to_string()]);
    for i in 0..300 {
        push_log(&mut logs, format!("line {i}"));
    }
    assert_eq!(logs.len(), 200);
    assert_eq!(logs.last().map(String::as_str), Some("line 299"));
    push_log(&mut logs, "line 299".to_string());
    assert_eq!(logs.len(), 200);
    assert!(logs.windows(2).all(|pair| pair[0] != pair[1]));
}

#[test]
fn listing_falls_back_between_store_and_archive() {
    let system = vec![record(1, "a", "system")];
    let archived = vec![record(2, "a", "archived")];
    let (shown, log) = listing_after_sync(system.clone(), Ok(archived.clone()));
    assert_eq!(shown[0].title, "archived");
    assert!(log.is_none());
    let (shown, log) = listing_after_sync(system.clone(), Err("locked".to_string()));
    assert_eq!(shown[0].title, "system");
    assert_eq!(log.as_deref(), Some("读取本地归档失败，临时使用系统通知结果：locked"));

    assert_eq!(
        listing_after_system_error("denied".to_string(), Ok(archived)).map(|r| r.len()),
        Ok(1)
    );
    assert_eq!(
        listing_after_system_error("denied".to_string(), Ok(Vec::new())).map(|r| r.len()),
        Err("denied".to_string())
    );
    assert_eq!(
        listing_after_system_error("denied".to_string(), Err("gone".to_string())).map(|r| r.len()),
        Err("读取系统通知失败：denied；读取本地归档失败：gone".to_string())
    );
}

#[test]
fn empty_store_diagnostics() {
    assert!(database_diagnostic(3, 0, None).is_ok());
    assert!(database_diagnostic(0, 5, None)
        .unwrap_err()
        .contains("record 表为空"));
    assert!(database_diagnostic(0, 0, Some(4097))
        .unwrap_err()
        .contains("db.corrupt"));
    assert_eq!(
        database_diagnostic(0, 0, Some(4096)),
        Err("系统通知数据库当前没有可读取记录。".to_string())
    );
}

#[test]
fn only_known_paths_may_be_revealed() {
    let probe = |anchor: Option<&str>| RevealProbe {
        path_anchor: anchor.map(str::to_string),
        data_dir_anchor: Some("/data".to_string()),
        default_dir_anchor: Some("/default".to_string()),
        canonical_path: None,
        canonical_allowed: vec![None, None],
    };
    let allowed = vec!["/store/db".to_string(), "/settings.json".to_string()];
    assert!(validate_reveal_path("/data/rules.json", "/data", "/default", &allowed, &probe(Some("/data/rules.json"))).is_ok());
    assert!(validate_reveal_path("/data/x", "/data", "/default", &allowed, &probe(Some("/elsewhere/x"))).is_err());
    assert!(validate_reveal_path("/store/db", "/data", "/default", &allowed, &probe(None)).is_ok());
    assert_eq!(
        validate_reveal_path("/data/../etc", "/data", "/default", &allowed, &probe(Some("/etc"))),
        Err("不允许打开未授权路径".to_string())
    );
    assert!(validate_reveal_path("data/x", "/data", "/default", &allowed, &probe(None)).is_err());
}

#[test]
fn settings_view_reports_the_deep_check() {
    let settings = AppSettings {
        launch_at_login: false,
        data_directory: None,
        app_filter_mode: Some(" include ".to_string()),
        ignored_app_identifiers: vec!["com.apple.mail".to_string()],
    };
    let info = settings_info(
        "/db".to_string(),
        Some(true),
        None,
        "/data",
        "/settings.json".to_string(),
        true,
        &settings,
        true,
        42,
        None,
    );
    assert!(info.notification_database_checked);
    assert!(info.notification_database_accessible);
    assert_eq!(info.notification_archive_path, "/data/notifications.sqlite");
    assert_eq!(info.rules_path, "/data/rules.json");
    assert_eq!(info.app_filter_mode, "include");
    assert!(info.launch_at_login);

    let shallow = settings_info(
        "/db".to_string(),
        None,
        Some("broken".to_string()),
        "/data",
        "/settings.json".to_string(),
        false,
        &settings,
        false,
        0,
        None,
    );
    assert!(!shallow.notification_database_checked);
    assert!(!shallow.notification_database_accessible);
    assert_eq!(shallow.notification_database_error, None);
}

#[test]
fn moving_data_directories_loads_existing_rules() {
    assert_eq!(
        rules_for_target_data_directory("/old", "/new", true),
        TargetRulesPlan::LoadTarget
    );
    assert_eq!(
        rules_for_target_data_directory("/old", "/new", false),
        TargetRulesPlan::KeepCurrent { write_rules: true }
    );
    assert_eq!(
        rules_for_target_data_directory("/same/", "/same", true),
        TargetRulesPlan::KeepCurrent { write_rules: false }
    );
    assert_eq!(archive_copy_paths("/same", "/same/"), None);
    assert_eq!(
        archive_copy_paths("/old", "/new"),
        Some((
            "/old/notifications.sqlite".to_string(),
            "/new/notifications.sqlite".to_string()
        ))
    );
}

#[test]
fn trying_rules_answers_by_verdict() {
    let good = rule("a", None);
    let record = record(1, "com.example.App", "审批");
    let analysis = analyze_rule_match_at(&good, &record, None);
    assert!(analysis.explanation.matched);
    assert!(run_rule_outcome(&analysis, true).unwrap().is_none());
    let lines = run_rule_outcome(&analysis, false).unwrap().unwrap();
    assert_eq!(lines.len(), 3);

    let mut broken = rule("b", None);
    broken.actions = Some(Vec::new());
    assert!(run_rule_precheck(&broken, false).is_ok());
    assert_eq!(
        run_rule_precheck(&broken, true),
        Err("规则「规则b」触发动作为空".to_string())
    );
    assert_eq!(
        runnable_rule_names(&vec![good.clone(), broken], &record),
        vec!["规则a".to_string()]
    );
    assert_eq!(find_rule_by_id(&vec![good], "zzz").map(|r| r.id), Err("未找到规则".to_string()));
    assert_eq!(hide_result(0), Err("本地归档中未找到这条通知，隐藏失败".to_string()));
    assert!(changed_notification_message(true).contains("已隐藏列表中的旧记录"));
}

#[test]
fn tray_icon_draws_five_rounded_bars() {
    let rgba = tray_icon_rgba();
    assert_eq!(rgba.len(), 64 * 64 * 4);
    let pixel = |x: usize, y: usize| rgba[(y * 64 + x) * 4 + 3];
    assert_eq!(pixel(30, 10), 255);
    assert_eq!(pixel(8, 8), 0);
    assert_eq!(pixel(5, 5), 0);
    assert_eq!(pixel(50, 22), 0);
    assert_eq!(pixel(12, 55), 255);
    assert!(inside_rounded_rect(10, 3, 48, 7, 4));
    assert!(!inside_rounded_rect(0, 0, 48, 7, 4));
}

#[test]
fn rounded_rect_handles_large_radii() {
    assert!(!inside_rounded_rect(0, 0, 10, 10, 100_000));
    assert!(inside_rounded_rect(100_000, 5, 300_000, 10, 100_000));
}
