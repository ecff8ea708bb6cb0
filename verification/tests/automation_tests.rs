use noticeflow::analysis::{analyze_rule_match, notification_identity_matches, NotificationRecordIdentity};
use noticeflow::automation::{
    is_ignored_app, is_internal_automation_feedback_record, is_visible_app,
    normalized_app_filter_mode, normalized_notification_list_limit, notification_store_reset_baseline,
    notification_store_was_reset, osascript_stdout_path, dialog_outcome, rule_automation_block_reason,
    should_flush_hit_counts, should_rollback_launch_at_login, watcher_sleep_duration, AppFilterMode,
    WatcherNotice, WatcherState, settings_save_rollback, SettingsSaveStage, WatchTick,
};
use noticeflow::notification_db::NotificationRecord;
use noticeflow::rules::{rule_matches_record_app, ActionConfig, AutomationRule, MatchCondition};
use noticeflow::strmap::StringMap;
use noticeflow::validation::{validate_rule_for_save, validate_rules_for_save};
use noticeflow::variables::{VariableExtractionMethod, VariableExtractionRule, VariableExtractionSource};

const AUTOMATION_RESULT_SUCCESS_TITLE: &str = "NoticeFlow 动作完成";
const AUTOMATION_RESULT_FAILURE_TITLE: &str = "NoticeFlow 动作失败";
const AUTOMATION_RESULT_SUBTITLE: &str = "NoticeFlow Automation";
const WATCHER_IDLE_INTERVAL_MS: u64 = 300;

fn params(pairs: &[(&str, &str)]) -> StringMap {
    let mut map = StringMap::new();
    for (k, v) in pairs {
        map.insert(k.to_string(), v.to_string());
    }
    map
}

fn now_millis() -> i64 {
    chrono::Utc::now().timestamp_millis()
}

fn test_record(title: &str) -> NotificationRecord {
    NotificationRecord {
        id: 1,
        app_identifier: "com.example.App".to_string(),
        app_name: "Example".to_string(),
        delivered_at: now_millis(),
        title: title.to_string(),
        subtitle: AUTOMATION_RESULT_SUBTITLE.to_string(),
        body: "body".to_string(),
    }
}

fn valid_rule() -> AutomationRule {
    AutomationRule {
        id: "rule-1".to_string(),
        name: "规则".to_string(),
        enabled: Some(true),
        trigger_time: None,
        cooldown_seconds: None,
        hit_count: None,
        app_identifiers: Some(vec!["com.example.App".to_string()]),
        match_conditions: Some(vec![MatchCondition {
            variable_name: "title".to_string(),
            operator_type: "contains".to_string(),
            expected_value: Some("审批".to_string()),
            case_sensitive: false,
        }]),
        variable_extractions: None,
        actions: Some(vec![ActionConfig {
            action_type: "send_notification".to_string(),
            parameters: params(&[("title", "{{title}}"), ("body", "{{body}}")]),
        }]),
    }
}

#[test]
fn watcher_backoff_is_capped() {
    assert_eq!(watcher_sleep_duration(0), WATCHER_IDLE_INTERVAL_MS);
    assert_eq!(watcher_sleep_duration(1), 3_000);
    assert_eq!(watcher_sleep_duration(2), 8_000);
    assert_eq!(watcher_sleep_duration(3), 15_000);
    assert_eq!(watcher_sleep_duration(4), 30_000);
    assert_eq!(watcher_sleep_duration(5), 60_000);
    assert_eq!(watcher_sleep_duration(50), 60_000);
}

#[test]
fn notification_list_limit_is_capped() {
    assert_eq!(normalized_notification_list_limit(None), 200);
    assert_eq!(normalized_notification_list_limit(Some(0)), 0);
    assert_eq!(normalized_notification_list_limit(Some(400)), 400);
    assert_eq!(normalized_notification_list_limit(Some(10_000)), 1_000);
}

#[test]
fn osascript_path_output_preserves_path_whitespace() {
    assert_eq!(
        osascript_stdout_path(b"/Users/example/script name \n"),
        Some("/Users/example/script name ".to_string())
    );
    assert_eq!(
        osascript_stdout_path(b"/Users/example/folder /\r\n"),
        Some("/Users/example/folder /".to_string())
    );
    assert_eq!(osascript_stdout_path(b"\n"), None);
}

#[test]
fn watcher_detects_notification_store_id_reset() {
    assert!(notification_store_was_reset(57_317, 4));
    assert!(notification_store_was_reset(57_317, 0));
    assert!(!notification_store_was_reset(0, 0));
    assert!(!notification_store_was_reset(4, 57_317));
    assert!(!notification_store_was_reset(4, 4));
}

#[test]
fn watcher_reset_baseline_uses_current_max_id() {
    assert_eq!(notification_store_reset_baseline(57_317, 4), Some(4));
    assert_eq!(notification_store_reset_baseline(57_317, 0), Some(0));
    assert_eq!(notification_store_reset_baseline(4, 57_317), None);
    assert_eq!(notification_store_reset_baseline(4, 4), None);
}

#[test]
fn internal_automation_feedback_is_not_automation_input() {
    assert!(is_internal_automation_feedback_record(&test_record(
        AUTOMATION_RESULT_SUCCESS_TITLE
    )));
    assert!(is_internal_automation_feedback_record(&test_record(
        AUTOMATION_RESULT_FAILURE_TITLE
    )));
    assert!(!is_internal_automation_feedback_record(&test_record(
        "用户自己的通知"
    )));
    let mut same_title_without_internal_subtitle = test_record(AUTOMATION_RESULT_SUCCESS_TITLE);
    same_title_without_internal_subtitle.subtitle.clear();
    assert!(!is_internal_automation_feedback_record(
        &same_title_without_internal_subtitle
    ));
}

#[test]
fn backend_validation_rejects_broad_or_empty_rules() {
    assert!(validate_rule_for_save(&valid_rule()).is_ok());

    let mut without_app = valid_rule();
    without_app.app_identifiers = Some(Vec::new());
    assert!(validate_rule_for_save(&without_app)
        .expect_err("missing app should be rejected")
        .contains("触发应用"));
    assert_eq!(
        rule_automation_block_reason(&without_app).as_deref(),
        Some("缺少触发应用")
    );

    let mut without_conditions = valid_rule();
    without_conditions.match_conditions = Some(Vec::new());
    assert!(validate_rule_for_save(&without_conditions)
        .expect_err("missing conditions should be rejected")
        .contains("匹配条件"));
    assert_eq!(
        rule_automation_block_reason(&without_conditions).as_deref(),
        Some("缺少匹配条件")
    );

    let mut without_actions = valid_rule();
    without_actions.actions = Some(Vec::new());
    assert!(validate_rule_for_save(&without_actions)
        .expect_err("missing actions should be rejected")
        .contains("触发动作"));
    assert_eq!(
        rule_automation_block_reason(&without_actions).as_deref(),
        Some("缺少触发动作")
    );

    let mut disabled_incomplete = valid_rule();
    disabled_incomplete.enabled = Some(false);
    disabled_incomplete.match_conditions = Some(Vec::new());
    assert!(validate_rules_for_save(&vec![disabled_incomplete]).is_ok());
}

#[test]
fn backend_validation_rejects_invalid_rule_details() {
    let mut invalid_operator = valid_rule();
    invalid_operator.match_conditions.as_mut().unwrap()[0].operator_type = "unknown".to_string();
    assert!(validate_rule_for_save(&invalid_operator)
        .expect_err("invalid operator should be rejected")
        .contains("匹配方式"));

    let mut empty_expected_value = valid_rule();
    empty_expected_value.match_conditions.as_mut().unwrap()[0].expected_value =
        Some(" ".to_string());
    assert!(validate_rule_for_save(&empty_expected_value)
        .expect_err("empty expected value should be rejected")
        .contains("匹配值"));

    let mut is_empty_condition = valid_rule();
    let condition = &mut is_empty_condition.match_conditions.as_mut().unwrap()[0];
    condition.operator_type = "is_empty".to_string();
    condition.expected_value = None;
    assert!(validate_rule_for_save(&is_empty_condition).is_ok());

    let mut invalid_variable_name = valid_rule();
    invalid_variable_name.variable_extractions = Some(vec![VariableExtractionRule {
        name: "1bad".to_string(),
        source: VariableExtractionSource::Body,
        method: VariableExtractionMethod::Regex,
        pattern: Some("(.+)".to_string()),
        end_pattern: None,
        group_index: Some(1),
    }]);
    assert!(validate_rule_for_save(&invalid_variable_name)
        .expect_err("invalid variable name should be rejected")
        .contains("名称"));

    let mut empty_variable_regex = valid_rule();
    empty_variable_regex.variable_extractions = Some(vec![VariableExtractionRule {
        name: "target".to_string(),
        source: VariableExtractionSource::Body,
        method: VariableExtractionMethod::Regex,
        pattern: Some(" ".to_string()),
        end_pattern: None,
        group_index: Some(1),
    }]);
    assert!(validate_rule_for_save(&empty_variable_regex)
        .expect_err("empty variable regex should be rejected")
        .contains("正则"));

    let mut unknown_action = valid_rule();
    unknown_action.actions.as_mut().unwrap()[0].action_type = "unknown".to_string();
    assert!(validate_rule_for_save(&unknown_action)
        .expect_err("unknown action should be rejected")
        .contains("类型"));

    let mut invalid_shell = valid_rule();
    invalid_shell.actions = Some(vec![ActionConfig {
        action_type: "run_shell".to_string(),
        parameters: params(&[("shell", "fish"), ("script", "echo ok")]),
    }]);
    assert!(validate_rule_for_save(&invalid_shell)
        .expect_err("invalid shell should be rejected")
        .contains("Shell"));

    let mut invalid_env_json = valid_rule();
    invalid_env_json.actions.as_mut().unwrap()[0]
        .parameters
        .insert("env_json".to_string(), "{\"A\":1}".to_string());
    assert!(validate_rule_for_save(&invalid_env_json)
        .expect_err("invalid env json should be rejected")
        .contains("环境变量 JSON"));

    let mut invalid_http_headers = valid_rule();
    invalid_http_headers.actions = Some(vec![ActionConfig {
        action_type: "http_request".to_string(),
        parameters: params(&[("url", "https://example.com"), ("headers", "{\"Accept\":1}")]),
    }]);
    assert!(validate_rule_for_save(&invalid_http_headers)
        .expect_err("invalid http headers should be rejected")
        .contains("Headers JSON"));

    let mut invalid_http_retry = valid_rule();
    invalid_http_retry.actions = Some(vec![ActionConfig {
        action_type: "http_request".to_string(),
        parameters: params(&[("url", "https://example.com"), ("retry_count", "6")]),
    }]);
    assert!(validate_rule_for_save(&invalid_http_retry)
        .expect_err("invalid http retry should be rejected")
        .contains("重试次数"));
}

#[test]
fn rule_match_explanation_trims_app_identifiers() {
    let mut rule = valid_rule();
    rule.app_identifiers = Some(vec![" COM.EXAMPLE.APP ".to_string(), " ".to_string()]);

    assert!(rule_matches_record_app(&rule, " com.example.app "));
    assert!(!rule_matches_record_app(&rule, " "));
}

#[test]
fn rule_match_explanation_rejects_incomplete_drafts() {
    let record = test_record("审批");

    let mut without_app = valid_rule();
    without_app.app_identifiers = Some(Vec::new());
    let app_analysis = analyze_rule_match(&without_app, &record);
    assert!(!app_analysis.explanation.matched);
    assert!(app_analysis.explanation.message.contains("缺少触发应用"));

    let mut without_conditions = valid_rule();
    without_conditions.match_conditions = Some(Vec::new());
    let condition_analysis = analyze_rule_match(&without_conditions, &record);
    assert!(!condition_analysis.explanation.matched);
    assert!(condition_analysis
        .explanation
        .message
        .contains("缺少匹配条件"));
}

#[test]
fn ignored_app_matching_is_normalized() {
    let ignored = vec![
        " com.apple.mail ".to_string(),
        "".to_string(),
        "COM.EXAMPLE.APP".to_string(),
    ];

    assert!(is_ignored_app(&ignored, "com.apple.Mail"));
    assert!(is_ignored_app(&ignored, " com.example.app "));
    assert!(!is_ignored_app(&ignored, ""));
    assert!(!is_ignored_app(&ignored, "com.example.other"));
}

#[test]
fn app_filter_modes_include_or_exclude_selected_apps() {
    let apps = vec!["com.apple.mail".to_string()];

    assert_eq!(normalized_app_filter_mode(Some("include")), "include");
    assert_eq!(normalized_app_filter_mode(Some("bad")), "exclude");
    assert!(is_visible_app(AppFilterMode::Exclude, &apps, "com.example.other"));
    assert!(!is_visible_app(AppFilterMode::Exclude, &apps, "com.apple.mail"));
    assert!(is_visible_app(AppFilterMode::Include, &apps, "com.apple.mail"));
    assert!(!is_visible_app(AppFilterMode::Include, &apps, "com.example.other"));
}

#[test]
fn notification_identity_requires_same_content_and_timestamp() {
    let delivered_at = now_millis();
    let record = NotificationRecord {
        id: 42,
        app_identifier: "com.example.App".to_string(),
        app_name: "Example".to_string(),
        delivered_at,
        title: "标题".to_string(),
        subtitle: "副标题".to_string(),
        body: "内容".to_string(),
    };
    let rfc3339 = |millis: i64| {
        chrono::DateTime::<chrono::Utc>::from_timestamp_millis(millis)
            .unwrap()
            .to_rfc3339()
    };
    let identity = NotificationRecordIdentity {
        id: record.id,
        app_identifier: record.app_identifier.clone(),
        app_name: record.app_name.clone(),
        delivered_at: rfc3339(record.delivered_at),
        title: record.title.clone(),
        subtitle: record.subtitle.clone(),
        body: record.body.clone(),
    };

    assert!(notification_identity_matches(&record, &identity));

    let mut different_app_case = identity.clone();
    different_app_case.app_identifier = "COM.EXAMPLE.APP".to_string();
    assert!(notification_identity_matches(&record, &different_app_case));

    let mut different_title = identity.clone();
    different_title.title = "其他标题".to_string();
    assert!(!notification_identity_matches(&record, &different_title));

    let mut different_time = identity;
    different_time.delivered_at = rfc3339(record.delivered_at + 1_000);
    assert!(!notification_identity_matches(&record, &different_time));
}

#[test]
fn hit_count_flush_requires_pending_work() {
    assert!(!should_flush_hit_counts(0, 60_000, true));
    assert!(!should_flush_hit_counts(0, 60_000, false));
}

#[test]
fn hit_count_flush_uses_threshold_time_or_force() {
    assert!(should_flush_hit_counts(20, 0, false));
    assert!(should_flush_hit_counts(1, 5_000, false));
    assert!(should_flush_hit_counts(1, 0, true));
    assert!(!should_flush_hit_counts(1, 4_000, false));
}

#[test]
fn launch_at_login_rollback_only_when_value_changed() {
    assert!(!should_rollback_launch_at_login(false, false));
    assert!(!should_rollback_launch_at_login(true, true));
    assert!(should_rollback_launch_at_login(false, true));
    assert!(should_rollback_launch_at_login(true, false));
}

#[test]
fn dialog_outcomes_tell_cancel_from_failure() {
    assert_eq!(
        dialog_outcome(true, b"/Users/me/Data\n", b"", "选择目录失败"),
        Ok(Some("/Users/me/Data".to_string()))
    );
    assert_eq!(dialog_outcome(true, b"\n", b"", "选择目录失败"), Ok(None));
    assert_eq!(
        dialog_outcome(false, b"", b"execution error: User canceled. (-128)\n", "选择目录失败"),
        Ok(None)
    );
    assert_eq!(dialog_outcome(false, b"", b"USER CANCELED", "选择目录失败"), Ok(None));
    assert_eq!(
        dialog_outcome(false, b"", b"  \n", "选择脚本文件失败"),
        Err("选择脚本文件失败".to_string())
    );
    assert_eq!(
        dialog_outcome(false, b"", b" execution error: boom (-1700)\n", "选择目录失败"),
        Err("execution error: boom (-1700)".to_string())
    );
}

#[test]
fn watcher_keeps_its_place_until_the_store_is_rebuilt() {
    let (mut watcher, line) = WatcherState::start(Ok(5));
    assert_eq!(line, "监听已启动，起始通知记录 ID：5");
    assert_eq!(watcher.last_record_id, 5);
    assert!(watcher.on_empty_poll(Ok(5)).is_none());
    assert_eq!(watcher.last_record_id, 5);
    assert!(matches!(watcher.on_poll_error("boom"), Some(WatcherNotice::Error(_))));
    assert!(!watcher.baseline_ready);
    assert_eq!(watcher.last_record_id, 5);
    assert!(matches!(watcher.on_baseline(Ok(9)), Some(WatcherNotice::Status(_))));
    assert!(watcher.baseline_ready);
    assert_eq!(watcher.last_record_id, 9);
    assert!(watcher.on_empty_poll(Ok(12)).is_none());
    assert_eq!(watcher.last_record_id, 9);
    match watcher.on_empty_poll(Ok(3)) {
        Some(WatcherNotice::Status(m)) => {
            assert_eq!(m, "检测到系统通知库记录 ID 从 9 回退到 3，已重建监听基线，避免回放旧通知")
        }
        _ => panic!("a rebuilt store is reported"),
    }
    assert_eq!(watcher.last_record_id, 3);
}

#[test]
fn failed_settings_saves_undo_only_what_was_done() {
    let early = settings_save_rollback(SettingsSaveStage::LaunchAtLogin, false, true, "boom".to_string());
    assert!(!early.restore_settings);
    assert_eq!(early.restore_launch_at_login, None);
    assert_eq!(early.message, "boom");

    let file = settings_save_rollback(SettingsSaveStage::SettingsFile, false, true, "disk full".to_string());
    assert!(!file.restore_settings);
    assert_eq!(file.restore_launch_at_login, Some(false));
    assert_eq!(file.message, "disk full");

    let unchanged = settings_save_rollback(SettingsSaveStage::SettingsFile, true, true, "disk full".to_string());
    assert_eq!(unchanged.restore_launch_at_login, None);

    let moved = settings_save_rollback(SettingsSaveStage::DataMigration, true, false, "copy failed".to_string());
    assert!(moved.restore_settings);
    assert_eq!(moved.restore_launch_at_login, Some(true));
    assert_eq!(moved.message, "数据迁移失败，设置已回滚：copy failed");
}

#[test]
fn a_poll_reads_full_batches_up_to_ten_and_flushes_only_when_idle() {
    let mut idle = WatchTick::new();
    assert!(idle.wants_batch());
    idle.on_batch(0);
    assert!(!idle.wants_batch());
    assert!(idle.flushes_hit_counts());

    let mut busy = WatchTick::new();
    for _ in 0..10 {
        assert!(busy.wants_batch());
        busy.on_batch(100);
    }
    assert!(!busy.wants_batch());
    assert!(!busy.flushes_hit_counts());

    let mut short = WatchTick::new();
    short.on_batch(100);
    short.on_batch(3);
    assert!(!short.wants_batch());
    assert_eq!(short.batches_read, 2);

    let mut failed = WatchTick::new();
    failed.on_failure();
    assert!(!failed.wants_batch());
    assert!(failed.flushes_hit_counts());
}
