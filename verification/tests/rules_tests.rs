use noticeflow::notification_db::NotificationRecord;
use noticeflow::rules::{
    assign_missing_rule_ids, matches_record_app, matching_rules, trigger_time_matches,
    validate_regex_pattern, AutomationRule, MatchCondition,
};
use noticeflow::strmap::StringMap;

fn record(app_identifier: &str, title: &str, body: &str) -> NotificationRecord {
    NotificationRecord {
        id: 1,
        app_identifier: app_identifier.to_string(),
        app_name: app_identifier.to_string(),
        delivered_at: chrono::Utc::now().timestamp_millis(),
        title: title.to_string(),
        subtitle: String::new(),
        body: body.to_string(),
    }
}

fn rule(app_identifiers: Vec<&str>, conditions: Vec<MatchCondition>) -> AutomationRule {
    AutomationRule {
        id: "rule-1".to_string(),
        name: "Rule".to_string(),
        enabled: Some(true),
        trigger_time: None,
        cooldown_seconds: None,
        hit_count: None,
        app_identifiers: Some(app_identifiers.into_iter().map(ToString::to_string).collect()),
        match_conditions: Some(conditions),
        variable_extractions: None,
        actions: None,
    }
}

fn title_variables() -> StringMap {
    let mut variables = StringMap::new();
    variables.insert("title".to_string(), "Approval Ready".to_string());
    variables
}

#[test]
fn refuses_rules_without_specific_app() {
    let rules = vec![rule(
        Vec::new(),
        vec![MatchCondition {
            variable_name: "title".to_string(),
            operator_type: "contains".to_string(),
            expected_value: Some("审批".to_string()),
            case_sensitive: false,
        }],
    )];

    assert!(matching_rules(&rules, &record("com.example.App", "审批", "")).is_empty());
}

#[test]
fn matches_specific_app_and_condition() {
    let rules = vec![rule(
        vec!["com.example.App"],
        vec![MatchCondition {
            variable_name: "body".to_string(),
            operator_type: "regex".to_string(),
            expected_value: Some("https://example\\.com/\\w+".to_string()),
            case_sensitive: false,
        }],
    )];

    let matches = matching_rules(
        &rules,
        &record("com.example.App", "", "打开 https://example.com/a"),
    );
    assert_eq!(matches.len(), 1);
}

#[test]
fn regex_matching_respects_case_sensitivity() {
    let variables = title_variables();

    assert!(MatchCondition {
        variable_name: "title".to_string(),
        operator_type: "regex".to_string(),
        expected_value: Some("approval".to_string()),
        case_sensitive: false,
    }
    .evaluate(&variables));

    assert!(!MatchCondition {
        variable_name: "title".to_string(),
        operator_type: "regex".to_string(),
        expected_value: Some("approval".to_string()),
        case_sensitive: true,
    }
    .evaluate(&variables));
}

#[test]
fn invalid_regex_does_not_match_or_negate() {
    let variables = title_variables();

    assert!(!MatchCondition {
        variable_name: "title".to_string(),
        operator_type: "regex".to_string(),
        expected_value: Some("[".to_string()),
        case_sensitive: false,
    }
    .evaluate(&variables));

    assert!(!MatchCondition {
        variable_name: "title".to_string(),
        operator_type: "not_regex".to_string(),
        expected_value: Some("[".to_string()),
        case_sensitive: false,
    }
    .evaluate(&variables));
}

#[test]
fn regex_validation_uses_rust_regex_syntax() {
    assert!(validate_regex_pattern("approval", false).is_ok());
    assert!(validate_regex_pattern("foo(?=bar)", true).is_err());
    assert!(validate_regex_pattern(r"(foo)\1", true).is_err());
}

#[test]
fn matches_record_app_requires_specific_app_identifier() {
    assert!(!matches_record_app(None, "com.example.App"));
    assert!(!matches_record_app(Some(&[]), "com.example.App"));
    assert!(!matches_record_app(Some(&[" ".to_string()]), ""));
    assert!(matches_record_app(
        Some(&[" COM.EXAMPLE.APP ".to_string()]),
        " com.example.app "
    ));
}

#[test]
fn trigger_time_matches_supplied_current_minute() {
    assert!(trigger_time_matches(None, None));
    assert!(trigger_time_matches(Some(""), None));
    assert!(trigger_time_matches(Some("09:30"), Some("09:30")));
    assert!(!trigger_time_matches(Some("09:30"), Some("09:31")));
    assert!(!trigger_time_matches(Some("09:30"), None));
}

#[test]
fn evaluates_empty_and_missing_variables() {
    let variables = StringMap::new();
    assert!(MatchCondition {
        variable_name: "missing".to_string(),
        operator_type: "is_empty".to_string(),
        expected_value: None,
        case_sensitive: false,
    }
    .evaluate(&variables));
}

#[test]
fn negated_operators_are_the_opposite_of_their_positive_forms() {
    let variables = title_variables();
    for (positive, negative, expected) in [
        ("contains", "not_contains", "Ready"),
        ("equals", "not_equals", "Approval Ready"),
        ("regex", "not_regex", "^Appro"),
    ] {
        let condition = |operator: &str| MatchCondition {
            variable_name: "title".to_string(),
            operator_type: operator.to_string(),
            expected_value: Some(expected.to_string()),
            case_sensitive: true,
        };
        assert_ne!(
            condition(positive).evaluate(&variables),
            condition(negative).evaluate(&variables)
        );
    }
}

#[test]
fn disabled_rules_do_not_match() {
    let mut disabled = rule(
        vec!["com.example.App"],
        vec![MatchCondition {
            variable_name: "title".to_string(),
            operator_type: "contains".to_string(),
            expected_value: Some("审批".to_string()),
            case_sensitive: false,
        }],
    );
    disabled.enabled = Some(false);
    assert!(!disabled.is_enabled());
    assert!(matching_rules(&vec![disabled], &record("com.example.App", "审批", "")).is_empty());
}

#[test]
fn rules_without_ids_get_fresh_ones() {
    let mut unnamed = rule(vec!["com.example.App"], Vec::new());
    unnamed.id = "  ".to_string();
    let named = rule(vec!["com.example.App"], Vec::new());
    let mut rules = vec![unnamed, named];
    assign_missing_rule_ids(&mut rules);
    assert_eq!(rules[0].id.len(), 36);
    assert_eq!(rules[1].id, "rule-1");
}

#[test]
fn rules_limited_to_a_minute_run_only_at_the_local_minute() {
    let condition = MatchCondition {
        variable_name: "title".to_string(),
        operator_type: "contains".to_string(),
        expected_value: Some("审批".to_string()),
        case_sensitive: false,
    };
    let notification = record("com.example.App", "审批", "");
    for _ in 0..3 {
        let before = chrono::Local::now().format("%H:%M").to_string();
        let mut now_rule = rule(vec!["com.example.App"], vec![condition.clone()]);
        now_rule.trigger_time = Some(format!(" {before} "));
        let mut other_rule = rule(vec!["com.example.App"], vec![condition.clone()]);
        other_rule.trigger_time = Some("25:61".to_string());
        let matches = matching_rules(&vec![now_rule, other_rule], &notification);
        let after = chrono::Local::now().format("%H:%M").to_string();
        if before == after {
            assert_eq!(matches.len(), 1);
            assert_eq!(matches[0].0.trigger_time.as_deref(), Some(format!(" {before} ").as_str()));
            return;
        }
    }
    panic!("the local minute kept changing");
}
