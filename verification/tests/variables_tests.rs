use noticeflow::notification_db::NotificationRecord;
use noticeflow::template::{decode_join_separator, replace_variables};
use noticeflow::variables::{
    display_variable_names, extract_variables, is_valid_variable_name, VariableExtractionMethod,
    VariableExtractionRule, VariableExtractionSource,
};

fn record(title: &str, subtitle: &str, body: &str) -> NotificationRecord {
    NotificationRecord {
        id: 1,
        app_identifier: "com.example.App".to_string(),
        app_name: "Example".to_string(),
        delivered_at: chrono::Utc::now().timestamp_millis(),
        title: title.to_string(),
        subtitle: subtitle.to_string(),
        body: body.to_string(),
    }
}

#[test]
fn extracts_deduplicated_dynamic_urls() {
    let variables = extract_variables(
        &record(
            "审批 https://example.com/a",
            "",
            "查看 https://example.com/a 或 https://example.com/b",
        ),
        &vec![],
    );

    assert_eq!(
        variables.get_str("url").map(String::as_str),
        Some("https://example.com/a")
    );
    assert_eq!(variables.get_str("url_count").map(String::as_str), Some("2"));
    assert_eq!(variables.get_str("urls_count").map(String::as_str), Some("2"));
    assert_eq!(
        variables.get_str("urls").map(String::as_str),
        Some("https://example.com/a https://example.com/b")
    );
    assert_eq!(
        variables.get_str("urls_json").map(String::as_str),
        Some(r#"["https://example.com/a","https://example.com/b"]"#)
    );
    assert_eq!(
        replace_variables("{{url}} {{url_1}} {{url_2}} {{url_3}}", &variables),
        "https://example.com/a https://example.com/a https://example.com/b "
    );
    assert_eq!(
        replace_variables(
            "{{urls}} | {{urls_join:,}} | {{urls_join:\\n}} | ${urls_join: | }",
            &variables
        ),
        "https://example.com/a https://example.com/b | https://example.com/a,https://example.com/b | https://example.com/a\nhttps://example.com/b | https://example.com/a | https://example.com/b"
    );
}

#[test]
fn hides_internal_url_storage_from_display_names() {
    let variables = extract_variables(&record("", "", "https://example.com"), &vec![]);
    let names = display_variable_names(&variables);

    assert!(names.contains(&"url".to_string()));
    assert!(names.contains(&"url_count".to_string()));
    assert!(names.contains(&"urls".to_string()));
    assert!(names.contains(&"urls_count".to_string()));
    assert!(names.contains(&"urls_json".to_string()));
    assert!(!names.iter().any(|name| name.starts_with("__")));
}

#[test]
fn decodes_url_join_separator_escapes() {
    assert_eq!(decode_join_separator(r"\n"), "\n");
    assert_eq!(decode_join_separator(r"\r"), "\r");
    assert_eq!(decode_join_separator(r"\t"), "\t");
    assert_eq!(decode_join_separator(r"\\"), "\\");
    assert_eq!(decode_join_separator(r"\x"), r"\x");
}

#[test]
fn escaped_dollar_variables_are_left_for_shell_scripts() {
    let variables = extract_variables(&record("Title", "", "https://example.com"), &vec![]);

    assert_eq!(
        replace_variables(
            "echo $$url $${title} $$url_1 $${url_2} $${urls_join:,} {{url}}",
            &variables
        ),
        "echo $url ${title} $url_1 ${url_2} ${urls_join:,} https://example.com"
    );
}

#[test]
fn modifier_variables_escape_json_and_shell_values() {
    let variables = extract_variables(&record("Bob's \"approval\"\nready", "", ""), &vec![]);

    assert_eq!(
        replace_variables(r#"{"title":{{json:title}}}"#, &variables),
        r#"{"title":"Bob's \"approval\"\nready"}"#
    );
    assert_eq!(
        replace_variables("open {{shell:title}}", &variables),
        "open 'Bob'\\''s \"approval\"\nready'"
    );
    assert_eq!(
        replace_variables("echo $${json:title} $${shell:title}", &variables),
        "echo ${json:title} ${shell:title}"
    );
}

#[test]
fn variable_values_are_not_recursively_expanded() {
    let variables = extract_variables(&record("$body {{body}}", "", "payload"), &vec![]);

    assert_eq!(
        replace_variables("{{title}} ${title} $title", &variables),
        "$body {{body}} $body {{body}} $body {{body}}"
    );
}

#[test]
fn escaped_modifier_values_are_not_recursively_expanded() {
    let variables = extract_variables(
        &record("$body {{body}}", "", "'; touch /tmp/nope; '"),
        &vec![],
    );

    assert_eq!(
        replace_variables(r#"{"title":{{json:title}}}"#, &variables),
        r#"{"title":"$body {{body}}"}"#
    );
    assert_eq!(
        replace_variables("echo {{shell:title}}", &variables),
        "echo '$body {{body}}'"
    );
}

#[test]
fn extracts_custom_regex_variable() {
    let variables = extract_variables(
        &record("", "", "订单号: NF-20260619 状态: 已通过"),
        &vec![VariableExtractionRule {
            name: "order_id".to_string(),
            source: VariableExtractionSource::Body,
            method: VariableExtractionMethod::Regex,
            pattern: Some(r#"订单号:\s*([A-Z]+-\d+)"#.to_string()),
            end_pattern: None,
            group_index: Some(1),
        }],
    );

    assert_eq!(
        variables.get_str("order_id").map(String::as_str),
        Some("NF-20260619")
    );
}

#[test]
fn ignores_invalid_custom_regex_without_blocking_other_variables() {
    let variables = extract_variables(
        &record("", "", "审批编号 ABC-123"),
        &vec![
            VariableExtractionRule {
                name: "broken".to_string(),
                source: VariableExtractionSource::Body,
                method: VariableExtractionMethod::Regex,
                pattern: Some("(".to_string()),
                end_pattern: None,
                group_index: Some(1),
            },
            VariableExtractionRule {
                name: "approval_id".to_string(),
                source: VariableExtractionSource::Body,
                method: VariableExtractionMethod::Regex,
                pattern: Some(r#"审批编号\s+([A-Z]+-\d+)"#.to_string()),
                end_pattern: None,
                group_index: Some(1),
            },
        ],
    );

    assert!(!variables.contains_key("broken"));
    assert_eq!(
        variables.get_str("approval_id").map(String::as_str),
        Some("ABC-123")
    );
}

#[test]
fn text_between_markers_becomes_a_variable() {
    let variables = extract_variables(
        &record("", "", "from [start]value[end] on"),
        &vec![VariableExtractionRule {
            name: "between".to_string(),
            source: VariableExtractionSource::Body,
            method: VariableExtractionMethod::Between,
            pattern: Some("[start]".to_string()),
            end_pattern: Some("[end]".to_string()),
            group_index: None,
        }],
    );
    assert_eq!(variables.get_str("between").map(String::as_str), Some("value"));
}

#[test]
fn variable_names_are_identifiers() {
    assert!(is_valid_variable_name("order_id"));
    assert!(is_valid_variable_name("_x1"));
    assert!(!is_valid_variable_name("1bad"));
    assert!(!is_valid_variable_name(""));
}

#[test]
fn plain_template_without_markers_is_unchanged() {
    let variables = extract_variables(&record("title text", "sub", "body https://example.com/x"), &vec![]);
    let template = "title, url and body: no markers here (100% plain) }}";
    assert_eq!(replace_variables(template, &variables), template);
}

#[test]
fn lone_placeholder_gives_value_or_stays_as_written() {
    let variables = extract_variables(&record("Hello $world {{body}}", "sub", "text"), &vec![]);
    assert_eq!(replace_variables("{{title}}", &variables), "Hello $world {{body}}");
    assert_eq!(replace_variables("{{subtitle}}", &variables), "sub");
    assert_eq!(replace_variables("{{missing_name}}", &variables), "{{missing_name}}");
}

#[test]
fn placeholder_between_plain_text_is_filled_in_alone() {
    let variables = extract_variables(&record("Hello $world {{body}}", "sub", "text"), &vec![]);
    assert_eq!(
        replace_variables("echo {{title}} > /tmp/out.txt", &variables),
        "echo Hello $world {{body}} > /tmp/out.txt"
    );
    assert_eq!(replace_variables("[{{subtitle}}] done", &variables), "[sub] done");
    assert_eq!(replace_variables("a {{missing_name}} b", &variables), "a {{missing_name}} b");
}

#[test]
fn timestamp_variable_is_the_utc_delivery_time() {
    let mut notification = record("t", "", "");
    notification.delivered_at = 1_700_000_000_123;
    let variables = extract_variables(&notification, &vec![]);
    assert_eq!(variables.get_str("timestamp").map(String::as_str), Some("2023-11-14 22:13:20"));
}
