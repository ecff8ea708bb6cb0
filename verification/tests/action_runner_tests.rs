use noticeflow::action_runner::{
    action_execution, action_timeout, command_failure_message, dry_run_actions, http_attempt_step,
    http_method, http_request, http_request_command, is_action_output_file, open_url, output_snippet,
    process_outcome, run_action_inner, run_actions_detailed, shell_args, shell_executable,
    should_remove_action_output_file, timeout_message, ActionExecution, ActionRunFailure,
    ActionRunSuccess, HttpStep, command_poll_step, CommandPoll,
};
use noticeflow::rules::ActionConfig;
use noticeflow::strmap::StringMap;

fn params(pairs: &[(&str, &str)]) -> StringMap {
    let mut map = StringMap::new();
    for (k, v) in pairs {
        map.insert(k.to_string(), v.to_string());
    }
    map
}

fn action_with_timeout(value: &str) -> ActionConfig {
    ActionConfig {
        action_type: "run_shell".to_string(),
        parameters: params(&[("timeout_seconds", value)]),
    }
}

const MAX_ACTION_TIMEOUT_SECONDS: u64 = 300;
const DEFAULT_ACTION_TIMEOUT_SECONDS: u64 = 30;
const MAX_ACTION_OUTPUT_SNIPPET_BYTES: usize = 8 * 1024;

#[test]
fn action_timeout_uses_bounds() {
    assert_eq!(action_timeout(&action_with_timeout("2")), 2);
    assert_eq!(
        action_timeout(&action_with_timeout("999")),
        MAX_ACTION_TIMEOUT_SECONDS
    );
    assert_eq!(
        action_timeout(&action_with_timeout("0")),
        DEFAULT_ACTION_TIMEOUT_SECONDS
    );
    assert_eq!(
        action_timeout(&action_with_timeout("bad")),
        DEFAULT_ACTION_TIMEOUT_SECONDS
    );
}

#[test]
fn shell_executable_defaults_to_bash_and_allows_zsh() {
    let mut action = ActionConfig {
        action_type: "run_shell".to_string(),
        parameters: StringMap::new(),
    };

    assert_eq!(shell_executable(&action).unwrap(), "/bin/bash");

    action.parameters = params(&[("shell", "zsh")]);
    assert_eq!(shell_executable(&action).unwrap(), "/bin/zsh");
}

#[test]
fn shell_executable_rejects_unknown_shells() {
    let action = ActionConfig {
        action_type: "run_shell".to_string(),
        parameters: params(&[("shell", "fish")]),
    };

    assert!(shell_executable(&action).is_err());
}

#[test]
fn shell_args_support_login_and_interactive_modes() {
    let mut action = ActionConfig {
        action_type: "run_shell".to_string(),
        parameters: StringMap::new(),
    };
    assert_eq!(shell_args(&action).unwrap(), vec!["-c"]);

    action.parameters = params(&[("shell_mode", "interactive")]);
    assert_eq!(shell_args(&action).unwrap(), vec!["-i", "-c"]);

    action.parameters = params(&[("shell_mode", "login_interactive")]);
    assert_eq!(shell_args(&action).unwrap(), vec!["-l", "-i", "-c"]);
}

#[test]
fn successful_script_execution_captures_stdout_and_stderr() {
    let action = ActionConfig {
        action_type: "run_shell".to_string(),
        parameters: params(&[("script", "echo hello-stdout; echo hello-stderr >&2")]),
    };
    // The process itself runs outside the library; here it prints what the
    // script prints.
    let run = |action: &ActionConfig, variables: &StringMap| {
        let plan = run_action_inner(action, variables).expect("plan");
        let outcome = process_outcome(
            &plan,
            Ok(("hello-stdout\n".to_string(), "hello-stderr\n".to_string())),
        )
        .map_err(|message| ActionRunFailure {
            message,
            attempt_count: 1,
        });
        (outcome, 5u64)
    };
    let executions = run_actions_detailed(&vec![action], &StringMap::new(), &run);

    assert_eq!(executions.len(), 1);
    assert!(executions[0].success);
    let output = executions[0].output.as_deref().expect("output captured");
    assert!(output.contains("hello-stdout"));
    assert!(output.contains("[stderr]"));
    assert!(output.contains("hello-stderr"));
}

#[test]
fn output_snippet_skips_empty_and_truncates_large_text() {
    assert_eq!(output_snippet("", "  \n"), None);
    assert_eq!(output_snippet("ok", "").as_deref(), Some("ok"));

    let large = "x".repeat(MAX_ACTION_OUTPUT_SNIPPET_BYTES + 100);
    let snippet = output_snippet(&large, "").expect("snippet");
    assert!(snippet.contains("输出已截断"));
    assert!(snippet.len() < large.len());
}

#[test]
fn dry_run_actions_resolves_variables_without_executing() {
    let action = ActionConfig {
        action_type: "run_shell".to_string(),
        parameters: params(&[
            ("script", "echo {{title}} > /tmp/noticeflow-dry-run-marker"),
            ("empty", "  "),
        ]),
    };
    let variables = params(&[("title", "构建完成")]);

    let previews = dry_run_actions(&vec![action], &variables);

    assert_eq!(previews.len(), 1);
    assert_eq!(previews[0].action_type, "run_shell");
    let script = previews[0]
        .parameters
        .iter()
        .find(|item| item.name == "script")
        .expect("script param");
    assert!(script.value.contains("构建完成"));
    assert!(
        !previews[0].parameters.iter().any(|item| item.name == "empty"),
        "blank parameters should be hidden from preview"
    );
    assert!(
        !std::path::Path::new("/tmp/noticeflow-dry-run-marker").exists(),
        "dry run must not execute the script"
    );
}

#[test]
fn http_request_command_fails_on_http_error_status() {
    let action = ActionConfig {
        action_type: "http_request".to_string(),
        parameters: params(&[
            ("headers", r#"{"Accept":"application/json"}"#),
            ("body", r#"{"ok":true}"#),
        ]),
    };
    let variables = StringMap::new();
    let args = http_request_command(&action, &variables, "GET", "https://example.com")
        .expect("command should be built");

    assert!(args.contains(&"--fail".to_string()));
    let url_index = args
        .iter()
        .position(|item| item == "https://example.com")
        .expect("url should be present");
    let separator_index = args
        .iter()
        .position(|item| item == "--")
        .expect("option separator should be present");
    assert_eq!(
        separator_index + 1,
        url_index,
        "the URL must be after -- to avoid curl option injection"
    );
    assert!(
        args.iter().position(|item| item == "-H").unwrap() < separator_index,
        "headers must stay before -- so curl still treats them as options"
    );
    assert!(
        args.iter().position(|item| item == "--data").unwrap() < separator_index,
        "body data must stay before -- so curl still treats it as an option"
    );
}

#[test]
fn http_request_command_rejects_invalid_headers_json() {
    let action = ActionConfig {
        action_type: "http_request".to_string(),
        parameters: params(&[("headers", "{bad")]),
    };
    let variables = StringMap::new();

    let error = http_request_command(&action, &variables, "GET", "https://example.com")
        .expect_err("invalid headers json should fail");

    assert!(error.contains("Headers JSON"));
}

#[test]
fn open_url_rejects_option_like_urls() {
    let action = ActionConfig {
        action_type: "open_url".to_string(),
        parameters: params(&[("url", "-a Calculator")]),
    };
    let variables = StringMap::new();

    let error = open_url(&action, &variables).expect_err("option-like URL should fail");

    assert!(error.contains("URL 不能以 - 开头"));
}

#[test]
fn http_request_rejects_option_like_urls() {
    let action = ActionConfig {
        action_type: "http_request".to_string(),
        parameters: params(&[("url", "-K config")]),
    };
    let variables = StringMap::new();

    let error = http_request(&action, &variables).expect_err("option-like URL should fail");

    assert!(error.message.contains("HTTP URL 不能以 - 开头"));
}

#[test]
fn http_method_defaults_blank_values_to_get() {
    let mut action = ActionConfig {
        action_type: "http_request".to_string(),
        parameters: StringMap::new(),
    };
    assert_eq!(http_method(&action), "GET");

    action.parameters.insert("method".to_string(), "  ".to_string());
    assert_eq!(http_method(&action), "GET");

    action
        .parameters
        .insert("method".to_string(), " post ".to_string());
    assert_eq!(http_method(&action), "post");
}

#[test]
fn recognizes_noticeflow_action_output_files() {
    assert!(is_action_output_file("/tmp/noticeflow-action-stdout-abc.log"));
    assert!(is_action_output_file("/tmp/noticeflow-action-stderr-abc.log"));
    assert!(!is_action_output_file("/tmp/noticeflow-action-stdout-abc.txt"));
    assert!(!is_action_output_file("/tmp/other-action-stdout-abc.log"));
}

#[test]
fn stale_output_cleanup_only_targets_old_noticeflow_logs() {
    let second: u128 = 1_000_000_000;
    let stale_age = 60 * 60 * 24 * second;
    let now = 60 * 60 * 48 * second;
    let old = now - stale_age - second;
    let fresh = now - 60 * second;
    let action_log = "/tmp/noticeflow-action-stdout-abc.log";
    let unrelated_log = "/tmp/other-action-stdout-abc.log";

    assert!(should_remove_action_output_file(action_log, old, now, stale_age));
    assert!(!should_remove_action_output_file(action_log, fresh, now, stale_age));
    assert!(!should_remove_action_output_file(unrelated_log, old, now, stale_age));
}

#[test]
fn failed_actions_are_recorded_with_prefix_and_one_attempt_at_least() {
    let failure = ActionRunFailure {
        message: "boom".to_string(),
        attempt_count: 0,
    };
    let execution: ActionExecution = action_execution("run_shell", Err(failure), 12);
    assert!(!execution.success);
    assert_eq!(execution.message, "动作失败：boom");
    assert_eq!(execution.attempt_count, 1);
    assert_eq!(execution.duration_ms, 12);
    assert_eq!(execution.output, None);

    let success = ActionRunSuccess {
        message: "ok".to_string(),
        output: Some("out".to_string()),
        attempt_count: 3,
    };
    let execution = action_execution("open_url", Ok(success), 7);
    assert!(execution.success);
    assert_eq!(execution.attempt_count, 3);
    assert_eq!(execution.output.as_deref(), Some("out"));
}

#[test]
fn runs_every_action_in_order() {
    let first = ActionConfig {
        action_type: "open_url".to_string(),
        parameters: params(&[("url", "https://example.com")]),
    };
    let second = ActionConfig {
        action_type: "unknown".to_string(),
        parameters: StringMap::new(),
    };
    let run = |action: &ActionConfig, variables: &StringMap| match run_action_inner(action, variables) {
        Ok(plan) => (
            process_outcome(&plan, Ok((String::new(), String::new()))).map_err(|message| {
                ActionRunFailure {
                    message,
                    attempt_count: 1,
                }
            }),
            1u64,
        ),
        Err(message) => (
            Err(ActionRunFailure {
                message,
                attempt_count: 1,
            }),
            0u64,
        ),
    };
    let executions = run_actions_detailed(&vec![first, second], &StringMap::new(), &run);
    assert_eq!(executions.len(), 2);
    assert_eq!(executions[0].action_type, "open_url");
    assert!(executions[0].success);
    assert_eq!(executions[1].action_type, "unknown");
    assert!(!executions[1].success);
    assert_eq!(executions[1].message, "动作失败：未知动作类型：unknown");
}

#[test]
fn command_messages_name_the_command() {
    assert!(timeout_message("测试命令", 1).contains("执行超时"));
    let failure = command_failure_message("失败命令", Some(7), "", "bad");
    assert!(failure.contains("退出码 Some(7)"));
}

#[test]
fn http_attempts_retry_until_the_limit() {
    let action = ActionConfig {
        action_type: "http_request".to_string(),
        parameters: params(&[("url", "https://example.com"), ("retry_count", "1")]),
    };
    let plan = http_request(&action, &StringMap::new()).expect("plan");
    assert_eq!(plan.retry_count, 1);
    match http_attempt_step(&plan, 0, Err("down".to_string())) {
        HttpStep::Retry(_) => {}
        _ => panic!("the first failure should be retried"),
    }
    match http_attempt_step(&plan, 1, Err("down".to_string())) {
        HttpStep::Fail(failure) => assert_eq!(failure.attempt_count, 2),
        _ => panic!("the second failure should end the request"),
    }
}

#[test]
fn command_poll_step_decides_in_order() {
    assert_eq!(command_poll_step(true, 99_000, 10, 9_000_000, 0), CommandPoll::Finished);
    assert_eq!(command_poll_step(false, 10_000, 10, 9_000_000, 0), CommandPoll::TimedOut);
    assert_eq!(command_poll_step(false, 9_999, 10, 4_194_304, 1), CommandPoll::OutputTooLarge);
    assert_eq!(command_poll_step(false, 9_999, 10, 4_194_304, 0), CommandPoll::Wait);
    assert_eq!(command_poll_step(false, 0, 0, 0, 0), CommandPoll::TimedOut);
}
