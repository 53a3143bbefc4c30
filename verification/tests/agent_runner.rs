use skrvm::agent_runner::{
    approval_decision, gitlab_auth, usage_fits, classify_agent_method, extract_token_delta, gitlab_method, gitlab_url,
    initialize_outcome, issue_json_text, prompt_context, render_prompt, rendered_prompt,
    session_id_for, tool_kind,
    turn_failure_message, turn_step, AgentMessage, HttpMethod, ToolKind, TurnAction, TurnEvent,
    TurnState, UsageNumbers,
};
use skrvm::config::EnvVars;
use skrvm::tracker::{BlockerRef, Issue};

fn usage() -> UsageNumbers {
    UsageNumbers {
        input_tokens: None,
        input: None,
        output_tokens: None,
        output: None,
        total_tokens: None,
        total: None,
    }
}

#[test]
fn token_delta_defaults_total_to_input_plus_output() {
    let mut u = usage();
    u.input_tokens = Some(12_000);
    u.output_tokens = Some(4_200);
    let d = extract_token_delta(Some(u)).unwrap();
    assert_eq!((d.input_tokens, d.output_tokens, d.total_tokens), (12_000, 4_200, 16_200));
}

#[test]
fn token_delta_accepts_short_names_and_explicit_total() {
    let mut u = usage();
    u.input = Some(3);
    u.output = Some(4);
    u.total = Some(100);
    let d = extract_token_delta(Some(u)).unwrap();
    assert_eq!((d.input_tokens, d.output_tokens, d.total_tokens), (3, 4, 100));
    let mut both = usage();
    both.input_tokens = Some(1);
    both.input = Some(50);
    both.total_tokens = Some(9);
    both.total = Some(99);
    let d = extract_token_delta(Some(both)).unwrap();
    assert_eq!((d.input_tokens, d.output_tokens, d.total_tokens), (1, 0, 9));
    assert!(extract_token_delta(None).is_none());
}

#[test]
fn agent_methods_are_classified() {
    assert_eq!(classify_agent_method("turn/completed"), AgentMessage::TurnCompleted);
    assert_eq!(classify_agent_method("turn/cancelled"), AgentMessage::TurnFailed);
    assert_eq!(classify_agent_method("execCommandApproval"), AgentMessage::CommandApproval);
    assert_eq!(
        classify_agent_method("item/fileChange/requestApproval"),
        AgentMessage::PatchApproval
    );
    assert_eq!(classify_agent_method("item/tool/requestUserInput"), AgentMessage::InputRequired);
    assert_eq!(classify_agent_method("item/tool/call"), AgentMessage::ToolCall);
    assert_eq!(classify_agent_method("thread/started"), AgentMessage::Ignored);
    assert_eq!(approval_decision("applyPatchApproval"), "approved_for_session");
    assert_eq!(approval_decision("item/commandExecution/requestApproval"), "acceptForSession");
}

#[test]
fn turn_helpers() {
    assert_eq!(session_id_for("th-1", "tu-2"), "th-1-tu-2");
    assert_eq!(turn_failure_message(Some("quota")), "Turn failed: quota");
    assert_eq!(turn_failure_message(None), "Turn failed: Unknown failure");
    assert_eq!(tool_kind("linear_graphql"), ToolKind::LinearGraphql);
    assert_eq!(tool_kind("gitlab_api"), ToolKind::GitlabApi);
    assert_eq!(tool_kind("shell"), ToolKind::Unsupported);
}

#[test]
fn gitlab_requests() {
    assert_eq!(gitlab_method("post"), HttpMethod::Post);
    assert_eq!(gitlab_method("Put"), HttpMethod::Put);
    assert_eq!(gitlab_method("delete"), HttpMethod::Delete);
    assert_eq!(gitlab_method("patch"), HttpMethod::Get);
    assert_eq!(
        gitlab_url("http://127.0.0.1:8080/api/v4/", " /projects/123/issues "),
        "http://127.0.0.1:8080/api/v4/projects/123/issues"
    );
    assert_eq!(gitlab_url("https://gitlab.com/api/v4", "projects"), "https://gitlab.com/api/v4/projects");
}

#[test]
fn gitlab_credentials_come_from_the_environment() {
    let env = |pairs: &[(&str, &str)]| EnvVars {
        vars: pairs.iter().map(|(k, v)| (k.to_string(), v.to_string())).collect(),
    };
    assert_eq!(
        gitlab_auth(&env(&[("GITLAB_TOKEN", "t2"), ("PRIVATE_TOKEN", "t3")])),
        Ok(("t2".to_string(), "https://gitlab.com/api/v4".to_string()))
    );
    assert_eq!(
        gitlab_auth(&env(&[
            ("PRIVATE_TOKEN", "t3"),
            ("GITLAB_PRIVATE_TOKEN", "mock-test-token"),
            ("GITLAB_API_ENDPOINT", "http://127.0.0.1:9/api/v4"),
        ])),
        Ok(("mock-test-token".to_string(), "http://127.0.0.1:9/api/v4".to_string()))
    );
    assert_eq!(
        gitlab_auth(&env(&[("GITLAB_API_ENDPOINT", "x")])),
        Err("GitLab API Token is missing. Export GITLAB_PRIVATE_TOKEN or GITLAB_TOKEN in the environment.".to_string())
    );
}

#[test]
fn usage_sums_that_overflow_are_detected() {
    let mut u = usage();
    u.input = Some(i64::MAX);
    assert!(usage_fits(&u));
    u.output_tokens = Some(1);
    assert!(!usage_fits(&u));
}

fn prompt_issue() -> Issue {
    Issue {
        id: "id-1".to_string(),
        identifier: "PROJ-7".to_string(),
        title: "Fix login".to_string(),
        description: Some("Users cannot log in.".to_string()),
        priority: Some(2),
        state: "Todo".to_string(),
        branch_name: None,
        url: None,
        assignee_id: None,
        blocked_by: vec![],
        labels: vec![],
        assigned_to_worker: true,
        created_at: None,
        updated_at: None,
    }
}

#[test]
fn prompt_renders_issue_fields_and_attempt() {
    let issue = prompt_issue();
    let template = "{{ issue.identifier }}: {{ issue.title }} [{{ issue.state }}] {{ issue.description }}{% if attempt > 0 %} retry #{{ attempt }}{% endif %}";
    assert_eq!(
        render_prompt(template, &issue, 0),
        Ok("PROJ-7: Fix login [Todo] Users cannot log in.".to_string())
    );
    assert_eq!(
        render_prompt(template, &issue, 2),
        Ok("PROJ-7: Fix login [Todo] Users cannot log in. retry #2".to_string())
    );
}

#[test]
fn prompt_errors_name_their_stage() {
    let issue = prompt_issue();
    let broken = render_prompt("{% if %}", &issue, 0).unwrap_err();
    assert!(broken.starts_with("Jinja template error: "), "{}", broken);
    let failing = render_prompt("{{ issue.title | no_such_filter }}", &issue, 0).unwrap_err();
    assert!(
        failing.starts_with("Jinja template error: ") || failing.starts_with("Failed to render prompt: "),
        "{}",
        failing
    );
    let missing_loop = render_prompt("{% for x in 42 %}{{ x }}{% endfor %}", &issue, 0).unwrap_err();
    assert!(missing_loop.starts_with("Failed to render prompt: "), "{}", missing_loop);
    assert_eq!(rendered_prompt(Ok("p".to_string())), Ok("p".to_string()));
    assert_eq!(
        rendered_prompt(Err("bad".to_string())),
        Err("Failed to render prompt: bad".to_string())
    );
}

#[test]
fn initialize_errors_end_the_run() {
    assert_eq!(initialize_outcome(None), Ok(()));
    assert_eq!(
        initialize_outcome(Some("{\"code\":1}".to_string())),
        Err("Initialize error: {\"code\":1}".to_string())
    );
}

fn agent(kind: AgentMessage) -> TurnEvent {
    TurnEvent::Agent { kind, error_message: None }
}

#[test]
fn turn_completes_only_on_turn_completed() {
    let start = TurnState::start(5_000);
    let (next, action) = turn_step(start, agent(AgentMessage::TurnCompleted));
    assert!(next.finished);
    assert!(matches!(action, TurnAction::Finish(Ok(()))));
    let (next, action) = turn_step(start, TurnEvent::OutputEnded);
    assert!(next.finished);
    assert!(matches!(
        action,
        TurnAction::Finish(Err(ref e)) if e == "Agent output ended before the turn completed"
    ));
    let (after, action) = turn_step(next, agent(AgentMessage::TurnCompleted));
    assert_eq!(after, next);
    assert!(matches!(action, TurnAction::KeepReading));
}

#[test]
fn turn_failures_and_requests() {
    let start = TurnState::start(5_000);
    let failed = TurnEvent::Agent {
        kind: AgentMessage::TurnFailed,
        error_message: Some("boom".to_string()),
    };
    assert!(matches!(turn_step(start, failed).1, TurnAction::Finish(Err(ref e)) if e == "Turn failed: boom"));
    assert!(matches!(
        turn_step(start, agent(AgentMessage::TurnFailed)).1,
        TurnAction::Finish(Err(ref e)) if e == "Turn failed: Unknown failure"
    ));
    assert!(matches!(
        turn_step(start, agent(AgentMessage::InputRequired)).1,
        TurnAction::Finish(Err(ref e)) if e == "turn_input_required"
    ));
    assert!(matches!(turn_step(start, agent(AgentMessage::CommandApproval)).1, TurnAction::Approve));
    assert!(matches!(turn_step(start, agent(AgentMessage::PatchApproval)).1, TurnAction::Approve));
    assert!(matches!(turn_step(start, agent(AgentMessage::ToolCall)).1, TurnAction::RunTool));
    let (same, action) = turn_step(start, agent(AgentMessage::Ignored));
    assert_eq!(same, start);
    assert!(matches!(action, TurnAction::KeepReading));
    assert!(matches!(
        turn_step(start, TurnEvent::ReadError { message: "eof".to_string() }).1,
        TurnAction::Finish(Err(ref e)) if e == "Read stream error: eof"
    ));
}

#[test]
fn silence_times_out_after_the_turn_timeout() {
    let start = TurnState::start(5_000);
    let (same, action) = turn_step(start, TurnEvent::Idle { idle_ms: 5_000 });
    assert_eq!(same, start);
    assert!(matches!(action, TurnAction::KeepReading));
    let (done, action) = turn_step(start, TurnEvent::Idle { idle_ms: 5_001 });
    assert!(done.finished);
    assert!(matches!(action, TurnAction::Finish(Err(ref e)) if e == "Turn execution timed out"));
}

#[test]
fn prompt_sees_every_issue_field() {
    let mut issue = prompt_issue();
    issue.url = Some("https://t/PROJ-7".to_string());
    issue.labels = vec!["bug".to_string(), "ui".to_string()];
    issue.blocked_by = vec![BlockerRef {
        id: "b1".to_string(),
        identifier: "PROJ-1".to_string(),
        state: None,
    }];
    let template = "{{ issue.url }} p{{ issue.priority }} {{ issue.labels | join(\",\") }} {{ issue.blocked_by[0].identifier }} {{ issue.assigned_to_worker }} {{ issue.branch_name }}";
    assert_eq!(
        render_prompt(template, &issue, 0),
        Ok("https://t/PROJ-7 p2 bug,ui PROJ-1 True None".to_string())
    );
}

#[test]
fn prompt_context_is_json_of_the_issue() {
    let mut issue = prompt_issue();
    issue.title = "say \"hi\"\\\n".to_string();
    let json = issue_json_text(&issue);
    assert!(json.starts_with("{\"id\":\"id-1\",\"identifier\":\"PROJ-7\",\"title\":\"say \\\"hi\\\"\\\\\\u000a\","));
    let parsed: serde_json::Value = serde_json::from_str(&prompt_context(&issue, 3)).unwrap();
    assert_eq!(parsed["issue"]["title"], "say \"hi\"\\\n");
    assert_eq!(parsed["attempt"], 3);
    assert_eq!(parsed["issue"]["priority"], 2);
    assert_eq!(parsed["issue"]["labels"], serde_json::Value::Array(vec![]));
}
