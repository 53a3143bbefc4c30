use skrvm::config::{expand_path, join_path, resolve_env_ref, EnvVars, Settings, StateLimit};

fn env(pairs: &[(&str, &str)]) -> EnvVars {
    EnvVars {
        vars: pairs.iter().map(|(k, v)| (k.to_string(), v.to_string())).collect(),
    }
}

#[test]
fn test_default_settings_are_zero_config_valid() {
    let settings = Settings::defaults_in("/tmp");
    assert_eq!(settings.tracker.kind, "memory");
    assert!(
        settings.validate().is_ok(),
        "default settings failed validation: {:?}",
        settings.validate()
    );
}

#[test]
fn default_settings_values() {
    let s = Settings::defaults_in("/var/tmp");
    assert_eq!(s.workspace.root, "/var/tmp/skrvm_workspaces");
    assert_eq!(s.tracker.active_states, vec!["Todo", "In Progress"]);
    assert_eq!(s.tracker.terminal_states, vec!["Closed", "Cancelled", "Canceled", "Duplicate", "Done"]);
    assert_eq!(s.polling.interval_ms, 30_000);
    assert_eq!(s.agent.max_concurrent_agents, 10);
    assert_eq!(s.codex.protocol, "jsonrpc");
    assert_eq!(s.hooks.timeout_ms, 60_000);
}

#[test]
fn validation_errors_name_the_first_problem() {
    let mut s = Settings::defaults_in("/tmp");
    s.tracker.kind = String::new();
    assert_eq!(s.validate(), Err("tracker.kind is missing".to_string()));
    s.tracker.kind = "trello".to_string();
    assert_eq!(s.validate(), Err("Unsupported tracker kind: trello".to_string()));
    s.tracker.kind = "linear".to_string();
    assert_eq!(
        s.validate(),
        Err("Missing Linear API token. Export LINEAR_API_KEY or set tracker.api_key".to_string())
    );
    s.tracker.api_key = Some("k".to_string());
    assert_eq!(s.validate(), Err("Missing Linear project_slug".to_string()));
    s.tracker.project_slug = "ENG".to_string();
    assert_eq!(s.validate(), Ok(()));
    s.tracker.kind = "jira".to_string();
    s.tracker.api_key = Some(String::new());
    assert_eq!(
        s.validate(),
        Err("Missing Jira API token. Export JIRA_API_KEY or set tracker.api_key".to_string())
    );
    s.tracker.api_key = Some("k".to_string());
    s.tracker.project_slug = String::new();
    assert_eq!(s.validate(), Err("Missing Jira project_slug".to_string()));
    s.tracker.project_slug = "P".to_string();
    assert_eq!(s.validate(), Err("Missing Jira endpoint".to_string()));
    s.tracker.endpoint = "https://x.atlassian.net".to_string();
    s.codex.command = String::new();
    assert_eq!(s.validate(), Err("codex.command is empty".to_string()));
}

#[test]
fn paths_join_and_expand() {
    assert_eq!(join_path("/a", "b"), "/a/b");
    assert_eq!(join_path("/a/", "b"), "/a/b");
    assert_eq!(join_path("/a", "/b"), "/b");
    assert_eq!(join_path("", "b"), "b");
    let home = Some("/home/u".to_string());
    assert_eq!(expand_path("~/dev/ws", &home), "/home/u/dev/ws");
    assert_eq!(expand_path("~", &home), "/home/u/");
    assert_eq!(expand_path("~/x", &None), "~/x");
    assert_eq!(expand_path("/abs", &home), "/abs");
}

#[test]
fn env_references_resolve() {
    let e = env(&[("TOKEN", "abc"), ("TOKEN", "shadowed")]);
    assert_eq!(resolve_env_ref("$TOKEN", &e), Some("abc".to_string()));
    assert_eq!(resolve_env_ref("$MISSING", &e), None);
    assert_eq!(resolve_env_ref("plain", &e), Some("plain".to_string()));
    assert_eq!(e.get("TOKEN"), Some("abc".to_string()));
}

#[test]
fn finalize_resolves_keys_roots_and_commands() {
    let mut s = Settings::defaults_in("/tmp");
    s.tracker.api_key = Some("$MY_KEY".to_string());
    s.tracker.assignee = Some("$WHO".to_string());
    s.workspace.root = "~/ws".to_string();
    s.codex.command = "../bin/agent --flag".to_string();
    let e = env(&[("LINEAR_API_KEY", "fallback"), ("LINEAR_ASSIGNEE", "me")]);
    s.finalize("/proj", &e, &Some("/home/u".to_string()));
    assert_eq!(s.tracker.api_key, Some("fallback".to_string()));
    assert_eq!(s.tracker.assignee, Some("me".to_string()));
    assert_eq!(s.workspace.root, "/home/u/ws");
    assert_eq!(s.codex.command, "/proj/../bin/agent --flag");

    let mut r = Settings::defaults_in("/tmp");
    r.workspace.root = "rel/ws".to_string();
    r.finalize("/proj", &env(&[("MY_KEY", "direct")]), &None);
    assert_eq!(r.workspace.root, "/proj/rel/ws");
    assert_eq!(r.tracker.api_key, None);
}

#[test]
fn state_limits_override_global_cap() {
    let mut s = Settings::defaults_in("/tmp");
    s.agent.max_concurrent_agents_by_state = vec![
        StateLimit { state: "todo".to_string(), limit: 2 },
        StateLimit { state: "todo".to_string(), limit: 7 },
    ];
    assert_eq!(s.agent.limit_for_state("todo"), 2);
    assert_eq!(s.agent.limit_for_state("in progress"), 10);
}

#[test]
fn github_tracker_configuration_validates() {
    let mut s = Settings::defaults_in("/tmp");
    s.tracker.kind = "github".to_string();
    assert_eq!(s.validate(), Ok(()));
    s.codex.command = String::new();
    assert_eq!(s.validate(), Err("codex.command is empty".to_string()));
}

#[test]
fn finalize_resolves_slug_and_endpoint_references() {
    let mut s = Settings::defaults_in("/tmp");
    s.tracker.project_slug = "$PROJ".to_string();
    s.tracker.endpoint = "$JIRA_URL".to_string();
    s.codex.thread_sandbox = "$SANDBOX".to_string();
    s.codex.command = "$AGENT".to_string();
    s.hooks.after_run = Some("$PUSH".to_string());
    s.tracker.active_states = vec!["$ACTIVE".to_string(), "Todo".to_string()];
    s.finalize(
        "/proj",
        &env(&[
            ("PROJ", "ENG"),
            ("JIRA_URL", "https://x.atlassian.net"),
            ("SANDBOX", "read-only"),
            ("AGENT", "./bin/agent"),
            ("PUSH", "git push"),
            ("ACTIVE", "Doing"),
        ]),
        &None,
    );
    assert_eq!(s.tracker.project_slug, "ENG");
    assert_eq!(s.tracker.endpoint, "https://x.atlassian.net");
    assert_eq!(s.codex.thread_sandbox, "read-only");
    assert_eq!(s.codex.command, "/proj/./bin/agent");
    assert_eq!(s.hooks.after_run, Some("git push".to_string()));
    assert_eq!(s.tracker.active_states, vec!["Doing".to_string(), "Todo".to_string()]);

    let mut unset = Settings::defaults_in("/tmp");
    unset.tracker.project_slug = "$NOPE".to_string();
    unset.finalize("/proj", &env(&[]), &None);
    assert_eq!(unset.tracker.project_slug, "$NOPE");
}
