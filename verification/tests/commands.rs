use skrvm::commands::{
    check_canonical_setup_paths, check_distinct_setup_paths, command_first_word,
    default_workflow_content, git_output_value, list_session_histories, remote_project_info,
    transcript_access_allowed, SessionHistoryEntry,
};
use skrvm::workflow::split_front_matter;

fn session(id: &str, started_at: &str) -> SessionHistoryEntry {
    SessionHistoryEntry {
        session_id: id.to_string(),
        issue_id: "issue".to_string(),
        identifier: "ID-1".to_string(),
        title: "t".to_string(),
        attempt: 0,
        started_at: started_at.to_string(),
        file_path: format!("/w/history/{}.jsonl", id),
    }
}

#[test]
fn remote_urls_give_slug_and_tracker() {
    assert_eq!(
        remote_project_info("git@github.com:drew-simmons/skrvm.git"),
        (Some("drew-simmons/skrvm".to_string()), Some("github".to_string()))
    );
    assert_eq!(
        remote_project_info("https://gitlab.com/group/proj"),
        (Some("group/proj".to_string()), Some("gitlab".to_string()))
    );
    assert_eq!(
        remote_project_info("ssh://host:team/repo.git"),
        (Some("//host:team/repo".to_string()), None)
    );
    assert_eq!(remote_project_info(".git"), (None, None));
}

#[test]
fn git_output_is_trimmed() {
    assert_eq!(git_output_value("  main\n"), Some("main".to_string()));
    assert_eq!(git_output_value(" \n"), None);
}

#[test]
fn setup_paths_must_be_distinct_and_not_nested() {
    assert_eq!(
        check_distinct_setup_paths("/p", "/p/"),
        Err("Project directory and workspace root directory cannot be identical".to_string())
    );
    assert_eq!(check_distinct_setup_paths("/p", "/w"), Ok(()));
    assert_eq!(
        check_canonical_setup_paths("/p", "/p/ws"),
        Err("Workspace root directory cannot be inside the project directory".to_string())
    );
    assert_eq!(
        check_canonical_setup_paths("/w/p", "/w"),
        Err("Project directory cannot be inside the workspace root directory".to_string())
    );
    assert_eq!(
        check_canonical_setup_paths("/x", "/x"),
        Err("Project directory and workspace root directory cannot resolve to the same path".to_string())
    );
    assert_eq!(check_canonical_setup_paths("/a", "/b"), Ok(()));
}

#[test]
fn transcripts_must_be_archived_or_in_history() {
    assert!(transcript_access_allowed("/home/u/.skrvm/archive/a.jsonl", "/home/u/.skrvm/archive"));
    assert!(transcript_access_allowed("/ws/PROJ-1/history/a.jsonl", "/home/u/.skrvm/archive"));
    assert!(!transcript_access_allowed("/etc/passwd", "/home/u/.skrvm/archive"));
}

#[test]
fn agent_command_first_word() {
    assert_eq!(command_first_word("  codex app-server "), Ok("codex".to_string()));
    assert_eq!(command_first_word("bash\t-c x"), Ok("bash".to_string()));
    assert_eq!(command_first_word("   "), Err("Command cannot be empty".to_string()));
}

#[test]
fn seeded_workflow_points_at_the_mock_agent() {
    let content = default_workflow_content("/opt/app/mock \"agent\".sh");
    assert!(content.contains("command: \"/opt/app/mock \\\"agent\\\".sh\""));
    let (front, prompt) = split_front_matter(&content);
    assert!(front.contains("kind: \"memory\""));
    assert!(prompt.contains("{{ issue.identifier }}"));
}

#[test]
fn session_histories_are_unique_and_newest_first() {
    let found = vec![
        session("s1", "2026-01-01T00:00:00Z"),
        session("s2", "2026-03-01T00:00:00Z"),
        session("s1", "2026-09-01T00:00:00Z"),
        session("s3", "2026-02-01T00:00:00Z"),
        session("s4", "2026-03-01T00:00:00Z"),
    ];
    let ids: Vec<String> = list_session_histories(found).into_iter().map(|e| e.session_id).collect();
    assert_eq!(ids, vec!["s2", "s4", "s3", "s1"]);
}

#[test]
fn prompt_templates_are_checked_by_the_template_engine() {
    assert_eq!(skrvm::commands::verify_prompt_template("Solve {{ issue.title }}"), Ok(()));
    let err = skrvm::commands::verify_prompt_template("Solve {{ issue.title").unwrap_err();
    assert!(err.starts_with("Template syntax error: "));
    assert!(err.len() > "Template syntax error: ".len());
    assert_eq!(
        skrvm::commands::template_check_result(Err("bad".to_string())),
        Err("Template syntax error: bad".to_string())
    );
    assert_eq!(skrvm::commands::template_check_result(Ok(())), Ok(()));
}
