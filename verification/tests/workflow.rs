use skrvm::commands::workflow_file_content;
use skrvm::config::{EnvVars, Settings};
use skrvm::workflow::{complete_workflow, split_front_matter, ReloadTracker};

#[test]
fn test_split_front_matter_valid() {
    let content = r#"---
tracker:
  kind: "memory"
---
This is the prompt template content
Line 2"#;
    let (front, prompt) = split_front_matter(content);
    assert_eq!(front.trim(), "tracker:\n  kind: \"memory\"");
    assert_eq!(prompt.trim(), "This is the prompt template content\nLine 2");
}

#[test]
fn test_split_front_matter_none() {
    let content = "Only prompt template content";
    let (front, prompt) = split_front_matter(content);
    assert!(front.is_empty());
    assert_eq!(prompt, content);
}

#[test]
fn split_front_matter_without_closing_delimiter() {
    let (front, prompt) = split_front_matter("---\na: 1\nb: 2\n");
    assert_eq!(front, "a: 1\nb: 2");
    assert_eq!(prompt, "");
}

#[test]
fn split_front_matter_accepts_padded_delimiters_and_crlf() {
    let (front, prompt) = split_front_matter("  ---  \r\nkind: x\r\n --- \r\nhello\r\nworld");
    assert_eq!(front, "kind: x");
    assert_eq!(prompt, "hello\nworld");
}

#[test]
fn saved_workflow_reads_back() {
    let yaml = "tracker:\n  kind: memory\npolling:\n  interval_ms: 5000\n";
    let prompt = "Solve {{ issue.title }}\nCarefully.";
    let content = workflow_file_content(yaml, prompt);
    assert_eq!(content, format!("---\n{}---\n\n{}", yaml, prompt));
    let (front, read_prompt) = split_front_matter(&content);
    assert_eq!(front, yaml.trim_end_matches('\n'));
    assert_eq!(read_prompt.trim(), prompt);
    let padded = "\r\n  Solve {{ issue.title }}\r\n";
    let (_, read_padded) = split_front_matter(&workflow_file_content(yaml, padded));
    assert_eq!(read_padded.trim(), padded.trim());
}

fn no_env() -> EnvVars {
    EnvVars { vars: Vec::new() }
}

#[test]
fn complete_workflow_trims_prompt_and_keeps_settings() {
    let settings = Settings::defaults_in("/tmp");
    let w = complete_workflow(settings, "\n  Elite agent: {{ issue.title }}  \n", "/work", &no_env(), &None)
        .unwrap();
    assert_eq!(w.prompt_template, "Elite agent: {{ issue.title }}");
    assert_eq!(w.config.tracker.kind, "memory");
    assert_eq!(w.config.codex.command, "codex app-server");
}

#[test]
fn complete_workflow_uses_default_prompt_when_blank() {
    let settings = Settings::defaults_in("/tmp");
    let w = complete_workflow(settings, "   \n", "/work", &no_env(), &None).unwrap();
    assert!(w.prompt_template.starts_with("You are working on a Linear issue."));
}

#[test]
fn complete_workflow_resolves_relative_command() {
    let mut settings = Settings::defaults_in("/tmp");
    settings.codex.command = "./scratch/mock_agent.sh".to_string();
    let w = complete_workflow(settings, "Prompt", "/work/dir", &no_env(), &None).unwrap();
    assert_eq!(w.config.codex.command, "/work/dir/./scratch/mock_agent.sh");
}

#[test]
fn complete_workflow_reports_validation_error() {
    let mut settings = Settings::defaults_in("/tmp");
    settings.tracker.kind = "linear".to_string();
    settings.tracker.api_key = None;
    let r = complete_workflow(settings, "Prompt", "/work", &no_env(), &None);
    assert_eq!(
        r.err(),
        Some("Missing Linear API token. Export LINEAR_API_KEY or set tracker.api_key".to_string())
    );
}

#[test]
fn reload_tracker_reads_only_changed_files() {
    let mut t = ReloadTracker::new();
    assert!(t.needs_read(100, 10));
    assert!(!t.content_unchanged(0));
    t.record_loaded(100, 10, 77);
    assert!(!t.needs_read(100, 10));
    assert!(t.needs_read(101, 10));
    assert!(t.needs_read(100, 11));
    assert!(t.content_unchanged(77));
    assert!(!t.content_unchanged(78));
    t.record_seen(200, 12);
    assert!(!t.needs_read(200, 12));
    assert!(t.content_unchanged(77));
}
