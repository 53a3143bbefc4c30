use skrvm::agent_runner::{AgentUpdate, TokenDelta};
use skrvm::config::Settings;
use skrvm::orchestrator::{
    archive_dir_for, dispatch_order, history_file_name, priority_rank, retry_delay_ms, should_schedule_success_continuation,
    DispatchStep, OrchestratorState, ReconcileStep, RetryStep, RunningEntry, WorkerTrack,
};
use skrvm::tracker::{BlockerRef, Issue};

fn test_settings() -> Settings {
    Settings::defaults_in("/tmp")
}

fn ticket(id: &str, title: &str) -> Issue {
    Issue {
        id: id.to_string(),
        identifier: "PROJ-1".to_string(),
        title: title.to_string(),
        description: None,
        priority: None,
        state: "Todo".to_string(),
        branch_name: None,
        url: None,
        assignee_id: None,
        blocked_by: vec![],
        labels: vec![],
        assigned_to_worker: true,
        created_at: None,
        updated_at: None,
    }
}

fn ranked(id: &str, priority: Option<i64>, created_at: Option<&str>) -> Issue {
    let mut i = ticket(id, "t");
    i.priority = priority;
    i.created_at = created_at.map(|c| c.to_string());
    i
}

#[test]
fn test_success_continuation_disabled_for_oneshot() {
    let mut settings = test_settings();
    settings.codex.protocol = "oneshot".to_string();
    assert!(!should_schedule_success_continuation(&settings));
}

#[test]
fn test_success_continuation_enabled_for_jsonrpc() {
    let mut settings = test_settings();
    settings.codex.protocol = "jsonrpc".to_string();
    assert!(should_schedule_success_continuation(&settings));
}

#[test]
fn test_should_dispatch_basic_eligibility() {
    let settings = test_settings();
    let orch = OrchestratorState::new(&settings);
    let issue = ticket("issue-1", "Test ticket");
    assert!(orch.should_dispatch(&issue, &settings));

    let mut unassigned = issue.clone();
    unassigned.assigned_to_worker = false;
    assert!(!orch.should_dispatch(&unassigned, &settings));
}

#[test]
fn test_should_dispatch_exclusions() {
    let settings = test_settings();
    let mut orch = OrchestratorState::new(&settings);
    let issue = ticket("issue-1", "Test ticket");

    orch.claimed.push("issue-1".to_string());
    assert!(!orch.should_dispatch(&issue, &settings));

    orch.claimed.clear();
    orch.completed.push("issue-1".to_string());
    assert!(!orch.should_dispatch(&issue, &settings));
}

#[test]
fn test_should_dispatch_upstream_blocker() {
    let settings = test_settings();
    let orch = OrchestratorState::new(&settings);

    let mut blocked_issue = ticket("issue-1", "Blocked ticket");
    blocked_issue.blocked_by = vec![BlockerRef {
        id: "issue-2".to_string(),
        identifier: "PROJ-2".to_string(),
        state: Some("In Progress".to_string()),
    }];
    assert!(!orch.should_dispatch(&blocked_issue, &settings));

    let mut cleared_issue = ticket("issue-1", "Blocked ticket");
    cleared_issue.blocked_by = vec![BlockerRef {
        id: "issue-2".to_string(),
        identifier: "PROJ-2".to_string(),
        state: Some("Done".to_string()),
    }];
    assert!(orch.should_dispatch(&cleared_issue, &settings));
}

#[test]
fn blockers_only_hold_todo_issues() {
    let settings = test_settings();
    let orch = OrchestratorState::new(&settings);
    let mut issue = ticket("issue-3", "In flight");
    issue.state = "In Progress".to_string();
    issue.blocked_by = vec![BlockerRef {
        id: "issue-2".to_string(),
        identifier: "PROJ-2".to_string(),
        state: Some("In Progress".to_string()),
    }];
    assert!(orch.should_dispatch(&issue, &settings));
    issue.state = "Backlog".to_string();
    assert!(!orch.should_dispatch(&issue, &settings));
}

#[test]
fn per_state_cap_limits_dispatch() {
    let mut settings = test_settings();
    settings.agent.max_concurrent_agents_by_state =
        vec![skrvm::config::StateLimit { state: "todo".to_string(), limit: 1 }];
    let mut orch = OrchestratorState::new(&settings);
    let first = ticket("issue-1", "one");
    assert!(orch.should_dispatch(&first, &settings));
    orch.claim("issue-1");
    orch.register_running(RunningEntry::started(first, "/w/1".to_string(), 0, "t0".to_string()));
    assert_eq!(orch.available_slots(), 9);
    assert!(orch.has_free_slot());
    let mut one = settings.clone();
    one.agent.max_concurrent_agents = 1;
    let mut capped = orch.clone();
    capped.apply_reloaded_settings(&one);
    assert!(!capped.has_free_slot());
    assert_eq!(capped.available_slots(), 0);
    let second = ticket("issue-2", "two");
    assert!(!orch.should_dispatch(&second, &settings));
    let mut third = ticket("issue-3", "three");
    third.state = "In Progress".to_string();
    assert!(orch.should_dispatch(&third, &settings));
}

#[test]
fn priority_ranks() {
    assert_eq!(priority_rank(Some(1)), 1);
    assert_eq!(priority_rank(Some(4)), 4);
    assert_eq!(priority_rank(Some(0)), 5);
    assert_eq!(priority_rank(Some(9)), 5);
    assert_eq!(priority_rank(None), 5);
}

#[test]
fn dispatch_order_sorts_by_rank_then_age_stably() {
    let candidates = vec![
        ranked("a", None, Some("2026-01-01")),
        ranked("b", Some(2), Some("2026-03-01")),
        ranked("c", Some(2), Some("2026-02-01")),
        ranked("d", Some(1), None),
        ranked("e", Some(7), None),
        ranked("f", Some(2), Some("2026-02-01")),
        ranked("g", Some(2), None),
    ];
    let ids: Vec<String> = dispatch_order(candidates).into_iter().map(|i| i.id).collect();
    assert_eq!(ids, vec!["d", "g", "c", "f", "b", "e", "a"]);
}

#[test]
fn retry_backoff_doubles_up_to_cap() {
    assert_eq!(retry_delay_ms(1, 300_000), 10_000);
    assert_eq!(retry_delay_ms(2, 300_000), 20_000);
    assert_eq!(retry_delay_ms(5, 300_000), 160_000);
    assert_eq!(retry_delay_ms(6, 300_000), 300_000);
    assert_eq!(retry_delay_ms(51, 300_000), 300_000);
    assert_eq!(retry_delay_ms(1, 5_000), 5_000);
    assert_eq!(retry_delay_ms(200, 300_000), 300_000);
    assert_eq!(retry_delay_ms(usize::MAX, u64::MAX), u64::MAX);
    assert_eq!(retry_delay_ms(40, u64::MAX), 10_000 * (1u64 << 39));
    assert_eq!(retry_delay_ms(60, u64::MAX), u64::MAX);
}

fn started_state(settings: &Settings, issue: &Issue) -> OrchestratorState {
    let mut orch = OrchestratorState::new(settings);
    orch.claim(&issue.id);
    orch.register_running(RunningEntry::started(issue.clone(), "/w".to_string(), 0, "t0".to_string()));
    orch
}

fn update(issue_id: &str, tokens: Option<(i64, i64, i64)>) -> AgentUpdate {
    AgentUpdate {
        issue_id: issue_id.to_string(),
        event: "turn_completed".to_string(),
        timestamp: "t1".to_string(),
        pid: Some(42),
        session_id: Some("th-tu".to_string()),
        thread_id: Some("th".to_string()),
        turn_id: Some("tu".to_string()),
        turn_count: 1,
        message: None,
        token_delta: tokens.map(|(i, o, t)| TokenDelta { input_tokens: i, output_tokens: o, total_tokens: t }),
    }
}

#[test]
fn finished_worker_schedules_continuation_and_counts_tokens() {
    let settings = test_settings();
    let issue = ticket("issue-1", "t");
    let mut orch = started_state(&settings, &issue);
    let mut track = WorkerTrack::new();
    assert!(orch.apply_agent_update("issue-1", &update("issue-1", Some((10, 5, 15))), &mut track));
    assert!(!orch.apply_agent_update("nope", &update("nope", None), &mut track));
    assert_eq!(orch.running[0].pid, Some(42));
    assert_eq!(orch.running[0].total_tokens, 15);
    orch.finish_worker(issue, 0, Ok(()), track, &settings, 1_000, "t2".to_string());
    assert!(orch.running.is_empty());
    assert!(orch.claimed.is_empty());
    assert_eq!(orch.completed, vec!["issue-1".to_string()]);
    assert_eq!(orch.retry_attempts.len(), 1);
    assert_eq!(orch.retry_attempts[0].due_at_ms, 2_000);
    assert_eq!(orch.retry_attempts[0].attempt, 0);
    assert_eq!(orch.codex_totals.total_tokens, 15);
}

#[test]
fn failed_worker_schedules_backoff_retry() {
    let settings = test_settings();
    let issue = ticket("issue-1", "t");
    let mut orch = started_state(&settings, &issue);
    orch.finish_worker(issue, 2, Err("boom".to_string()), WorkerTrack::new(), &settings, 1_000, "t2".to_string());
    assert!(orch.completed.is_empty());
    assert_eq!(orch.retry_attempts[0].attempt, 3);
    assert_eq!(orch.retry_attempts[0].due_at_ms, 41_000);
    assert_eq!(orch.retry_attempts[0].error, Some("boom".to_string()));
}

#[test]
fn worker_waiting_for_input_blocks_issue_until_released() {
    let settings = test_settings();
    let issue = ticket("issue-1", "t");
    let mut orch = started_state(&settings, &issue);
    orch.finish_worker(
        issue.clone(),
        0,
        Err("turn_input_required".to_string()),
        WorkerTrack::new(),
        &settings,
        1_000,
        "t2".to_string(),
    );
    assert_eq!(orch.blocked.len(), 1);
    assert_eq!(orch.blocked[0].error, "Operator manual input required");
    assert_eq!(orch.claimed, vec!["issue-1".to_string()]);
    assert!(!orch.should_dispatch(&issue, &settings));
    assert_eq!(orch.unblock_issue("issue-1"), Ok(()));
    assert!(orch.should_dispatch(&issue, &settings));
    assert_eq!(
        orch.unblock_issue("issue-1"),
        Err("Issue is not currently in a blocked state".to_string())
    );
}

#[test]
fn due_retries_are_settled() {
    let settings = test_settings();
    let issue = ticket("issue-1", "t");
    let mut orch = started_state(&settings, &issue);
    orch.finish_worker(issue.clone(), 0, Err("x".to_string()), WorkerTrack::new(), &settings, 0, "t".to_string());
    assert!(orch.due_retry_ids(9_999).is_empty());
    assert_eq!(orch.due_retry_ids(10_000), vec!["issue-1".to_string()]);
    assert_eq!(orch.settle_retry(&issue, &settings), RetryStep::Redispatch(1));
    assert!(orch.retry_attempts.is_empty());
    let mut done = issue.clone();
    done.state = "Done".to_string();
    assert_eq!(orch.settle_retry(&done, &settings), RetryStep::CleanupWorkspace);
    assert_eq!(orch.completed, vec!["issue-1".to_string()]);
}

#[test]
fn reconciliation_steps() {
    let settings = test_settings();
    let issue = ticket("issue-1", "t");
    let mut orch = started_state(&settings, &issue);
    let mut renamed = issue.clone();
    renamed.title = "renamed".to_string();
    assert_eq!(orch.reconcile_running_issue(renamed, &settings), ReconcileStep::Refresh);
    assert_eq!(orch.running[0].issue.title, "renamed");
    let mut closed = issue.clone();
    closed.state = "Closed".to_string();
    assert_eq!(orch.reconcile_running_issue(closed, &settings), ReconcileStep::TerminateAndCleanup);
    assert!(orch.running.is_empty());
    assert!(orch.claimed.is_empty());
    let mut other = issue.clone();
    other.state = "Backlog".to_string();
    assert_eq!(orch.reconcile_blocked_issue(other, &settings), ReconcileStep::Terminate);
}

#[test]
fn history_files_and_archive_locations() {
    assert_eq!(history_file_name("issue-1", 0), "issue-1-attempt-0.jsonl");
    assert_eq!(history_file_name("abc", 12), "abc-attempt-12.jsonl");
    assert_eq!(archive_dir_for(&Some("/home/u".to_string()), "/tmp"), "/home/u/.skrvm/archive");
    assert_eq!(archive_dir_for(&None, "/tmp"), "/tmp/skrvm_archive");
}

#[test]
fn finish_is_defined_guards_overflow() {
    let settings = test_settings();
    let issue = ticket("issue-1", "t");
    let orch = started_state(&settings, &issue);
    let track = WorkerTrack::new();
    assert!(orch.finish_is_defined(0, &Ok(()), &track, &settings, 5));
    assert!(!orch.finish_is_defined(0, &Ok(()), &track, &settings, u64::MAX));
    assert!(orch.finish_is_defined(50, &Err("x".to_string()), &track, &settings, 0));
    assert!(orch.finish_is_defined(51, &Err("x".to_string()), &track, &settings, 0));
    assert!(orch.finish_is_defined(1_000, &Err("x".to_string()), &track, &settings, 0));
    assert!(!orch.finish_is_defined(usize::MAX, &Err("x".to_string()), &track, &settings, 0));
    assert!(!orch.finish_is_defined(3, &Err("x".to_string()), &track, &settings, u64::MAX));
    assert!(orch.finish_is_defined(99, &Err("turn_input_required".to_string()), &track, &settings, 0));
    let mut big = WorkerTrack::new();
    big.final_tokens.total_tokens = i64::MAX;
    let mut orch2 = started_state(&settings, &issue);
    orch2.codex_totals.total_tokens = 1;
    assert!(!orch2.finish_is_defined(0, &Ok(()), &big, &settings, 0));
}

#[test]
fn due_retry_waits_for_a_free_slot() {
    let mut settings = test_settings();
    settings.agent.max_concurrent_agents = 1;
    let issue = ticket("issue-1", "t");
    let mut orch = started_state(&settings, &issue);
    orch.finish_worker(issue.clone(), 0, Err("x".to_string()), WorkerTrack::new(), &settings, 0, "t".to_string());
    let other = ticket("issue-2", "u");
    orch.claim("issue-2");
    orch.register_running(RunningEntry::started(other.clone(), "/w/2".to_string(), 0, "t1".to_string()));
    assert!(!orch.has_free_slot());
    assert_eq!(orch.settle_retry(&issue, &settings), RetryStep::Defer);
    assert_eq!(orch.retry_attempts.len(), 1);
    assert_eq!(orch.retry_attempts[0].attempt, 1);
    assert_eq!(orch.due_retry_ids(10_000), vec!["issue-1".to_string()]);
    orch.finish_worker(other, 0, Ok(()), WorkerTrack::new(), &settings, 20_000, "t2".to_string());
    assert!(orch.has_free_slot());
    assert_eq!(orch.settle_retry(&issue, &settings), RetryStep::Redispatch(1));
    assert!(orch.retry_attempts.iter().all(|r| r.issue_id != "issue-1"));
}


#[test]
fn long_failing_issue_keeps_capped_backoff() {
    let settings = test_settings();
    let issue = ticket("issue-1", "t");
    let mut orch = started_state(&settings, &issue);
    orch.finish_worker(issue.clone(), 120, Err("x".to_string()), WorkerTrack::new(), &settings, 7, "t".to_string());
    assert_eq!(orch.retry_attempts[0].attempt, 121);
    assert_eq!(orch.retry_attempts[0].due_at_ms, 7 + settings.agent.max_retry_backoff_ms);
}

#[test]
fn issue_with_pending_retry_stays_eligible() {
    let settings = test_settings();
    let issue = ticket("issue-1", "t");
    let mut orch = started_state(&settings, &issue);
    orch.finish_worker(issue.clone(), 0, Err("x".to_string()), WorkerTrack::new(), &settings, 0, "t".to_string());
    assert_eq!(orch.retry_attempts.len(), 1);
    assert!(orch.should_dispatch(&issue, &settings));
}

#[test]
fn poll_dispatches_eligible_candidates_in_order_while_slots_last() {
    let mut settings = test_settings();
    settings.agent.max_concurrent_agents = 2;
    let mut orch = OrchestratorState::new(&settings);
    let mut blocked = ticket("a", "blocked");
    blocked.assigned_to_worker = false;
    let ordered = vec![blocked, ticket("b", "first"), ticket("c", "second"), ticket("d", "third")];
    assert_eq!(orch.next_dispatch(&ordered, 0, &settings), DispatchStep::Dispatch(1));
    orch.claim("b");
    orch.register_running(RunningEntry::started(ordered[1].clone(), "/w/b".to_string(), 0, "t".to_string()));
    assert_eq!(orch.next_dispatch(&ordered, 2, &settings), DispatchStep::Dispatch(2));
    orch.claim("c");
    orch.register_running(RunningEntry::started(ordered[2].clone(), "/w/c".to_string(), 0, "t".to_string()));
    assert_eq!(orch.next_dispatch(&ordered, 3, &settings), DispatchStep::Stop);
    assert_eq!(orch.next_dispatch(&ordered, 4, &settings), DispatchStep::Stop);
}

#[test]
fn fetched_candidates_become_the_backlog() {
    let settings = test_settings();
    let mut orch = OrchestratorState::new(&settings);
    assert!(orch.record_candidates(Ok(vec![ticket("a", "t")])));
    assert_eq!(orch.backlog.len(), 1);
    assert!(!orch.record_candidates(Err("boom".to_string())));
    assert_eq!(orch.backlog.len(), 1);
    assert_eq!(orch.last_error, Some("Failed to fetch tracker candidates: boom".to_string()));
}
