use skrvm::config::Settings;
use skrvm::slug::{slug_is_defined, slugify, slugify_checked};
use skrvm::tracker::{
    build_candidate_jql, build_ids_jql, build_states_jql, demo_issue, get_jira_auth_header,
    github_issue_url, github_issues_page_url, i64_to_decimal, jira_search_done, jira_search_url,
    linear_assignee_filter, map_jira_priority, normalize_github_issue, normalize_issue,
    normalize_github_issue_checked, normalize_issue_checked, normalize_jira_issue,
    normalize_jira_issue_checked, linear_next_cursor, order_by_ids, retain_listed_states, AssigneeFilter, BlockerIssueNode,
    GitHubIssue, InverseRelationNode, Issue, IssueNode, JiraIssueLink, JiraIssueNode,
    JiraSubIssue, MemoryTrackerState,
};

fn github_settings(assignee: Option<&str>) -> Settings {
    let mut config = Settings::defaults_in("/tmp");
    config.tracker.kind = "github".to_string();
    config.tracker.active_states = vec!["Todo".to_string(), "In Progress".to_string()];
    config.tracker.terminal_states = vec!["Done".to_string()];
    config.tracker.assignee = assignee.map(|a| a.to_string());
    config
}

fn github_node(number: i64, title: &str, state: &str, labels: &[&str]) -> GitHubIssue {
    GitHubIssue {
        number,
        title: title.to_string(),
        body: None,
        state: state.to_string(),
        html_url: format!("https://github.com/drew-simmons/skrvm/issues/{}", number),
        assignee: None,
        labels: Some(labels.iter().map(|l| l.to_string()).collect()),
        created_at: "2026-05-30T12:00:00Z".to_string(),
        updated_at: "2026-06-01T19:51:50Z".to_string(),
        pull_request: false,
    }
}

fn plain_issue(id: &str) -> Issue {
    Issue {
        id: id.to_string(),
        identifier: id.to_uppercase(),
        title: "t".to_string(),
        description: None,
        priority: None,
        state: "Todo".to_string(),
        branch_name: None,
        url: None,
        assignee_id: None,
        blocked_by: vec![],
        labels: vec![],
        assigned_to_worker: true,
        created_at: None,
        updated_at: None,
    }
}

#[test]
fn test_normalize_jira_issue() {
    let node = JiraIssueNode {
        id: "10001".to_string(),
        key: "PROJ-123".to_string(),
        summary: "Fix some bugs".to_string(),
        description: Some("We need to fix several key bugs".to_string()),
        priority: Some("High".to_string()),
        status: "Todo".to_string(),
        assignee: Some("user-456".to_string()),
        labels: Some(vec!["bug".to_string(), "frontend".to_string()]),
        created: Some("2026-05-30T12:00:00Z".to_string()),
        updated: Some("2026-05-30T12:30:00Z".to_string()),
        issuelinks: Some(vec![JiraIssueLink {
            link_type: "Blocks".to_string(),
            inward_issue: Some(JiraSubIssue {
                id: "10002".to_string(),
                key: "PROJ-124".to_string(),
                status: "In Progress".to_string(),
            }),
        }]),
    };
    let issue = normalize_jira_issue(node, Some("user-456"));

    assert_eq!(issue.id, "10001");
    assert_eq!(issue.identifier, "PROJ-123");
    assert_eq!(issue.title, "Fix some bugs");
    assert_eq!(
        issue.description,
        Some("We need to fix several key bugs".to_string())
    );
    assert_eq!(issue.priority, Some(2));
    assert_eq!(issue.state, "Todo");
    assert_eq!(
        issue.branch_name,
        Some("feature/issue-proj-123-fix-some-bugs".to_string())
    );
    assert_eq!(issue.assignee_id, Some("user-456".to_string()));
    assert_eq!(issue.assigned_to_worker, true);
    assert_eq!(
        issue.labels,
        vec!["bug".to_string(), "frontend".to_string()]
    );
    assert_eq!(issue.blocked_by.len(), 1);
    assert_eq!(issue.blocked_by[0].id, "10002");
    assert_eq!(issue.blocked_by[0].identifier, "PROJ-124");
    assert_eq!(issue.blocked_by[0].state, Some("In Progress".to_string()));
}

#[test]
fn test_normalize_github_issue() {
    let config = github_settings(Some("drew-simmons"));
    let mut node = github_node(42, "Fix alignment", "open", &["In Progress"]);
    node.body = Some("The alignment is off".to_string());
    node.assignee = Some("drew-simmons".to_string());
    node.updated_at = "2026-05-30T12:30:00Z".to_string();
    let issue = normalize_github_issue(node, &config);

    assert_eq!(issue.id, "42");
    assert_eq!(issue.identifier, "42");
    assert_eq!(issue.title, "Fix alignment");
    assert_eq!(issue.description, Some("The alignment is off".to_string()));
    assert_eq!(issue.state, "In Progress");
    assert_eq!(
        issue.branch_name,
        Some("feature/issue-42-fix-alignment".to_string())
    );
    assert_eq!(issue.assignee_id, Some("drew-simmons".to_string()));
    assert_eq!(issue.assigned_to_worker, true);
    assert_eq!(issue.labels, vec!["In Progress".to_string()]);
}

#[test]
fn test_normalize_github_closed_issue_is_terminal() {
    let config = github_settings(None);
    let node = github_node(11, "Bump setup-node", "closed", &["In Progress"]);
    let issue = normalize_github_issue(node, &config);
    assert_eq!(issue.state, "Done");
}

#[test]
fn test_normalize_github_terminal_label_wins_over_active_label() {
    let config = github_settings(None);
    let node = github_node(12, "Bump pnpm/action-setup", "open", &["Todo", "Done"]);
    let issue = normalize_github_issue(node, &config);
    assert_eq!(issue.state, "Done");
}

#[test]
fn github_issue_without_labels_takes_first_active_state() {
    let config = github_settings(Some("Someone"));
    let mut node = github_node(7, "Plain", "open", &[]);
    node.assignee = Some("someone".to_string());
    let issue = normalize_github_issue(node, &config);
    assert_eq!(issue.state, "Todo");
    assert!(issue.assigned_to_worker);
    let mut other = github_node(8, "Other", "OPEN", &["done"]);
    other.assignee = Some("else".to_string());
    let issue = normalize_github_issue(other, &config);
    assert_eq!(issue.state, "Done");
    assert!(!issue.assigned_to_worker);
}

#[test]
fn normalize_linear_issue_defaults_and_blockers() {
    let node = IssueNode {
        id: "lin-1".to_string(),
        identifier: "ENG-7".to_string(),
        title: "Add OAuth login!".to_string(),
        description: None,
        priority: Some(3),
        state: None,
        branch_name: None,
        url: Some("https://linear.app/x".to_string()),
        assignee: Some("u-1".to_string()),
        labels: Some(vec!["Backend".to_string(), "URGENT".to_string()]),
        inverse_relations: Some(vec![
            InverseRelationNode {
                relation_type: "blocks".to_string(),
                issue: Some(BlockerIssueNode {
                    id: "lin-0".to_string(),
                    identifier: "ENG-6".to_string(),
                    state: Some("In Progress".to_string()),
                }),
            },
            InverseRelationNode {
                relation_type: "related".to_string(),
                issue: Some(BlockerIssueNode {
                    id: "lin-9".to_string(),
                    identifier: "ENG-9".to_string(),
                    state: None,
                }),
            },
        ]),
        created_at: None,
        updated_at: None,
    };
    let issue = normalize_issue(node, Some("u-2")).unwrap();
    assert_eq!(issue.state, "Todo");
    assert_eq!(issue.branch_name, Some("feature/issue-eng-7-add-oauth-login".to_string()));
    assert_eq!(issue.labels, vec!["backend".to_string(), "urgent".to_string()]);
    assert_eq!(issue.blocked_by.len(), 1);
    assert_eq!(issue.blocked_by[0].identifier, "ENG-6");
    assert!(!issue.assigned_to_worker);
    assert_eq!(issue.priority, Some(3));
}

#[test]
fn jira_priorities_map_onto_ranks() {
    assert_eq!(map_jira_priority("Highest"), 1);
    assert_eq!(map_jira_priority("High"), 2);
    assert_eq!(map_jira_priority("MEDIUM"), 3);
    assert_eq!(map_jira_priority("low"), 4);
    assert_eq!(map_jira_priority("Lowest"), 4);
    assert_eq!(map_jira_priority("Whatever"), 3);
}

#[test]
fn jira_auth_header_schemes() {
    assert_eq!(get_jira_auth_header("user:tok"), "Basic dXNlcjp0b2s=");
    assert_eq!(get_jira_auth_header("  secret-token  "), "Bearer secret-token");
    assert_eq!(get_jira_auth_header("Basic abc"), "Basic abc");
    assert_eq!(get_jira_auth_header("Bearer xyz "), "Bearer xyz");
    assert_eq!(get_jira_auth_header(" a:b "), "Basic YTpi");
    assert_eq!(get_jira_auth_header("a:"), "Basic YTo=");
    assert_eq!(get_jira_auth_header("é:1"), "Basic w6k6MQ==");
    assert_eq!(get_jira_auth_header("tok"), "Bearer tok");
}

#[test]
fn slugs_are_lowercase_dash_separated_and_short() {
    assert_eq!(slugify("Fix some bugs"), "fix-some-bugs");
    assert_eq!(slugify("  --Hello,   World!!  "), "hello-world");
    assert_eq!(slugify("Café déjà vu"), "café-déjà-vu");
    let long = slugify("This title is definitely much longer than fifty bytes in total length");
    assert_eq!(long, "this-title-is-definitely-much-longer-than-fifty-by");
    assert!(long.len() <= 50);
    assert_eq!(slugify("abcdefghij abcdefghij abcdefghij abcdefghij abcde fgh"), "abcdefghij-abcdefghij-abcdefghij-abcdefghij-abcde");
    assert_eq!(slugify("!!!"), "");
}

#[test]
fn memory_tracker_hands_out_demo_issue_once_per_window() {
    let mut tracker = MemoryTrackerState::new();
    let first = tracker.poll_candidates(1_000);
    assert_eq!(first.len(), 1);
    assert_eq!(first[0].id, "demo-issue-1");
    assert_eq!(first[0].state, "Todo");
    assert!(tracker.poll_candidates(5_000).is_empty());
    assert!(tracker.poll_candidates(11_999).is_empty());
    assert_eq!(tracker.poll_candidates(12_000).len(), 1);
    let ids = vec!["demo-issue-1".to_string(), "other".to_string()];
    assert_eq!(tracker.issue_states(&ids, 15_999)[0].state, "Todo");
    let refreshed = tracker.issue_states(&ids, 16_000);
    assert_eq!(refreshed.len(), 1);
    assert_eq!(refreshed[0].state, "Done");
    assert_eq!(demo_issue("Done").identifier, "DEMO-101");
}

#[test]
fn linear_assignee_filters() {
    assert!(matches!(linear_assignee_filter(&Some("me".to_string())), AssigneeFilter::Viewer));
    assert!(matches!(linear_assignee_filter(&Some("u-9".to_string())), AssigneeFilter::Id(ref s) if s == "u-9"));
    assert!(matches!(linear_assignee_filter(&Some("  ".to_string())), AssigneeFilter::NoFilter));
    assert!(matches!(linear_assignee_filter(&None), AssigneeFilter::NoFilter));
}

#[test]
fn jira_queries_are_quoted() {
    let mut settings = Settings::defaults_in("/tmp");
    settings.tracker.project_slug = "PROJ".to_string();
    settings.tracker.active_states = vec!["Todo".to_string(), "Won't Do".to_string()];
    settings.tracker.assignee = Some("me".to_string());
    assert_eq!(
        build_candidate_jql(&settings),
        "project = 'PROJ' AND status in ('Todo', 'Won\\'t Do') AND assignee = currentUser() ORDER BY created ASC"
    );
    settings.tracker.active_states = vec![];
    settings.tracker.assignee = Some("bob".to_string());
    assert_eq!(
        build_candidate_jql(&settings),
        "project = 'PROJ' AND assignee = 'bob' ORDER BY created ASC"
    );
    assert_eq!(
        build_ids_jql(&vec!["1".to_string(), "2".to_string()]),
        "id in ('1', '2')"
    );
    assert_eq!(
        build_states_jql("P", &vec!["Done".to_string()]),
        "project = 'P' AND status in ('Done') ORDER BY created ASC"
    );
    settings.tracker.project_slug = "O'B".to_string();
    settings.tracker.assignee = Some("d'a".to_string());
    assert_eq!(
        build_candidate_jql(&settings),
        "project = 'O'B' AND assignee = 'd\\'a' ORDER BY created ASC"
    );
}

#[test]
fn jira_search_urls() {
    assert_eq!(jira_search_url("https://x.atlassian.net"), "https://x.atlassian.net/rest/api/2/search");
    assert_eq!(jira_search_url("https://x.atlassian.net/"), "https://x.atlassian.net/rest/api/2/search");
    assert_eq!(jira_search_url("https://x/rest/api/3"), "https://x/rest/api/3/search");
    assert_eq!(jira_search_url("https://x/rest/api/3/search"), "https://x/rest/api/3/search");
    assert!(jira_search_done(0, 50, 50));
    assert!(!jira_search_done(0, 50, 51));
    assert!(jira_search_done(50, 0, 100));
}

#[test]
fn github_urls_and_numbers() {
    assert_eq!(
        github_issues_page_url("https://api.github.com", "o/r", 3),
        "https://api.github.com/repos/o/r/issues?state=all&per_page=50&page=3"
    );
    assert_eq!(
        github_issue_url("https://api.github.com", "o/r", "42"),
        "https://api.github.com/repos/o/r/issues/42"
    );
    assert_eq!(i64_to_decimal(0), "0");
    assert_eq!(i64_to_decimal(-1205), "-1205");
    assert_eq!(i64_to_decimal(i64::MIN), "-9223372036854775808");
}

#[test]
fn issues_filtered_by_state_and_ordered_by_ids() {
    let mut a = plain_issue("a");
    a.state = "done".to_string();
    let mut b = plain_issue("b");
    b.state = "Open".to_string();
    let c = plain_issue("c");
    let kept = retain_listed_states(vec![a, b, c], &vec!["Done".to_string(), "Todo".to_string()]);
    let ids: Vec<String> = kept.iter().map(|i| i.id.clone()).collect();
    assert_eq!(ids, vec!["a", "c"]);
    let ordered = order_by_ids(
        vec![plain_issue("x"), plain_issue("y"), plain_issue("z")],
        &vec!["z".to_string(), "x".to_string()],
    );
    let ids: Vec<String> = ordered.iter().map(|i| i.id.clone()).collect();
    assert_eq!(ids, vec!["z", "x", "y"]);
}

#[test]
fn titles_whose_slug_cut_splits_a_character_are_refused() {
    let bad = format!("{}é", "a".repeat(49));
    assert!(!slug_is_defined(&bad));
    assert_eq!(slugify_checked(&bad), None);
    let good = format!("{}é", "a".repeat(48));
    assert_eq!(slugify_checked(&good), Some(good.clone()));
    let node = JiraIssueNode {
        id: "1".to_string(),
        key: "K-1".to_string(),
        summary: bad.clone(),
        description: None,
        priority: None,
        status: "Todo".to_string(),
        assignee: None,
        labels: None,
        created: None,
        updated: None,
        issuelinks: None,
    };
    assert!(normalize_jira_issue_checked(node.clone(), None).is_none());
    let mut fine = node;
    fine.summary = "Short".to_string();
    let issue = normalize_jira_issue_checked(fine, None).unwrap();
    assert_eq!(issue.branch_name, Some("feature/issue-k-1-short".to_string()));
    assert!(normalize_github_issue_checked(github_node(5, &bad, "open", &[]), &github_settings(None)).is_none());
    let linear = IssueNode {
        id: "l".to_string(),
        identifier: "L-1".to_string(),
        title: bad,
        description: None,
        priority: None,
        state: None,
        branch_name: Some("own-branch".to_string()),
        url: None,
        assignee: None,
        labels: None,
        inverse_relations: None,
        created_at: None,
        updated_at: None,
    };
    let issue = normalize_issue_checked(linear.clone(), None).unwrap();
    assert_eq!(issue.branch_name, Some("own-branch".to_string()));
    let mut unnamed = linear;
    unnamed.branch_name = None;
    assert!(normalize_issue_checked(unnamed, None).is_none());
}

#[test]
fn issues_of_equal_rank_keep_the_tracker_order() {
    let mut first = plain_issue("p");
    first.title = "first".to_string();
    let mut second = plain_issue("p");
    second.title = "second".to_string();
    let ordered = order_by_ids(
        vec![plain_issue("u"), first, plain_issue("v"), second],
        &vec!["p".to_string()],
    );
    let seen: Vec<(String, String)> = ordered.iter().map(|i| (i.id.clone(), i.title.clone())).collect();
    assert_eq!(seen[0], ("p".to_string(), "first".to_string()));
    assert_eq!(seen[1], ("p".to_string(), "second".to_string()));
    assert_eq!(seen[2].0, "u");
    assert_eq!(seen[3].0, "v");
}

#[test]
fn slugs_have_no_double_dash() {
    assert_eq!(slugify("a -- b"), "a-b");
    assert_eq!(slugify("x - - - y"), "x-y");
    assert!(!slugify("Fix: the -- thing / now").contains("--"));
}

#[test]
fn linear_pages_continue_while_a_cursor_is_given() {
    assert_eq!(linear_next_cursor(true, Some("c1".to_string())), Some("c1".to_string()));
    assert_eq!(linear_next_cursor(true, None), None);
    assert_eq!(linear_next_cursor(false, Some("c1".to_string())), None);
}
