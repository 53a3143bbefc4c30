use skrvm::path_safety::{
    check_workspace_containment, components, path_has_component, paths_equal,
    sanitize_workspace_key, workspace_dir, WorkspaceRejection,
};

fn component_texts(p: &str) -> Vec<String> {
    components(p).into_iter().map(|c| c.into_iter().collect()).collect()
}

#[test]
fn test_sanitize_key() {
    assert_eq!(sanitize_workspace_key("ABC-123"), "ABC-123");
    assert_eq!(
        sanitize_workspace_key("feature/cool-stuff"),
        "feature_cool-stuff"
    );
    assert_eq!(sanitize_workspace_key("issues..123?"), "issues..123_");
}

#[test]
fn sanitized_key_keeps_length_and_uses_safe_characters() {
    let key = sanitize_workspace_key("a/b c:ü.d_e-f");
    assert_eq!(key, "a_b_c__.d_e-f");
    assert_eq!(key.chars().count(), "a/b c:ü.d_e-f".chars().count());
    assert_eq!(sanitize_workspace_key(&key), key);
    assert!(!key.contains('/'));
}

#[test]
fn workspace_inside_root_is_accepted() {
    assert_eq!(
        check_workspace_containment("/tmp/skrvm_root/PROJ-123", "/tmp/skrvm_root"),
        Ok(())
    );
    assert_eq!(
        check_workspace_containment("/tmp/skrvm_root/a/b", "/tmp/skrvm_root/"),
        Ok(())
    );
}

#[test]
fn workspace_identical_to_root_is_refused() {
    assert_eq!(
        check_workspace_containment("/tmp/skrvm_root", "/tmp/skrvm_root"),
        Err(WorkspaceRejection::IdenticalToRoot)
    );
    assert_eq!(
        check_workspace_containment("/tmp/skrvm_root/", "/tmp//skrvm_root/."),
        Err(WorkspaceRejection::IdenticalToRoot)
    );
}

#[test]
fn workspace_outside_root_is_refused() {
    assert_eq!(
        check_workspace_containment("/tmp/malicious_escape", "/tmp/skrvm_root"),
        Err(WorkspaceRejection::OutsideRoot)
    );
    assert_eq!(
        check_workspace_containment("/tmp/skrvm_root_other/x", "/tmp/skrvm_root"),
        Err(WorkspaceRejection::OutsideRoot)
    );
}

#[test]
fn path_components_follow_unix_rules() {
    assert_eq!(component_texts("/a//b/./c/"), vec!["/", "a", "b", "c"]);
    assert_eq!(component_texts("./a/.."), vec![".", "a", ".."]);
    assert_eq!(component_texts(""), Vec::<String>::new());
    assert!(paths_equal("/a/b", "/a//b/"));
    assert!(!paths_equal("/a/b", "/a/c"));
    assert!(path_has_component("/w/PROJ-1/history/x.jsonl", "history"));
    assert!(!path_has_component("/w/PROJ-1/historyx", "history"));
}

#[test]
fn workspace_dirs_are_refused_before_touching_the_filesystem() {
    assert_eq!(workspace_dir("/ws", "PROJ-1"), Ok("/ws/PROJ-1".to_string()));
    assert_eq!(workspace_dir("/ws/", "a/b"), Ok("/ws/a_b".to_string()));
    assert_eq!(workspace_dir("/ws", "../x"), Ok("/ws/.._x".to_string()));
    assert_eq!(workspace_dir("/ws", ""), Err(WorkspaceRejection::IdenticalToRoot));
    assert_eq!(workspace_dir("/ws", "."), Err(WorkspaceRejection::IdenticalToRoot));
    assert_eq!(workspace_dir("/ws", ".."), Err(WorkspaceRejection::OutsideRoot));
}
