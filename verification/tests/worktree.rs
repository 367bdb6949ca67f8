use brainrunner::worktree::{
    branch_name, worktree_command_result, WorktreeError, WorktreeManager, CREATE_WORKTREE,
    REMOVE_WORKTREE,
};

#[test]
fn create_worktree_creates_expected_path_and_branch() {
    let manager = WorktreeManager::new("/repo", "/repo/worktrees");
    assert_eq!(manager.worktree_path(7), "/repo/worktrees/agent-7");
    assert_eq!(
        manager.create_worktree_args(7),
        vec!["worktree", "add", "-b", "agent/7", "/repo/worktrees/agent-7"]
    );
    assert_eq!(branch_name(7), "agent/7");
}

#[test]
fn remove_worktree_removes_directory_and_deregisters() {
    let manager = WorktreeManager::new("/repo", "/repo/worktrees");
    assert_eq!(
        manager.remove_worktree_args(8),
        vec!["worktree", "remove", "--force", "/repo/worktrees/agent-8"]
    );
}

#[test]
fn worktree_path_joins_like_a_path() {
    assert_eq!(WorktreeManager::new("/r", "/tmp/base/").worktree_path(3), "/tmp/base/agent-3");
    assert_eq!(WorktreeManager::new("/r", "").worktree_path(3), "agent-3");
    assert_eq!(WorktreeManager::new("/r", "/").worktree_path(12), "/agent-12");
    assert_eq!(
        WorktreeManager::new("/r", "/tmp/brainrunner-worktrees").worktree_path(0),
        "/tmp/brainrunner-worktrees/agent-0"
    );
    let base = std::path::Path::new("/tmp/x/").join("agent-5");
    assert_eq!(WorktreeManager::new("/r", "/tmp/x/").worktree_path(5), base.to_string_lossy());
}

#[test]
fn manager_keeps_its_paths() {
    let manager = WorktreeManager::new("/home/me/repo", "/tmp/wt");
    assert_eq!(manager.repo_path(), "/home/me/repo");
    assert_eq!(manager.worktree_base(), "/tmp/wt");
}

#[test]
fn failed_git_command_reports_trimmed_stderr() {
    assert!(worktree_command_result(CREATE_WORKTREE, true, "ignored").is_ok());
    match worktree_command_result(REMOVE_WORKTREE, false, "  \n fatal: not a worktree\n\t") {
        Err(WorktreeError::GitCommandFailed { operation, stderr }) => {
            assert_eq!(operation, "remove_worktree");
            assert_eq!(stderr, "fatal: not a worktree");
        }
        other => panic!("unexpected {other:?}"),
    }
    match worktree_command_result(CREATE_WORKTREE, false, "\u{3000} \u{a0}") {
        Err(WorktreeError::GitCommandFailed { stderr, .. }) => assert_eq!(stderr, ""),
        other => panic!("unexpected {other:?}"),
    }
}

#[test]
fn worktree_error_messages() {
    assert_eq!(WorktreeError::Io("denied".to_string()).message(), "io error: denied");
    assert_eq!(
        WorktreeError::GitCommandFailed { operation: "create_worktree", stderr: "exists".to_string() }
            .message(),
        "git command failed during create_worktree: exists"
    );
}

#[test]
fn distinct_issues_get_distinct_paths() {
    let manager = WorktreeManager::new("/r", "/b");
    assert_ne!(manager.worktree_path(1), manager.worktree_path(10));
    assert_ne!(manager.worktree_path(12), manager.worktree_path(21));
    assert_ne!(branch_name(1), branch_name(11));
}
