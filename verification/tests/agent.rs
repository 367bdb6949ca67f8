use brainrunner::agent::{AgentCommand, AgentReply, AgentRun, AgentRunError};
use brainrunner::github::{
    apply_label_args, open_pr_args, push_branch_args, remove_label_args, GithubError, Issue,
    IssueDetails,
};
use brainrunner::prompt::build_prompt;
use brainrunner::runner::RunOutcome;
use brainrunner::worktree::{WorktreeError, WorktreeManager};

/// What the fake infrastructure does: which operation fails, and how the loop ends.
struct Script {
    outcome: RunOutcome,
    fail: Option<&'static str>,
}

fn gh_error() -> GithubError {
    GithubError::Gh { code: Some(1), stderr: "boom".to_string() }
}

/// Drives an agent run against a fake infrastructure and returns the log of
/// operations, the prompt handed to the loop, and the run's result.
fn run_one(issue: Issue, script: Script) -> (String, Option<String>, Result<(), AgentRunError>) {
    let manager = WorktreeManager::new("/repo", "/repo/worktrees");
    let mut log = String::new();
    let mut prompt_seen = None;
    let mut outcome = Some(script.outcome);
    let (mut run, mut command) = AgentRun::start(issue, 1, 30);
    loop {
        let (line, kind) = match &command {
            AgentCommand::Finish(_) => break,
            AgentCommand::ApplyLabel { issue_n, label } => {
                (apply_label_args(*issue_n, label.name()).join(" "), "label")
            }
            AgentCommand::RemoveLabel { issue_n, label } => {
                (remove_label_args(*issue_n, label.name()).join(" "), "label")
            }
            AgentCommand::CreateWorktree { issue_n } => {
                (manager.create_worktree_args(*issue_n).join(" "), "create")
            }
            AgentCommand::FetchDetails { issue_n } => (format!("issue view {issue_n}"), "details"),
            AgentCommand::RunLoop { prompt, .. } => {
                prompt_seen = Some(prompt.clone());
                ("run agent".to_string(), "loop")
            }
            AgentCommand::PushBranch { branch } => (push_branch_args(branch).join(" "), "push"),
            AgentCommand::OpenPr { issue_n, title } => (open_pr_args(*issue_n, title).join(" "), "pr"),
            AgentCommand::RemoveWorktree { issue_n } => {
                (manager.remove_worktree_args(*issue_n).join(" "), "remove")
            }
        };
        log.push_str(&line);
        log.push('\n');
        let failing = script.fail.map_or(false, |f| line.contains(f));
        let reply = match kind {
            "create" | "remove" => AgentReply::Worktree(if failing {
                Err(WorktreeError::GitCommandFailed { operation: "x", stderr: "bad".to_string() })
            } else {
                Ok(())
            }),
            "details" => AgentReply::Details(if failing {
                Err(gh_error())
            } else {
                Ok(IssueDetails { body: "test body".to_string(), comments: vec!["c1".to_string()] })
            }),
            "loop" => AgentReply::Loop(outcome.take().unwrap()),
            _ => AgentReply::Github(if failing { Err(gh_error()) } else { Ok(()) }),
        };
        assert!(run.accepts(&reply));
        let (next_run, next_command) = run.advance(reply);
        run = next_run;
        command = next_command;
    }
    match command {
        AgentCommand::Finish(result) => (log, prompt_seen, result),
        _ => unreachable!(),
    }
}

fn issue(number: u64, title: &str) -> Issue {
    Issue { number, title: title.to_string() }
}

fn exit_one() -> RunOutcome {
    RunOutcome::ProcessError { code: Some(1), stderr: String::new() }
}

#[test]
fn run_one_applies_agent_running_label() {
    let (calls, _, _) = run_one(issue(42, "Test issue"), Script { outcome: RunOutcome::Exhausted, fail: None });
    assert!(
        calls.contains("issue edit 42 --add-label agent-running"),
        "expected agent-running applied, got:\n{calls}"
    );
}

#[test]
fn run_one_removes_ready_for_agent_label() {
    let (calls, _, _) = run_one(issue(42, "Test issue"), Script { outcome: RunOutcome::Exhausted, fail: None });
    assert!(
        calls.contains("issue edit 42 --remove-label ready-for-agent"),
        "expected ready-for-agent removed, got:\n{calls}"
    );
}

#[test]
fn run_one_creates_worktree_on_agent_branch() {
    let (calls, _, _) = run_one(issue(7, "Test"), Script { outcome: RunOutcome::Exhausted, fail: None });
    assert!(calls.contains("worktree add -b agent/7 /repo/worktrees/agent-7"), "expected branch agent/7, got: {calls}");
}

#[test]
fn run_one_ralph_failure_applies_agent_failed_and_removes_worktree() {
    let (calls, _, result) = run_one(issue(5, "Failing issue"), Script { outcome: exit_one(), fail: None });
    assert!(
        calls.contains("issue edit 5 --add-label agent-failed"),
        "expected agent-failed applied, got:\n{calls}"
    );
    assert!(calls.contains("worktree remove --force /repo/worktrees/agent-5"), "worktree should be removed after failure");
    assert!(!calls.contains("pr create"));
    assert!(!calls.contains("push origin"));
    assert!(result.is_ok());
}

#[test]
fn run_one_success_applies_agent_done_opens_pr_removes_worktree() {
    let (calls, _, result) = run_one(issue(9, "Success issue"), Script { outcome: RunOutcome::Success, fail: None });
    assert!(
        calls.contains("issue edit 9 --add-label agent-done"),
        "expected agent-done applied, got:\n{calls}"
    );
    assert!(
        calls.contains("pr create --title Success issue --body Closes #9"),
        "expected PR opened, got:\n{calls}"
    );
    assert!(calls.contains("worktree remove --force /repo/worktrees/agent-9"), "worktree should be removed after success");
    assert!(result.is_ok());
}

#[test]
fn run_one_success_sequence_is_exact() {
    let (calls, prompt, result) = run_one(issue(3, "T"), Script { outcome: RunOutcome::Success, fail: None });
    assert_eq!(
        calls,
        "issue edit 3 --add-label agent-running\n\
         issue edit 3 --remove-label ready-for-agent\n\
         worktree add -b agent/3 /repo/worktrees/agent-3\n\
         issue view 3\n\
         run agent\n\
         push origin agent/3\n\
         pr create --title T --body Closes #3\n\
         issue edit 3 --remove-label agent-running\n\
         issue edit 3 --add-label agent-done\n\
         worktree remove --force /repo/worktrees/agent-3\n"
    );
    assert_eq!(prompt.unwrap(), build_prompt(3, "T", "test body", &["c1"]));
    assert!(result.is_ok());
}

#[test]
fn run_one_push_failure_marks_failed_and_returns_error() {
    let (calls, _, result) = run_one(issue(4, "P"), Script { outcome: RunOutcome::Success, fail: Some("push origin") });
    assert!(calls.contains("issue edit 4 --remove-label agent-running\nissue edit 4 --add-label agent-failed\n"));
    assert!(!calls.contains("pr create"));
    assert!(calls.ends_with("worktree remove --force /repo/worktrees/agent-4\n"));
    assert!(matches!(result, Err(AgentRunError::Github(GithubError::Gh { .. }))));
}

#[test]
fn run_one_label_failure_stops_at_once() {
    let (calls, _, result) = run_one(issue(6, "L"), Script { outcome: RunOutcome::Success, fail: Some("ready-for-agent") });
    assert!(!calls.contains("worktree add"));
    assert!(matches!(result, Err(AgentRunError::Github(_))));
}

#[test]
fn run_one_details_failure_removes_worktree() {
    let (calls, _, result) = run_one(issue(8, "D"), Script { outcome: RunOutcome::Success, fail: Some("issue view") });
    assert!(calls.contains("worktree add"));
    assert!(calls.ends_with("issue view 8
worktree remove --force /repo/worktrees/agent-8
"));
    assert!(!calls.contains("run agent"));
    assert!(matches!(result, Err(AgentRunError::Github(_))));
}

#[test]
fn run_one_pr_failure_removes_worktree() {
    let (calls, _, result) = run_one(issue(10, "P"), Script { outcome: RunOutcome::Success, fail: Some("pr create") });
    assert!(calls.ends_with("pr create --title P --body Closes #10
worktree remove --force /repo/worktrees/agent-10
"));
    assert!(!calls.contains("agent-done"));
    assert!(matches!(result, Err(AgentRunError::Github(_))));
}

#[test]
fn run_one_failed_label_after_loop_removes_worktree() {
    let (calls, _, result) = run_one(issue(11, "F"), Script { outcome: RunOutcome::Timeout, fail: Some("--add-label agent-failed") });
    assert!(calls.ends_with("issue edit 11 --add-label agent-failed
worktree remove --force /repo/worktrees/agent-11
"));
    assert!(matches!(result, Err(AgentRunError::Github(_))));
}

#[test]
fn run_one_failure_before_worktree_ends_at_once() {
    let (calls, _, result) = run_one(issue(12, "R"), Script { outcome: RunOutcome::Success, fail: Some("12") });
    assert_eq!(calls, "issue edit 12 --add-label agent-running
");
    assert!(matches!(result, Err(AgentRunError::Github(_))));
}

#[test]
fn run_one_worktree_failure_is_a_worktree_error() {
    let (_, _, result) = run_one(issue(8, "D"), Script { outcome: RunOutcome::Success, fail: Some("worktree add") });
    assert!(matches!(result, Err(AgentRunError::Worktree(_))));
}

#[test]
fn run_one_ignores_failed_worktree_removal() {
    let (_, _, result) = run_one(issue(2, "R"), Script { outcome: RunOutcome::Timeout, fail: Some("worktree remove") });
    assert!(result.is_ok());
}

#[test]
fn agent_error_messages() {
    let e = AgentRunError::Github(GithubError::Parse("eof".to_string()));
    assert_eq!(e.message(), "github error: parse error: eof");
    let e = AgentRunError::Worktree(WorktreeError::Io("gone".to_string()));
    assert_eq!(e.message(), "worktree error: io error: gone");
}
