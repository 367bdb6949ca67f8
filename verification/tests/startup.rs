use brainrunner::github::{GithubError, Issue, IssueLabel};
use brainrunner::startup::{StartupError, StartupSweep, SweepCommand, SweepReply};
use brainrunner::worktree::WorktreeError;

/// Drives a sweep; `listed` is what the listing gives, `fail_label` the label
/// change that fails, if any. Returns the operations and the result.
fn sweep(
    wipe: Result<(), WorktreeError>,
    listed: Result<Vec<Issue>, GithubError>,
    fail_label: Option<&str>,
) -> (Vec<String>, Result<(), StartupError>) {
    let (mut state, mut command) = StartupSweep::start();
    let mut log = Vec::new();
    let mut wipe = Some(wipe);
    let mut listed = Some(listed);
    loop {
        let reply = match &command {
            SweepCommand::Finish(_) => break,
            SweepCommand::WipeBase => {
                log.push("wipe".to_string());
                SweepReply::Wiped(wipe.take().unwrap())
            }
            SweepCommand::ListIssues { label } => {
                log.push(format!("list {}", label.name()));
                SweepReply::Listed(listed.take().unwrap())
            }
            SweepCommand::RemoveLabel { issue_n, label } => {
                let line = format!("{issue_n} -{}", label.name());
                let fail = fail_label == Some(line.as_str());
                log.push(line);
                SweepReply::Github(if fail { Err(GithubError::Io("x".to_string())) } else { Ok(()) })
            }
            SweepCommand::ApplyLabel { issue_n, label } => {
                let line = format!("{issue_n} +{}", label.name());
                let fail = fail_label == Some(line.as_str());
                log.push(line);
                SweepReply::Github(if fail { Err(GithubError::Io("x".to_string())) } else { Ok(()) })
            }
        };
        assert!(state.accepts(&reply));
        let (next_state, next_command) = state.advance(reply);
        state = next_state;
        command = next_command;
    }
    match command {
        SweepCommand::Finish(result) => (log, result),
        _ => unreachable!(),
    }
}

fn issue(number: u64) -> Issue {
    Issue { number, title: format!("issue {number}") }
}

#[test]
fn startup_sweep_wipes_base_before_querying_github() {
    let (log, _) = sweep(Ok(()), Err(GithubError::Gh { code: Some(1), stderr: "no remote".to_string() }), None);
    assert_eq!(log[0], "wipe", "worktree base should be wiped even if gh fails");
    assert_eq!(log[1], "list agent-running");
}

#[test]
fn startup_sweep_returns_github_error_when_gh_unavailable() {
    let (_, result) = sweep(Ok(()), Err(GithubError::Gh { code: Some(1), stderr: "no remote".to_string() }), None);
    assert!(matches!(result, Err(StartupError::Github(_))));
}

#[test]
fn startup_sweep_moves_every_running_issue_to_failed() {
    let (log, result) = sweep(Ok(()), Ok(vec![issue(4), issue(11)]), None);
    assert_eq!(
        log,
        vec![
            "wipe",
            "list agent-running",
            "4 -agent-running",
            "4 +agent-failed",
            "11 -agent-running",
            "11 +agent-failed",
        ]
    );
    assert!(result.is_ok());
}

#[test]
fn startup_sweep_with_nothing_running() {
    let (log, result) = sweep(Ok(()), Ok(vec![]), None);
    assert_eq!(log, vec!["wipe", "list agent-running"]);
    assert!(result.is_ok());
}

#[test]
fn startup_sweep_stops_at_wipe_failure() {
    let (log, result) = sweep(Err(WorktreeError::Io("denied".to_string())), Ok(vec![issue(1)]), None);
    assert_eq!(log, vec!["wipe"]);
    assert!(matches!(result, Err(StartupError::Worktree(_))));
}

#[test]
fn startup_sweep_stops_at_failed_label_change() {
    let (log, result) = sweep(Ok(()), Ok(vec![issue(1), issue(2)]), Some("1 +agent-failed"));
    assert_eq!(log, vec!["wipe", "list agent-running", "1 -agent-running", "1 +agent-failed"]);
    assert!(matches!(result, Err(StartupError::Github(GithubError::Io(_)))));
}

#[test]
fn startup_error_messages() {
    let e = StartupError::Github(GithubError::Gh { code: Some(4), stderr: "auth".to_string() });
    assert_eq!(e.message(), "github error: gh exited Some(4): auth");
    let e = StartupError::Worktree(WorktreeError::Io("busy".to_string()));
    assert_eq!(e.message(), "worktree error: io error: busy");
    assert_eq!(IssueLabel::AgentRunning.name(), "agent-running");
}
