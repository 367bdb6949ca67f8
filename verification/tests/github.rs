use brainrunner::github::{
    apply_label_args, command_output, command_status, issue_details_args, issues_from_listing,
    list_issues_args, open_pr_args, pr_body, push_branch_args, remove_label_args, sort_issues,
    GithubClient, GithubError, Issue, IssueLabel,
};

fn listing(json: &str) -> Result<Vec<Issue>, String> {
    let value: serde_json::Value = serde_json::from_str(json).map_err(|e| e.to_string())?;
    let items = value.as_array().ok_or_else(|| "expected an array".to_string())?;
    let mut issues = Vec::new();
    for item in items {
        let number = item["number"].as_u64().ok_or_else(|| "bad number".to_string())?;
        let title = item["title"].as_str().ok_or_else(|| "bad title".to_string())?;
        issues.push(Issue { number, title: title.to_string() });
    }
    Ok(issues)
}

fn issue(number: u64, title: &str) -> Issue {
    Issue { number, title: title.to_string() }
}

#[test]
fn parse_issues_invalid_json_returns_parse_error() {
    let result = issues_from_listing(listing("not json at all"));
    assert!(matches!(result, Err(GithubError::Parse(_))));
}

#[test]
fn parse_issues_empty_list_returns_empty_vec() {
    let issues = issues_from_listing(listing("[]")).unwrap();
    assert!(issues.is_empty());
}

#[test]
fn parse_issues_sorts_ascending() {
    let json = r#"[{"number":3,"title":"Third"},{"number":1,"title":"First"},{"number":2,"title":"Second"}]"#;
    let issues = issues_from_listing(listing(json)).unwrap();
    assert_eq!(issues.len(), 3);
    assert_eq!(issues[0].number, 1);
    assert_eq!(issues[1].number, 2);
    assert_eq!(issues[2].number, 3);
}

#[test]
fn sort_keeps_order_of_equal_numbers() {
    let sorted = sort_issues(vec![issue(5, "a"), issue(2, "b"), issue(5, "c"), issue(1, "d"), issue(2, "e")]);
    let got: Vec<(u64, &str)> = sorted.iter().map(|i| (i.number, i.title.as_str())).collect();
    assert_eq!(got, vec![(1, "d"), (2, "b"), (2, "e"), (5, "a"), (5, "c")]);
}

#[test]
fn parse_error_keeps_message() {
    let result = issues_from_listing(Err("expected value at line 1".to_string()));
    match result {
        Err(GithubError::Parse(msg)) => assert_eq!(msg, "expected value at line 1"),
        other => panic!("unexpected {other:?}"),
    }
}

#[test]
fn list_ready_issues_gh_failure_returns_error() {
    let result = command_output(false, Some(1), String::new(), "no git remote".to_string());
    assert!(matches!(result, Err(GithubError::Gh { code: Some(1), .. })));
    let ok = command_output(true, Some(0), "[]".to_string(), String::new());
    assert_eq!(ok.unwrap(), "[]");
}

#[test]
fn push_status_reports_exit_code_and_stderr() {
    assert!(command_status(true, Some(0), String::new()).is_ok());
    match command_status(false, None, "rejected".to_string()) {
        Err(GithubError::Gh { code, stderr }) => {
            assert_eq!(code, None);
            assert_eq!(stderr, "rejected");
        }
        other => panic!("unexpected {other:?}"),
    }
}

#[test]
fn github_error_messages() {
    assert_eq!(GithubError::Io("not found".to_string()).message(), "io error: not found");
    assert_eq!(
        GithubError::Gh { code: Some(2), stderr: "boom".to_string() }.message(),
        "gh exited Some(2): boom"
    );
    assert_eq!(
        GithubError::Gh { code: Some(-3), stderr: "x".to_string() }.message(),
        "gh exited Some(-3): x"
    );
    assert_eq!(
        GithubError::Gh { code: None, stderr: "killed".to_string() }.message(),
        "gh exited None: killed"
    );
    assert_eq!(
        GithubError::Gh { code: Some(i32::MIN), stderr: String::new() }.message(),
        "gh exited Some(-2147483648): "
    );
    assert_eq!(GithubError::Parse("eof".to_string()).message(), "parse error: eof");
}

#[test]
fn label_names() {
    assert_eq!(IssueLabel::ReadyForAgent.name(), "ready-for-agent");
    assert_eq!(IssueLabel::AgentRunning.name(), "agent-running");
    assert_eq!(IssueLabel::AgentDone.name(), "agent-done");
    assert_eq!(IssueLabel::AgentFailed.name(), "agent-failed");
}

#[test]
fn gh_arguments() {
    assert_eq!(
        list_issues_args(IssueLabel::ReadyForAgent),
        vec!["issue", "list", "--label", "ready-for-agent", "--json", "number,title"]
    );
    assert_eq!(
        apply_label_args(42, "agent-running").join(" "),
        "issue edit 42 --add-label agent-running"
    );
    assert_eq!(
        remove_label_args(42, "ready-for-agent").join(" "),
        "issue edit 42 --remove-label ready-for-agent"
    );
    assert_eq!(
        issue_details_args(300),
        vec!["issue", "view", "300", "--json", "body,comments"]
    );
    assert_eq!(pr_body(9), "Closes #9");
    assert_eq!(
        open_pr_args(9, "Success issue").join(" "),
        "pr create --title Success issue --body Closes #9"
    );
    assert_eq!(push_branch_args("agent/9"), vec!["push", "origin", "agent/9"]);
}

#[test]
fn client_keeps_its_directory() {
    let client = GithubClient::new("/srv/repo");
    assert_eq!(client.cwd(), "/srv/repo");
}
