use brainrunner::runner::{agent_args, contains_sigil, search_path, IterationReport, LoopStep, RalphLoop, RunOutcome};

fn exited(success: bool, code: Option<i32>, stdout: &str, stderr: &str) -> IterationReport {
    IterationReport::Exited {
        success,
        code,
        stdout: stdout.to_string(),
        stderr: stderr.to_string(),
    }
}

/// Feeds the loop one report per launched iteration and returns the outcome
/// and how many iterations ran.
fn run_with(max_iterations: u32, mut report: impl FnMut(u32) -> IterationReport) -> (RunOutcome, u32) {
    let (mut state, mut step) = RalphLoop::start(max_iterations);
    let mut launched = 0;
    loop {
        match step {
            LoopStep::Stop(outcome) => return (outcome, launched),
            LoopStep::Launch { iteration } => {
                launched += 1;
                assert_eq!(iteration, launched);
                let (next_state, next_step) = state.observe(report(iteration));
                state = next_state;
                step = next_step;
            }
        }
    }
}

#[test]
fn success_when_sigil_in_stdout() {
    let (outcome, _) = run_with(3, |_| exited(true, Some(0), "<promise>COMPLETE</promise>", ""));
    assert_eq!(outcome, RunOutcome::Success);
}

#[test]
fn success_with_surrounding_text_and_trailing_newlines() {
    let (outcome, _) = run_with(1, |_| {
        exited(true, Some(0), "some output\n<promise>COMPLETE</promise>\ntrailing\n", "")
    });
    assert_eq!(outcome, RunOutcome::Success);
}

#[test]
fn process_error_on_non_zero_exit() {
    let (outcome, _) = run_with(3, |_| exited(false, Some(2), "", "error output\n"));
    assert!(
        matches!(outcome, RunOutcome::ProcessError { code: Some(2), .. }),
        "expected ProcessError with code 2, got {outcome:?}"
    );
}

#[test]
fn process_error_does_not_consume_more_iterations() {
    let (_, count) = run_with(5, |_| exited(false, Some(1), "", ""));
    assert_eq!(count, 1, "should have run the agent only once, got {count}");
}

#[test]
fn timeout_when_iteration_exceeds_limit() {
    let (outcome, _) = run_with(1, |_| IterationReport::TimedOut);
    assert_eq!(outcome, RunOutcome::Timeout);
}

#[test]
fn exhausted_when_cap_reached_without_sigil() {
    let (outcome, count) = run_with(3, |_| exited(true, Some(0), "no sigil here\n", ""));
    assert_eq!(outcome, RunOutcome::Exhausted);
    assert_eq!(count, 3);
}

#[test]
fn zero_iterations_is_exhausted_at_once() {
    let (outcome, count) = run_with(0, |_| panic!("no iteration may run"));
    assert_eq!(outcome, RunOutcome::Exhausted);
    assert_eq!(count, 0);
}

#[test]
fn sigil_on_a_later_iteration_stops_there() {
    let (outcome, count) = run_with(10, |i| {
        if i == 4 {
            exited(true, Some(0), "done <promise>COMPLETE</promise>", "")
        } else {
            exited(true, Some(0), "working", "")
        }
    });
    assert_eq!(outcome, RunOutcome::Success);
    assert_eq!(count, 4);
}

#[test]
fn failed_exit_wins_over_sigil() {
    let (outcome, _) = run_with(2, |_| exited(false, Some(3), "<promise>COMPLETE</promise>", "bad"));
    assert_eq!(outcome, RunOutcome::ProcessError { code: Some(3), stderr: "bad".to_string() });
}

#[test]
fn spawn_failure_is_a_process_error_without_code() {
    let (outcome, count) = run_with(4, |_| IterationReport::SpawnFailed {
        message: "No such file or directory".to_string(),
    });
    assert_eq!(
        outcome,
        RunOutcome::ProcessError { code: None, stderr: "No such file or directory".to_string() }
    );
    assert_eq!(count, 1);
}

#[test]
fn sigil_detection_needs_the_whole_sigil() {
    assert!(contains_sigil("x<promise>COMPLETE</promise>y"));
    assert!(!contains_sigil("<promise>COMPLETE</promise"));
    assert!(!contains_sigil("<promise>complete</promise>"));
    assert!(!contains_sigil(""));
    assert!(contains_sigil("é—<promise>COMPLETE</promise>"));
}

#[test]
fn agent_arguments() {
    assert_eq!(
        agent_args("test prompt"),
        vec!["--permission-mode", "acceptEdits", "-p", "test prompt"]
    );
}

#[test]
fn search_path_puts_extra_first() {
    assert_eq!(search_path(Some("/opt/bin"), "/usr/bin:/bin"), Some("/opt/bin:/usr/bin:/bin".to_string()));
    assert_eq!(search_path(Some("/opt/bin"), ""), Some("/opt/bin:".to_string()));
    assert_eq!(search_path(None, "/usr/bin"), None);
}
