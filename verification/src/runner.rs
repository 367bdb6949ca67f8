use vstd::prelude::*;
use vstd::string::*;

use crate::github::arg_texts;
use crate::text::{contains_text, text_contains};

verus! {

/// The text that the agent prints to say that the issue is implemented.
pub const COMPLETION_SIGIL: &'static str = "<promise>COMPLETE</promise>";

/// How a Ralph loop ended.
#[derive(Debug, PartialEq)]
pub enum RunOutcome {
    /// The agent printed the completion sigil.
    Success,
    /// The agent process could not be started or exited unsuccessfully.
    ProcessError { code: Option<i32>, stderr: String },
    /// One iteration ran longer than its time limit.
    Timeout,
    /// Every allowed iteration ran without the completion sigil.
    Exhausted,
}

/// What came of one run of the agent process.
#[derive(Debug)]
pub enum IterationReport {
    /// The iteration's time limit elapsed first.
    TimedOut,
    /// The process could not be started; the message says why.
    SpawnFailed { message: String },
    /// The process exited.
    Exited { success: bool, code: Option<i32>, stdout: String, stderr: String },
}

/// What the loop asks for next.
#[derive(Debug)]
pub enum LoopStep {
    /// Run the agent once more; `iteration` counts from 1.
    Launch { iteration: u32 },
    /// The loop is over.
    Stop(RunOutcome),
}

/// The decisions of a Ralph loop: after each run of the agent, whether to run
/// it again or to stop, and with which outcome.
#[derive(Debug)]
pub struct RalphLoop {
    /// The iteration that runs now, counting from 1 (0 before the first).
    pub iteration: u32,
    /// How many iterations are allowed at most.
    pub max_iterations: u32,
}

/// Whether an iteration's standard output holds the completion sigil anywhere.
pub fn contains_sigil(stdout: &str) -> (b: bool)
    ensures
        b == contains_text(stdout@, COMPLETION_SIGIL@),
{
    text_contains(stdout, COMPLETION_SIGIL)
}

/// The arguments that run the agent once on `prompt`, letting it edit files
/// without asking.
pub fn agent_args(prompt: &str) -> (args: Vec<String>)
    ensures
        arg_texts(args@) == seq!["--permission-mode"@, "acceptEdits"@, "-p"@, prompt@],
{
    let mut args: Vec<String> = Vec::new();
    args.push(String::from_str("--permission-mode"));
    args.push(String::from_str("acceptEdits"));
    args.push(String::from_str("-p"));
    args.push(String::from_str(prompt));
    assert(arg_texts(args@) =~= seq!["--permission-mode"@, "acceptEdits"@, "-p"@, prompt@]);
    args
}

/// The search path for the agent's program: the extra directory, if there is
/// one, ahead of the current search path; with no extra directory the search
/// path is left as it is.
pub fn search_path(extra: Option<&str>, current: &str) -> (path: Option<String>)
    ensures
        extra is None ==> path is None,
        extra is Some ==> (path matches Some(p) && p@ == extra->0@ + ":"@ + current@),
{
    match extra {
        Some(e) => {
            let mut p = String::from_str(e);
            p.append(":");
            p.append(current);
            Some(p)
        },
        None => None,
    }
}

/// The outcome that an iteration's report ends the loop with, if any:
/// a failed start or exit and a timeout end it at once, and so does the
/// completion sigil in the output of a successful exit.
pub open spec fn report_outcome(report: IterationReport) -> Option<RunOutcome> {
    match report {
        IterationReport::TimedOut => Some(RunOutcome::Timeout),
        IterationReport::SpawnFailed { message } => Some(
            RunOutcome::ProcessError { code: None, stderr: message },
        ),
        IterationReport::Exited { success, code, stdout, stderr } => {
            if !success {
                Some(RunOutcome::ProcessError { code, stderr })
            } else if contains_text(stdout@, COMPLETION_SIGIL@) {
                Some(RunOutcome::Success)
            } else {
                None
            }
        },
    }
}

impl RalphLoop {
    /// An iteration is under way.
    pub open spec fn running(self) -> bool {
        1 <= self.iteration <= self.max_iterations
    }

    /// The loop's first step.
    pub open spec fn spec_start(max_iterations: u32) -> (RalphLoop, LoopStep) {
        if max_iterations == 0 {
            (RalphLoop { iteration: 0, max_iterations }, LoopStep::Stop(RunOutcome::Exhausted))
        } else {
            (RalphLoop { iteration: 1, max_iterations }, LoopStep::Launch { iteration: 1 })
        }
    }

    /// The loop's step after the report of the running iteration.
    pub open spec fn next(self, report: IterationReport) -> (RalphLoop, LoopStep) {
        match report_outcome(report) {
            Some(outcome) => (self, LoopStep::Stop(outcome)),
            None => if self.iteration < self.max_iterations {
                (
                    RalphLoop { iteration: (self.iteration + 1) as u32, ..self },
                    LoopStep::Launch { iteration: (self.iteration + 1) as u32 },
                )
            } else {
                (self, LoopStep::Stop(RunOutcome::Exhausted))
            },
        }
    }

    /// Starts a loop of at most `max_iterations` iterations.
    pub fn start(max_iterations: u32) -> (res: (RalphLoop, LoopStep))
        ensures
            res == RalphLoop::spec_start(max_iterations),
    {
        if max_iterations == 0 {
            (RalphLoop { iteration: 0, max_iterations }, LoopStep::Stop(RunOutcome::Exhausted))
        } else {
            (RalphLoop { iteration: 1, max_iterations }, LoopStep::Launch { iteration: 1 })
        }
    }

    /// Decides what follows the report of the running iteration.
    pub fn observe(self, report: IterationReport) -> (res: (RalphLoop, LoopStep))
        requires
            self.running(),
        ensures
            res == self.next(report),
    {
        match report {
            IterationReport::TimedOut => (self, LoopStep::Stop(RunOutcome::Timeout)),
            IterationReport::SpawnFailed { message } => (
                self,
                LoopStep::Stop(RunOutcome::ProcessError { code: None, stderr: message }),
            ),
            IterationReport::Exited { success, code, stdout, stderr } => {
                if !success {
                    (self, LoopStep::Stop(RunOutcome::ProcessError { code, stderr }))
                } else if contains_sigil(stdout.as_str()) {
                    (self, LoopStep::Stop(RunOutcome::Success))
                } else if self.iteration < self.max_iterations {
                    let iteration = self.iteration + 1;
                    (RalphLoop { iteration, max_iterations: self.max_iterations }, LoopStep::Launch { iteration })
                } else {
                    (self, LoopStep::Stop(RunOutcome::Exhausted))
                }
            },
        }
    }
}


/// The step a loop ends at when its iterations report `reports` in turn, and how
/// many of the reports it read, that is how many iterations ran.
pub open spec fn drive(state: RalphLoop, step: LoopStep, reports: Seq<IterationReport>) -> (
    LoopStep,
    nat,
)
    decreases reports.len(),
{
    match step {
        LoopStep::Launch { .. } => if reports.len() == 0 {
            (step, 0)
        } else {
            let (next_state, next_step) = state.next(reports[0]);
            let (last, used) = drive(next_state, next_step, reports.drop_first());
            (last, used + 1)
        },
        LoopStep::Stop(_) => (step, 0),
    }
}

/// A whole loop of at most `max_iterations` iterations that read `reports`.
pub open spec fn run_loop(max_iterations: u32, reports: Seq<IterationReport>) -> (LoopStep, nat) {
    let (state, step) = RalphLoop::spec_start(max_iterations);
    drive(state, step, reports)
}

proof fn lemma_drive_respects_cap(state: RalphLoop, reports: Seq<IterationReport>)
    requires
        state.running(),
    ensures
        drive(state, LoopStep::Launch { iteration: state.iteration }, reports).1
            <= state.max_iterations - state.iteration + 1,
    decreases reports.len(),
{
    if reports.len() > 0 {
        let (next_state, next_step) = state.next(reports[0]);
        if next_step is Launch {
            assert(next_state.iteration == state.iteration + 1);
            assert(next_step == LoopStep::Launch { iteration: next_state.iteration });
            lemma_drive_respects_cap(next_state, reports.drop_first());
            assert(drive(state, LoopStep::Launch { iteration: state.iteration }, reports).1 == drive(next_state, next_step, reports.drop_first()).1 + 1);
        } else {
            assert(drive(next_state, next_step, reports.drop_first()).1 == 0);
        }
    }
}

proof fn lemma_drive_first_end(state: RalphLoop, reports: Seq<IterationReport>, k: int)
    requires
        state.running(),
        0 <= k < reports.len(),
        k <= state.max_iterations - state.iteration,
        report_outcome(reports[k]) is Some,
        forall|j: int| 0 <= j < k ==> report_outcome(#[trigger] reports[j]) is None,
    ensures
        drive(state, LoopStep::Launch { iteration: state.iteration }, reports) == (
            LoopStep::Stop(report_outcome(reports[k])->0),
            (k + 1) as nat,
        ),
    decreases k,
{
    if k > 0 {
        assert(report_outcome(reports[0]) is None);
        let (next_state, next_step) = state.next(reports[0]);
        let rest = reports.drop_first();
        assert forall|j: int| 0 <= j < k - 1 implies report_outcome(#[trigger] rest[j]) is None by {
            assert(rest[j] == reports[j + 1]);
        }
        assert(next_state.iteration == state.iteration + 1);
        assert(next_step == LoopStep::Launch { iteration: next_state.iteration });
        lemma_drive_first_end(next_state, rest, k - 1);
        assert(drive(state, LoopStep::Launch { iteration: state.iteration }, reports).1
            == drive(next_state, next_step, rest).1 + 1);
    } else {
        let (next_state, next_step) = state.next(reports[0]);
        assert(next_step == LoopStep::Stop(report_outcome(reports[0])->0));
        assert(drive(next_state, next_step, reports.drop_first()) == (next_step, 0nat));
    }
}

proof fn lemma_drive_exhausts(state: RalphLoop, reports: Seq<IterationReport>)
    requires
        state.running(),
        reports.len() >= state.max_iterations - state.iteration + 1,
        forall|j: int|
            0 <= j <= state.max_iterations - state.iteration ==> report_outcome(
                #[trigger] reports[j],
            ) is None,
    ensures
        drive(state, LoopStep::Launch { iteration: state.iteration }, reports) == (
            LoopStep::Stop(RunOutcome::Exhausted),
            (state.max_iterations - state.iteration + 1) as nat,
        ),
    decreases reports.len(),
{
    assert(report_outcome(reports[0]) is None);
    if state.iteration < state.max_iterations {
        let (next_state, next_step) = state.next(reports[0]);
        let rest = reports.drop_first();
        assert forall|j: int|
            0 <= j <= next_state.max_iterations - next_state.iteration implies report_outcome(
                #[trigger] rest[j],
            ) is None by {
            assert(rest[j] == reports[j + 1]);
        }
        assert(next_state.iteration == state.iteration + 1);
        assert(next_step == LoopStep::Launch { iteration: next_state.iteration });
        lemma_drive_exhausts(next_state, rest);
        assert(drive(state, LoopStep::Launch { iteration: state.iteration }, reports).1
            == drive(next_state, next_step, rest).1 + 1);
    } else {
        let (next_state, next_step) = state.next(reports[0]);
        assert(next_step == LoopStep::Stop(RunOutcome::Exhausted));
        assert(drive(next_state, next_step, reports.drop_first()) == (next_step, 0nat));
    }
}

/// A loop runs the agent at most `max_iterations` times.
pub proof fn lemma_loop_respects_cap(max_iterations: u32, reports: Seq<IterationReport>)
    ensures
        run_loop(max_iterations, reports).1 <= max_iterations,
{
    if max_iterations > 0 {
        lemma_drive_respects_cap(RalphLoop { iteration: 1, max_iterations }, reports);
    }
}

/// The first iteration that fails, times out or prints the completion sigil
/// ends the loop with that outcome, and no further iteration runs.
pub proof fn lemma_loop_stops_at_first_end(
    max_iterations: u32,
    reports: Seq<IterationReport>,
    k: int,
)
    requires
        0 <= k < reports.len(),
        k < max_iterations,
        report_outcome(reports[k]) is Some,
        forall|j: int| 0 <= j < k ==> report_outcome(#[trigger] reports[j]) is None,
    ensures
        run_loop(max_iterations, reports) == (
            LoopStep::Stop(report_outcome(reports[k])->0),
            (k + 1) as nat,
        ),
{
    lemma_drive_first_end(RalphLoop { iteration: 1, max_iterations }, reports, k);
}

/// When every allowed iteration exits successfully without the completion
/// sigil, the loop runs exactly `max_iterations` iterations and is exhausted.
pub proof fn lemma_loop_exhausts(max_iterations: u32, reports: Seq<IterationReport>)
    requires
        reports.len() >= max_iterations,
        forall|j: int| 0 <= j < max_iterations ==> report_outcome(#[trigger] reports[j]) is None,
    ensures
        run_loop(max_iterations, reports) == (
            LoopStep::Stop(RunOutcome::Exhausted),
            max_iterations as nat,
        ),
{
    if max_iterations > 0 {
        lemma_drive_exhausts(RalphLoop { iteration: 1, max_iterations }, reports);
    }
}

} // verus!
