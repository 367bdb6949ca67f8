use vstd::prelude::*;
use vstd::string::*;

use crate::github::{github_error_text, GithubError, Issue, IssueDetails, IssueLabel};
use crate::prompt::{build_prompt, comment_views, prompt_text};
use crate::runner::RunOutcome;
use crate::worktree::{branch_name, branch_text, worktree_error_text, WorktreeError};

verus! {

/// Why an agent run could not complete an infrastructure operation.
#[derive(Debug)]
pub enum AgentRunError {
    Worktree(WorktreeError),
    Github(GithubError),
}

/// The message that describes an agent run error.
pub open spec fn agent_error_text(e: AgentRunError) -> Seq<char> {
    match e {
        AgentRunError::Worktree(w) => "worktree error: "@ + worktree_error_text(w),
        AgentRunError::Github(g) => "github error: "@ + github_error_text(g),
    }
}

impl AgentRunError {
    /// The message that describes this error.
    pub fn message(&self) -> (m: String)
        ensures
            m@ == agent_error_text(*self),
    {
        let mut m = String::new();
        match self {
            AgentRunError::Worktree(w) => {
                m.append("worktree error: ");
                let inner = w.message();
                m.append(inner.as_str());
            },
            AgentRunError::Github(g) => {
                m.append("github error: ");
                let inner = g.message();
                m.append(inner.as_str());
            },
        }
        m
    }
}

/// An operation that the agent run asks for.
#[derive(Debug)]
pub enum AgentCommand {
    /// Add `label` to the issue.
    ApplyLabel { issue_n: u64, label: IssueLabel },
    /// Take `label` off the issue.
    RemoveLabel { issue_n: u64, label: IssueLabel },
    /// Create the issue's worktree on its branch.
    CreateWorktree { issue_n: u64 },
    /// Fetch the issue's body and comments.
    FetchDetails { issue_n: u64 },
    /// Run the Ralph loop with `prompt` in the issue's worktree.
    RunLoop { prompt: String, max_iterations: u32, max_iteration_secs: u64 },
    /// Push `branch` to the remote.
    PushBranch { branch: String },
    /// Open the pull request for the issue.
    OpenPr { issue_n: u64, title: String },
    /// Remove the issue's worktree.
    RemoveWorktree { issue_n: u64 },
    /// The run is over, with this result.
    Finish(Result<(), AgentRunError>),
}

/// What came of the operation that the agent run asked for.
#[derive(Debug)]
pub enum AgentReply {
    /// A label change, the push or the pull request.
    Github(Result<(), GithubError>),
    /// Creating or removing the worktree.
    Worktree(Result<(), WorktreeError>),
    /// Fetching the issue's body and comments.
    Details(Result<IssueDetails, GithubError>),
    /// The Ralph loop.
    Loop(RunOutcome),
}

/// Where an agent run stands: which reply it waits for.
#[derive(Debug, Clone, Copy, PartialEq, Eq, Structural)]
pub enum AgentStep {
    ApplyingRunning,
    RemovingReady,
    CreatingWorktree,
    FetchingDetails,
    RunningLoop,
    Pushing,
    OpeningPr,
    ClearingRunning,
    ApplyingDone,
    FailClearingRunning,
    FailApplyingFailed,
    RemovingWorktree,
    Finished,
}

/// An operation that the agent run asks for, with texts as sequences of characters.
pub enum AgentCommandView {
    ApplyLabel { issue_n: u64, label: IssueLabel },
    RemoveLabel { issue_n: u64, label: IssueLabel },
    CreateWorktree { issue_n: u64 },
    FetchDetails { issue_n: u64 },
    RunLoop { prompt: Seq<char>, max_iterations: u32, max_iteration_secs: u64 },
    PushBranch { branch: Seq<char> },
    OpenPr { issue_n: u64, title: Seq<char> },
    RemoveWorktree { issue_n: u64 },
    Finish(Result<(), AgentRunError>),
}

impl View for AgentCommand {
    type V = AgentCommandView;

    open spec fn view(&self) -> AgentCommandView {
        match self {
            AgentCommand::ApplyLabel { issue_n, label } => AgentCommandView::ApplyLabel {
                issue_n: *issue_n,
                label: *label,
            },
            AgentCommand::RemoveLabel { issue_n, label } => AgentCommandView::RemoveLabel {
                issue_n: *issue_n,
                label: *label,
            },
            AgentCommand::CreateWorktree { issue_n } => AgentCommandView::CreateWorktree {
                issue_n: *issue_n,
            },
            AgentCommand::FetchDetails { issue_n } => AgentCommandView::FetchDetails {
                issue_n: *issue_n,
            },
            AgentCommand::RunLoop { prompt, max_iterations, max_iteration_secs } => {
                AgentCommandView::RunLoop {
                    prompt: prompt@,
                    max_iterations: *max_iterations,
                    max_iteration_secs: *max_iteration_secs,
                }
            },
            AgentCommand::PushBranch { branch } => AgentCommandView::PushBranch { branch: branch@ },
            AgentCommand::OpenPr { issue_n, title } => AgentCommandView::OpenPr {
                issue_n: *issue_n,
                title: title@,
            },
            AgentCommand::RemoveWorktree { issue_n } => AgentCommandView::RemoveWorktree {
                issue_n: *issue_n,
            },
            AgentCommand::Finish(r) => AgentCommandView::Finish(*r),
        }
    }
}

/// One agent run on an issue, as a machine that is told what came of each
/// operation and answers with the next one.
#[derive(Debug)]
pub struct AgentRun {
    pub issue_n: u64,
    pub title: String,
    pub max_iterations: u32,
    pub max_iteration_secs: u64,
    pub step: AgentStep,
    /// The result that the run ends with once its worktree is removed.
    pub pending: Result<(), AgentRunError>,
}

/// Whether the run's worktree exists at `step`: it was created and its
/// removal has not been asked for yet.
pub open spec fn holds_worktree(step: AgentStep) -> bool {
    match step {
        AgentStep::FetchingDetails | AgentStep::RunningLoop | AgentStep::Pushing
        | AgentStep::OpeningPr | AgentStep::ClearingRunning | AgentStep::ApplyingDone
        | AgentStep::FailClearingRunning | AgentStep::FailApplyingFailed => true,
        _ => false,
    }
}

/// The texts of an issue's comments.
pub open spec fn details_comments(d: IssueDetails) -> Seq<Seq<char>> {
    d.comments@.map_values(|c: String| c@)
}

impl AgentRun {
    /// The same run at another step.
    pub open spec fn at(self, step: AgentStep) -> AgentRun {
        AgentRun { step, ..self }
    }

    /// The run ends here with `result`.
    pub open spec fn finish(self, result: Result<(), AgentRunError>) -> (AgentRun, AgentCommandView) {
        (AgentRun { step: AgentStep::Finished, pending: Ok(()), ..self }, AgentCommandView::Finish(result))
    }

    /// The run removes its worktree next, and then ends with `result`.
    pub open spec fn clean_up(self, result: Result<(), AgentRunError>) -> (AgentRun, AgentCommandView) {
        (
            AgentRun { step: AgentStep::RemovingWorktree, pending: result, ..self },
            AgentCommandView::RemoveWorktree { issue_n: self.issue_n },
        )
    }

    /// The run's first operation, and the run that waits for its reply.
    pub open spec fn spec_start(issue: Issue, max_iterations: u32, max_iteration_secs: u64) -> (
        AgentRun,
        AgentCommandView,
    ) {
        (
            AgentRun {
                issue_n: issue.number,
                title: issue.title,
                max_iterations,
                max_iteration_secs,
                step: AgentStep::ApplyingRunning,
                pending: Ok(()),
            },
            AgentCommandView::ApplyLabel { issue_n: issue.number, label: IssueLabel::AgentRunning },
        )
    }

    /// Whether `reply` is the kind of reply that the run waits for.
    pub open spec fn expects(self, reply: AgentReply) -> bool {
        match self.step {
            AgentStep::CreatingWorktree | AgentStep::RemovingWorktree => reply is Worktree,
            AgentStep::FetchingDetails => reply is Details,
            AgentStep::RunningLoop => reply is Loop,
            AgentStep::Finished => false,
            _ => reply is Github,
        }
    }

    /// The run's next operation after `reply`, and the run that waits for its reply.
    pub open spec fn next(self, reply: AgentReply) -> (AgentRun, AgentCommandView) {
        let n = self.issue_n;
        match reply {
            AgentReply::Github(Err(e)) => if self.step == AgentStep::Pushing {
                (
                    AgentRun {
                        step: AgentStep::FailClearingRunning,
                        pending: Err(AgentRunError::Github(e)),
                        ..self
                    },
                    AgentCommandView::RemoveLabel { issue_n: n, label: IssueLabel::AgentRunning },
                )
            } else if holds_worktree(self.step) {
                self.clean_up(Err(AgentRunError::Github(e)))
            } else {
                self.finish(Err(AgentRunError::Github(e)))
            },
            AgentReply::Github(Ok(_)) => match self.step {
                AgentStep::ApplyingRunning => (
                    self.at(AgentStep::RemovingReady),
                    AgentCommandView::RemoveLabel { issue_n: n, label: IssueLabel::ReadyForAgent },
                ),
                AgentStep::RemovingReady => (
                    self.at(AgentStep::CreatingWorktree),
                    AgentCommandView::CreateWorktree { issue_n: n },
                ),
                AgentStep::Pushing => (
                    self.at(AgentStep::OpeningPr),
                    AgentCommandView::OpenPr { issue_n: n, title: self.title@ },
                ),
                AgentStep::OpeningPr => (
                    self.at(AgentStep::ClearingRunning),
                    AgentCommandView::RemoveLabel { issue_n: n, label: IssueLabel::AgentRunning },
                ),
                AgentStep::ClearingRunning => (
                    self.at(AgentStep::ApplyingDone),
                    AgentCommandView::ApplyLabel { issue_n: n, label: IssueLabel::AgentDone },
                ),
                AgentStep::FailClearingRunning => (
                    self.at(AgentStep::FailApplyingFailed),
                    AgentCommandView::ApplyLabel { issue_n: n, label: IssueLabel::AgentFailed },
                ),
                _ => (
                    self.at(AgentStep::RemovingWorktree),
                    AgentCommandView::RemoveWorktree { issue_n: n },
                ),
            },
            AgentReply::Worktree(r) => if self.step == AgentStep::CreatingWorktree {
                match r {
                    Ok(_) => (
                        self.at(AgentStep::FetchingDetails),
                        AgentCommandView::FetchDetails { issue_n: n },
                    ),
                    Err(e) => self.finish(Err(AgentRunError::Worktree(e))),
                }
            } else {
                self.finish(self.pending)
            },
            AgentReply::Details(Ok(d)) => (
                self.at(AgentStep::RunningLoop),
                AgentCommandView::RunLoop {
                    prompt: prompt_text(n as nat, self.title@, d.body@, details_comments(d)),
                    max_iterations: self.max_iterations,
                    max_iteration_secs: self.max_iteration_secs,
                },
            ),
            AgentReply::Details(Err(e)) => self.clean_up(Err(AgentRunError::Github(e))),
            AgentReply::Loop(outcome) => if outcome is Success {
                (
                    self.at(AgentStep::Pushing),
                    AgentCommandView::PushBranch { branch: branch_text(n as nat) },
                )
            } else {
                (
                    self.at(AgentStep::FailClearingRunning),
                    AgentCommandView::RemoveLabel { issue_n: n, label: IssueLabel::AgentRunning },
                )
            },
        }
    }

    /// Starts an agent run on `issue`: the first operation marks it as running.
    pub fn start(issue: Issue, max_iterations: u32, max_iteration_secs: u64) -> (res: (
        AgentRun,
        AgentCommand,
    ))
        ensures
            (res.0, res.1@) == AgentRun::spec_start(issue, max_iterations, max_iteration_secs),
    {
        let issue_n = issue.number;
        (
            AgentRun {
                issue_n,
                title: issue.title,
                max_iterations,
                max_iteration_secs,
                step: AgentStep::ApplyingRunning,
                pending: Ok(()),
            },
            AgentCommand::ApplyLabel { issue_n, label: IssueLabel::AgentRunning },
        )
    }

    /// Whether `reply` is the kind of reply that the run waits for.
    pub fn accepts(&self, reply: &AgentReply) -> (b: bool)
        ensures
            b == self.expects(*reply),
    {
        match self.step {
            AgentStep::CreatingWorktree | AgentStep::RemovingWorktree => match reply {
                AgentReply::Worktree(_) => true,
                _ => false,
            },
            AgentStep::FetchingDetails => match reply {
                AgentReply::Details(_) => true,
                _ => false,
            },
            AgentStep::RunningLoop => match reply {
                AgentReply::Loop(_) => true,
                _ => false,
            },
            AgentStep::Finished => false,
            _ => match reply {
                AgentReply::Github(_) => true,
                _ => false,
            },
        }
    }

    /// Takes in what came of the last operation and answers with the next one.
    pub fn advance(self, reply: AgentReply) -> (res: (AgentRun, AgentCommand))
        requires
            self.expects(reply),
        ensures
            (res.0, res.1@) == self.next(reply),
    {
        let issue_n = self.issue_n;
        let step = self.step;
        match reply {
            AgentReply::Github(Err(e)) => {
                if step == AgentStep::Pushing {
                    (
                        AgentRun {
                            step: AgentStep::FailClearingRunning,
                            pending: Err(AgentRunError::Github(e)),
                            ..self
                        },
                        AgentCommand::RemoveLabel { issue_n, label: IssueLabel::AgentRunning },
                    )
                } else if step == AgentStep::FetchingDetails || step == AgentStep::RunningLoop
                    || step == AgentStep::OpeningPr || step == AgentStep::ClearingRunning
                    || step == AgentStep::ApplyingDone || step == AgentStep::FailClearingRunning
                    || step == AgentStep::FailApplyingFailed {
                    Self::remove_then_end(self, Err(AgentRunError::Github(e)))
                } else {
                    Self::end(self, Err(AgentRunError::Github(e)))
                }
            },
            AgentReply::Github(Ok(_)) => match step {
                AgentStep::ApplyingRunning => (
                    AgentRun { step: AgentStep::RemovingReady, ..self },
                    AgentCommand::RemoveLabel { issue_n, label: IssueLabel::ReadyForAgent },
                ),
                AgentStep::RemovingReady => (
                    AgentRun { step: AgentStep::CreatingWorktree, ..self },
                    AgentCommand::CreateWorktree { issue_n },
                ),
                AgentStep::Pushing => {
                    let title = String::from_str(self.title.as_str());
                    (
                        AgentRun { step: AgentStep::OpeningPr, ..self },
                        AgentCommand::OpenPr { issue_n, title },
                    )
                },
                AgentStep::OpeningPr => (
                    AgentRun { step: AgentStep::ClearingRunning, ..self },
                    AgentCommand::RemoveLabel { issue_n, label: IssueLabel::AgentRunning },
                ),
                AgentStep::ClearingRunning => (
                    AgentRun { step: AgentStep::ApplyingDone, ..self },
                    AgentCommand::ApplyLabel { issue_n, label: IssueLabel::AgentDone },
                ),
                AgentStep::FailClearingRunning => (
                    AgentRun { step: AgentStep::FailApplyingFailed, ..self },
                    AgentCommand::ApplyLabel { issue_n, label: IssueLabel::AgentFailed },
                ),
                _ => (
                    AgentRun { step: AgentStep::RemovingWorktree, ..self },
                    AgentCommand::RemoveWorktree { issue_n },
                ),
            },
            AgentReply::Worktree(r) => {
                if step == AgentStep::CreatingWorktree {
                    match r {
                        Ok(_) => (
                            AgentRun { step: AgentStep::FetchingDetails, ..self },
                            AgentCommand::FetchDetails { issue_n },
                        ),
                        Err(e) => Self::end(self, Err(AgentRunError::Worktree(e))),
                    }
                } else {
                    let AgentRun { issue_n, title, max_iterations, max_iteration_secs, step, pending } =
                        self;
                    (
                        AgentRun {
                            issue_n,
                            title,
                            max_iterations,
                            max_iteration_secs,
                            step: AgentStep::Finished,
                            pending: Ok(()),
                        },
                        AgentCommand::Finish(pending),
                    )
                }
            },
            AgentReply::Details(Ok(d)) => {
                let mut refs: Vec<&str> = Vec::new();
                let ghost views = details_comments(d);
                for i in 0..d.comments.len()
                    invariant
                        views == details_comments(d),
                        refs@.len() == i,
                        forall|k: int| 0 <= k < i ==> (#[trigger] refs@[k])@ == views[k],
                {
                    refs.push(d.comments[i].as_str());
                }
                proof {
                    assert(comment_views(refs@) =~= views);
                }
                let prompt = build_prompt(issue_n, self.title.as_str(), d.body.as_str(), refs.as_slice());
                let max_iterations = self.max_iterations;
                let max_iteration_secs = self.max_iteration_secs;
                (
                    AgentRun { step: AgentStep::RunningLoop, ..self },
                    AgentCommand::RunLoop { prompt, max_iterations, max_iteration_secs },
                )
            },
            AgentReply::Details(Err(e)) => Self::remove_then_end(
                self,
                Err(AgentRunError::Github(e)),
            ),
            AgentReply::Loop(outcome) => match outcome {
                RunOutcome::Success => (
                    AgentRun { step: AgentStep::Pushing, ..self },
                    AgentCommand::PushBranch { branch: branch_name(issue_n) },
                ),
                _ => (
                    AgentRun { step: AgentStep::FailClearingRunning, ..self },
                    AgentCommand::RemoveLabel { issue_n, label: IssueLabel::AgentRunning },
                ),
            },
        }
    }

    fn remove_then_end(run: AgentRun, result: Result<(), AgentRunError>) -> (res: (
        AgentRun,
        AgentCommand,
    ))
        ensures
            (res.0, res.1@) == run.clean_up(result),
    {
        let issue_n = run.issue_n;
        (
            AgentRun {
                issue_n,
                title: run.title,
                max_iterations: run.max_iterations,
                max_iteration_secs: run.max_iteration_secs,
                step: AgentStep::RemovingWorktree,
                pending: result,
            },
            AgentCommand::RemoveWorktree { issue_n },
        )
    }

    fn end(run: AgentRun, result: Result<(), AgentRunError>) -> (res: (AgentRun, AgentCommand))
        ensures
            (res.0, res.1@) == run.finish(result),
    {
        (
            AgentRun {
                issue_n: run.issue_n,
                title: run.title,
                max_iterations: run.max_iterations,
                max_iteration_secs: run.max_iteration_secs,
                step: AgentStep::Finished,
                pending: Ok(()),
            },
            AgentCommand::Finish(result),
        )
    }
}

/// The operations that a run asks for when it is told `replies` in turn, until
/// a reply is not the kind it waits for or the run is over.
pub open spec fn agent_drive(run: AgentRun, replies: Seq<AgentReply>) -> Seq<AgentCommandView>
    decreases replies.len(),
{
    if replies.len() == 0 || !run.expects(replies[0]) {
        Seq::empty()
    } else {
        let (next_run, command) = run.next(replies[0]);
        seq![command] + agent_drive(next_run, replies.drop_first())
    }
}

/// Every operation of an agent run on `issue` told `replies`, the first one included.
pub open spec fn agent_commands(
    issue: Issue,
    max_iterations: u32,
    max_iteration_secs: u64,
    replies: Seq<AgentReply>,
) -> Seq<AgentCommandView> {
    let (run, first) = AgentRun::spec_start(issue, max_iterations, max_iteration_secs);
    seq![first] + agent_drive(run, replies)
}

/// The labels an issue carries after the label changes among `commands`.
pub open spec fn labels_after(labels: Set<IssueLabel>, commands: Seq<AgentCommandView>) -> Set<
    IssueLabel,
>
    decreases commands.len(),
{
    if commands.len() == 0 {
        labels
    } else {
        let changed = match commands[0] {
            AgentCommandView::ApplyLabel { label, .. } => labels.insert(label),
            AgentCommandView::RemoveLabel { label, .. } => labels.remove(label),
            _ => labels,
        };
        labels_after(changed, commands.drop_first())
    }
}

/// The replies of a run in which every operation succeeds, the Ralph loop
/// ends with `outcome`, and removing the worktree comes to `removal`.
pub open spec fn smooth_replies(
    details: IssueDetails,
    outcome: RunOutcome,
    removal: Result<(), WorktreeError>,
) -> Seq<AgentReply> {
    let ok = AgentReply::Github(Ok(()));
    let head = seq![
        ok,
        ok,
        AgentReply::Worktree(Ok(())),
        AgentReply::Details(Ok(details)),
        AgentReply::Loop(outcome),
    ];
    let tail = if outcome is Success {
        seq![ok, ok, ok, ok]
    } else {
        seq![ok, ok]
    };
    head + tail + seq![AgentReply::Worktree(removal)]
}

/// Whether an operation that names an issue names issue `n`.
pub open spec fn concerns(command: AgentCommandView, n: u64) -> bool {
    match command {
        AgentCommandView::ApplyLabel { issue_n, .. } => issue_n == n,
        AgentCommandView::RemoveLabel { issue_n, .. } => issue_n == n,
        AgentCommandView::CreateWorktree { issue_n } => issue_n == n,
        AgentCommandView::FetchDetails { issue_n } => issue_n == n,
        AgentCommandView::OpenPr { issue_n, .. } => issue_n == n,
        AgentCommandView::RemoveWorktree { issue_n } => issue_n == n,
        _ => true,
    }
}

/// The error that a reply carries, as the run reports it.
pub open spec fn reply_error(reply: AgentReply) -> Option<AgentRunError> {
    match reply {
        AgentReply::Github(Err(e)) => Some(AgentRunError::Github(e)),
        AgentReply::Worktree(Err(e)) => Some(AgentRunError::Worktree(e)),
        AgentReply::Details(Err(e)) => Some(AgentRunError::Github(e)),
        _ => None,
    }
}

/// The operations of an agent run on `issue` in which every operation
/// succeeds and the Ralph loop succeeds.
pub open spec fn successful_run_commands(
    issue: Issue,
    max_iterations: u32,
    max_iteration_secs: u64,
    details: IssueDetails,
) -> Seq<AgentCommandView> {
    let n = issue.number;
    seq![
        AgentCommandView::ApplyLabel { issue_n: n, label: IssueLabel::AgentRunning },
        AgentCommandView::RemoveLabel { issue_n: n, label: IssueLabel::ReadyForAgent },
        AgentCommandView::CreateWorktree { issue_n: n },
        AgentCommandView::FetchDetails { issue_n: n },
        AgentCommandView::RunLoop {
            prompt: prompt_text(n as nat, issue.title@, details.body@, details_comments(details)),
            max_iterations,
            max_iteration_secs,
        },
        AgentCommandView::PushBranch { branch: branch_text(n as nat) },
        AgentCommandView::OpenPr { issue_n: n, title: issue.title@ },
        AgentCommandView::RemoveLabel { issue_n: n, label: IssueLabel::AgentRunning },
        AgentCommandView::ApplyLabel { issue_n: n, label: IssueLabel::AgentDone },
        AgentCommandView::RemoveWorktree { issue_n: n },
        AgentCommandView::Finish(Ok(())),
    ]
}

/// The operations of an agent run on `issue` in which every operation
/// succeeds but the Ralph loop does not.
pub open spec fn unsuccessful_run_commands(
    issue: Issue,
    max_iterations: u32,
    max_iteration_secs: u64,
    details: IssueDetails,
) -> Seq<AgentCommandView> {
    let n = issue.number;
    seq![
        AgentCommandView::ApplyLabel { issue_n: n, label: IssueLabel::AgentRunning },
        AgentCommandView::RemoveLabel { issue_n: n, label: IssueLabel::ReadyForAgent },
        AgentCommandView::CreateWorktree { issue_n: n },
        AgentCommandView::FetchDetails { issue_n: n },
        AgentCommandView::RunLoop {
            prompt: prompt_text(n as nat, issue.title@, details.body@, details_comments(details)),
            max_iterations,
            max_iteration_secs,
        },
        AgentCommandView::RemoveLabel { issue_n: n, label: IssueLabel::AgentRunning },
        AgentCommandView::ApplyLabel { issue_n: n, label: IssueLabel::AgentFailed },
        AgentCommandView::RemoveWorktree { issue_n: n },
        AgentCommandView::Finish(Ok(())),
    ]
}

proof fn lemma_smooth_run_head(
    issue: Issue,
    max_iterations: u32,
    max_iteration_secs: u64,
    replies: Seq<AgentReply>,
    details: IssueDetails,
)
    requires
        replies.len() >= 5,
        replies[0] == AgentReply::Github(Ok(())),
        replies[1] == AgentReply::Github(Ok(())),
        replies[2] == AgentReply::Worktree(Ok(())),
        replies[3] == AgentReply::Details(Ok(details)),
        replies[4] is Loop,
    ensures
        ({
            let r0 = AgentRun::spec_start(issue, max_iterations, max_iteration_secs).0;
            agent_drive(r0, replies) == successful_run_commands(
                issue,
                max_iterations,
                max_iteration_secs,
                details,
            ).subrange(1, 5) + agent_drive(r0.at(AgentStep::RunningLoop), replies.skip(4))
        }),
{
    let r0 = AgentRun::spec_start(issue, max_iterations, max_iteration_secs).0;
    let cs = successful_run_commands(issue, max_iterations, max_iteration_secs, details);
    let r1 = r0.at(AgentStep::RemovingReady);
    let r2 = r0.at(AgentStep::CreatingWorktree);
    let r3 = r0.at(AgentStep::FetchingDetails);
    let r4 = r0.at(AgentStep::RunningLoop);
    assert(r0.next(replies[0]) == (r1, cs[1]));
    assert(r1.next(replies[1]) == (r2, cs[2]));
    assert(r2.next(replies[2]) == (r3, cs[3]));
    assert(r3.next(replies[3]) == (r4, cs[4]));
    assert(replies.skip(3).drop_first() =~= replies.skip(4));
    assert(replies.skip(2).drop_first() =~= replies.skip(3));
    assert(replies.skip(1).drop_first() =~= replies.skip(2));
    assert(replies.drop_first() =~= replies.skip(1));
    let tail = agent_drive(r4, replies.skip(4));
    assert(agent_drive(r3, replies.skip(3)) =~= seq![cs[4]] + tail);
    assert(agent_drive(r2, replies.skip(2)) =~= seq![cs[3], cs[4]] + tail);
    assert(agent_drive(r1, replies.skip(1)) =~= seq![cs[2], cs[3], cs[4]] + tail);
    assert(agent_drive(r0, replies) =~= cs.subrange(1, 5) + tail);
}

/// With every operation succeeding and a successful loop, the run's
/// operations are exactly `successful_run_commands`.
pub proof fn lemma_successful_run(
    issue: Issue,
    max_iterations: u32,
    max_iteration_secs: u64,
    details: IssueDetails,
    removal: Result<(), WorktreeError>,
)
    ensures
        agent_commands(
            issue,
            max_iterations,
            max_iteration_secs,
            smooth_replies(details, RunOutcome::Success, removal),
        ) == successful_run_commands(issue, max_iterations, max_iteration_secs, details),
{
    let n = issue.number;
    let replies = smooth_replies(details, RunOutcome::Success, removal);
    let cs = successful_run_commands(issue, max_iterations, max_iteration_secs, details);
    let r0 = AgentRun::spec_start(issue, max_iterations, max_iteration_secs).0;
    lemma_smooth_run_head(issue, max_iterations, max_iteration_secs, replies, details);
    let r4 = r0.at(AgentStep::RunningLoop);
    let r5 = r0.at(AgentStep::Pushing);
    let r6 = r0.at(AgentStep::OpeningPr);
    let r7 = r0.at(AgentStep::ClearingRunning);
    let r8 = r0.at(AgentStep::ApplyingDone);
    let r9 = r0.at(AgentStep::RemovingWorktree);
    let done = r0.finish(Ok(())).0;
    assert(r4.next(replies[4]) == (r5, cs[5]));
    assert(r5.next(replies[5]) == (r6, cs[6]));
    assert(r6.next(replies[6]) == (r7, cs[7]));
    assert(r7.next(replies[7]) == (r8, cs[8]));
    assert(r8.next(replies[8]) == (r9, cs[9]));
    assert(r9.next(replies[9]) == (done, cs[10]));
    assert(agent_drive(done, replies.skip(10)) =~= Seq::<AgentCommandView>::empty());
    assert(replies.skip(9).drop_first() =~= replies.skip(10));
    assert(replies.skip(8).drop_first() =~= replies.skip(9));
    assert(replies.skip(7).drop_first() =~= replies.skip(8));
    assert(replies.skip(6).drop_first() =~= replies.skip(7));
    assert(replies.skip(5).drop_first() =~= replies.skip(6));
    assert(replies.skip(4).drop_first() =~= replies.skip(5));
    assert(agent_drive(r9, replies.skip(9)) =~= cs.subrange(10, 11));
    assert(agent_drive(r8, replies.skip(8)) =~= cs.subrange(9, 11));
    assert(agent_drive(r7, replies.skip(7)) =~= cs.subrange(8, 11));
    assert(agent_drive(r6, replies.skip(6)) =~= cs.subrange(7, 11));
    assert(agent_drive(r5, replies.skip(5)) =~= cs.subrange(6, 11));
    assert(agent_drive(r4, replies.skip(4)) =~= cs.subrange(5, 11));
    assert(agent_commands(issue, max_iterations, max_iteration_secs, replies) =~= cs);
}

/// With every operation succeeding and a loop that ends otherwise than with
/// success, the run's operations are exactly `unsuccessful_run_commands`.
pub proof fn lemma_unsuccessful_run(
    issue: Issue,
    max_iterations: u32,
    max_iteration_secs: u64,
    details: IssueDetails,
    outcome: RunOutcome,
    removal: Result<(), WorktreeError>,
)
    requires
        !(outcome is Success),
    ensures
        agent_commands(
            issue,
            max_iterations,
            max_iteration_secs,
            smooth_replies(details, outcome, removal),
        ) == unsuccessful_run_commands(issue, max_iterations, max_iteration_secs, details),
{
    let n = issue.number;
    let replies = smooth_replies(details, outcome, removal);
    let cs = unsuccessful_run_commands(issue, max_iterations, max_iteration_secs, details);
    let good = successful_run_commands(issue, max_iterations, max_iteration_secs, details);
    let r0 = AgentRun::spec_start(issue, max_iterations, max_iteration_secs).0;
    lemma_smooth_run_head(issue, max_iterations, max_iteration_secs, replies, details);
    assert(good.subrange(1, 5) =~= cs.subrange(1, 5));
    let r4 = r0.at(AgentStep::RunningLoop);
    let r5 = r0.at(AgentStep::FailClearingRunning);
    let r6 = r0.at(AgentStep::FailApplyingFailed);
    let r7 = r0.at(AgentStep::RemovingWorktree);
    let done = r0.finish(Ok(())).0;
    assert(r4.next(replies[4]) == (r5, cs[5]));
    assert(r5.next(replies[5]) == (r6, cs[6]));
    assert(r6.next(replies[6]) == (r7, cs[7]));
    assert(r7.next(replies[7]) == (done, cs[8]));
    assert(agent_drive(done, replies.skip(8)) =~= Seq::<AgentCommandView>::empty());
    assert(replies.skip(7).drop_first() =~= replies.skip(8));
    assert(replies.skip(6).drop_first() =~= replies.skip(7));
    assert(replies.skip(5).drop_first() =~= replies.skip(6));
    assert(replies.skip(4).drop_first() =~= replies.skip(5));
    assert(agent_drive(r7, replies.skip(7)) =~= cs.subrange(8, 9));
    assert(agent_drive(r6, replies.skip(6)) =~= cs.subrange(7, 9));
    assert(agent_drive(r5, replies.skip(5)) =~= cs.subrange(6, 9));
    assert(agent_drive(r4, replies.skip(4)) =~= cs.subrange(5, 9));
    assert(agent_commands(issue, max_iterations, max_iteration_secs, replies) =~= cs);
}

/// Exactly one operation of `commands` satisfies `p`.
pub open spec fn occurs_once(commands: Seq<AgentCommandView>, p: spec_fn(AgentCommandView) -> bool) -> bool {
    exists|k: int|
        0 <= k < commands.len() && p(commands[k]) && forall|j: int|
            0 <= j < commands.len() && j != k ==> !p(#[trigger] commands[j])
}

/// When every operation succeeds, an agent run moves the issue from
/// `ready-for-agent` to `agent-done` if the Ralph loop succeeded and to
/// `agent-failed` otherwise, and never adds both; it pushes the branch and
/// opens the pull request exactly once each on success and never otherwise;
/// it removes the worktree either way just before it ends (whatever its
/// removal comes to), and ends with `Ok`; every operation that names an issue
/// names this one.
pub proof fn lemma_agent_run_lifecycle(
    issue: Issue,
    max_iterations: u32,
    max_iteration_secs: u64,
    details: IssueDetails,
    outcome: RunOutcome,
    removal: Result<(), WorktreeError>,
)
    ensures
        ({
            let commands = agent_commands(
                issue,
                max_iterations,
                max_iteration_secs,
                smooth_replies(details, outcome, removal),
            );
            let n = issue.number;
            let done = AgentCommandView::ApplyLabel { issue_n: n, label: IssueLabel::AgentDone };
            let failed = AgentCommandView::ApplyLabel { issue_n: n, label: IssueLabel::AgentFailed };
            &&& commands.last() == AgentCommandView::Finish(Ok(()))
            &&& commands.len() >= 2 && commands[commands.len() - 2] == (AgentCommandView::RemoveWorktree {
                issue_n: n,
            })
            &&& forall|k: int| 0 <= k < commands.len() ==> concerns(#[trigger] commands[k], n)
            &&& labels_after(set![IssueLabel::ReadyForAgent], commands) == if outcome is Success {
                set![IssueLabel::AgentDone]
            } else {
                set![IssueLabel::AgentFailed]
            }
            &&& !(commands.contains(done) && commands.contains(failed))
            &&& commands.contains(AgentCommandView::CreateWorktree { issue_n: n })
            &&& commands.contains(
                AgentCommandView::RunLoop {
                    prompt: prompt_text(n as nat, issue.title@, details.body@, details_comments(details)),
                    max_iterations,
                    max_iteration_secs,
                },
            )
            &&& outcome is Success ==> occurs_once(
                commands,
                |c: AgentCommandView| c is PushBranch,
            ) && occurs_once(commands, |c: AgentCommandView| c is OpenPr) && commands.contains(
                AgentCommandView::PushBranch { branch: branch_text(n as nat) },
            ) && commands.contains(AgentCommandView::OpenPr { issue_n: n, title: issue.title@ })
            &&& !(outcome is Success) ==> forall|k: int|
                0 <= k < commands.len() ==> !(#[trigger] commands[k] is PushBranch)
                    && !(commands[k] is OpenPr)
        }),
{
    let n = issue.number;
    let commands = agent_commands(
        issue,
        max_iterations,
        max_iteration_secs,
        smooth_replies(details, outcome, removal),
    );
    let done = AgentCommandView::ApplyLabel { issue_n: n, label: IssueLabel::AgentDone };
    let failed = AgentCommandView::ApplyLabel { issue_n: n, label: IssueLabel::AgentFailed };
    if outcome is Success {
        lemma_successful_run(issue, max_iterations, max_iteration_secs, details, removal);
        let cs = successful_run_commands(issue, max_iterations, max_iteration_secs, details);
        assert(commands == cs);
        assert(cs[2] == AgentCommandView::CreateWorktree { issue_n: n });
        assert(cs[4] is RunLoop);
        assert(cs[5] is PushBranch);
        assert(cs[6] is OpenPr);
        assert(cs[8] == done);
        assert(!cs.contains(failed)) by {
            if cs.contains(failed) {
                let k = choose|k: int| 0 <= k < cs.len() && cs[k] == failed;
                assert(false);
            }
        }
        let push = |c: AgentCommandView| c is PushBranch;
        let pr = |c: AgentCommandView| c is OpenPr;
        assert(push(cs[5]));
        assert(pr(cs[6]));
        assert(occurs_once(cs, push));
        assert(occurs_once(cs, pr));
        reveal_with_fuel(labels_after, 12);
        assert(labels_after(set![IssueLabel::ReadyForAgent], cs) =~= set![IssueLabel::AgentDone]);
    } else {
        lemma_unsuccessful_run(issue, max_iterations, max_iteration_secs, details, outcome, removal);
        let cs = unsuccessful_run_commands(issue, max_iterations, max_iteration_secs, details);
        assert(commands == cs);
        assert(cs[2] == AgentCommandView::CreateWorktree { issue_n: n });
        assert(cs[4] is RunLoop);
        assert(cs[6] == failed);
        assert(!cs.contains(done)) by {
            if cs.contains(done) {
                let k = choose|k: int| 0 <= k < cs.len() && cs[k] == done;
                assert(false);
            }
        }
        reveal_with_fuel(labels_after, 10);
        assert(labels_after(set![IssueLabel::ReadyForAgent], cs) =~= set![IssueLabel::AgentFailed]);
    }
}

/// The error that a command ends the run with, if it ends it with one.
pub open spec fn finish_error(command: AgentCommandView) -> Option<AgentRunError> {
    match command {
        AgentCommandView::Finish(Err(e)) => Some(e),
        _ => None,
    }
}

/// The step at which a run that is told `replies` in turn takes `replies[j]`.
pub open spec fn step_at(run: AgentRun, replies: Seq<AgentReply>, j: int) -> AgentStep
    decreases replies.len(),
{
    if j <= 0 || replies.len() == 0 {
        run.step
    } else {
        step_at(run.next(replies[0]).0, replies.drop_first(), j - 1)
    }
}

/// Whether the reply that a run takes as `replies[j]` failed with `e`, at a
/// step other than the removal of the worktree.
pub open spec fn failed_operation(
    run: AgentRun,
    replies: Seq<AgentReply>,
    j: int,
    e: AgentRunError,
) -> bool {
    &&& 0 <= j < replies.len()
    &&& reply_error(replies[j]) == Some(e)
    &&& step_at(run, replies, j) != AgentStep::RemovingWorktree
}

proof fn lemma_step_error_origin(run: AgentRun, reply: AgentReply)
    requires
        run.expects(reply),
    ensures
        finish_error(run.next(reply).1) is Some ==> run.pending == Err::<(), AgentRunError>(
            finish_error(run.next(reply).1)->0,
        ) || (reply_error(reply) == finish_error(run.next(reply).1) && run.step
            != AgentStep::RemovingWorktree),
        run.next(reply).0.pending is Err ==> run.pending == run.next(reply).0.pending || (
        reply_error(reply) == Some(run.next(reply).0.pending->Err_0) && run.step
            != AgentStep::RemovingWorktree),
{
}

proof fn lemma_drive_error_origin(run: AgentRun, replies: Seq<AgentReply>)
    ensures
        forall|k: int|
            0 <= k < agent_drive(run, replies).len() && (#[trigger] finish_error(
                agent_drive(run, replies)[k],
            )) is Some ==> run.pending == Err::<(), AgentRunError>(
                finish_error(agent_drive(run, replies)[k])->0,
            ) || exists|j: int|
                #[trigger] failed_operation(
                    run,
                    replies,
                    j,
                    finish_error(agent_drive(run, replies)[k])->0,
                ),
    decreases replies.len(),
{
    if replies.len() > 0 && run.expects(replies[0]) {
        let (next_run, command) = run.next(replies[0]);
        let rest = replies.drop_first();
        let cmds = agent_drive(run, replies);
        lemma_step_error_origin(run, replies[0]);
        lemma_drive_error_origin(next_run, rest);
        assert(cmds == seq![command] + agent_drive(next_run, rest));
        assert forall|k: int|
            0 <= k < cmds.len() && (#[trigger] finish_error(cmds[k])) is Some implies run.pending
            == Err::<(), AgentRunError>(finish_error(cmds[k])->0) || exists|j: int|
            #[trigger] failed_operation(run, replies, j, finish_error(cmds[k])->0) by {
            let e = finish_error(cmds[k])->0;
            assert(step_at(run, replies, 0) == run.step);
            if k == 0 {
                if run.pending != Err::<(), AgentRunError>(e) {
                    assert(failed_operation(run, replies, 0, e));
                }
            } else {
                assert(cmds[k] == agent_drive(next_run, rest)[k - 1]);
                if next_run.pending == Err::<(), AgentRunError>(e) {
                    if run.pending != Err::<(), AgentRunError>(e) {
                        assert(failed_operation(run, replies, 0, e));
                    }
                } else {
                    let j = choose|j: int| #[trigger] failed_operation(next_run, rest, j, e);
                    assert(rest[j] == replies[j + 1]);
                    assert(step_at(run, replies, j + 1) == step_at(next_run, rest, j));
                    assert(failed_operation(run, replies, j + 1, e));
                }
            }
        }
    }
}

/// An agent run ends with an error only when one of its operations failed
/// with that error, and that operation was not the removal of the worktree:
/// a label change, the creation of the worktree, the fetch of the issue's
/// details, the push or the pull request. An error is never made up, and a
/// failed removal never makes the run fail.
pub proof fn lemma_agent_errors_come_from_replies(
    issue: Issue,
    max_iterations: u32,
    max_iteration_secs: u64,
    replies: Seq<AgentReply>,
    k: int,
)
    requires
        0 <= k < agent_commands(issue, max_iterations, max_iteration_secs, replies).len(),
        finish_error(agent_commands(issue, max_iterations, max_iteration_secs, replies)[k]) is Some,
    ensures
        exists|j: int|
            #[trigger] failed_operation(
                AgentRun::spec_start(issue, max_iterations, max_iteration_secs).0,
                replies,
                j,
                finish_error(agent_commands(issue, max_iterations, max_iteration_secs, replies)[k])->0,
            ),
{
    let (run, first) = AgentRun::spec_start(issue, max_iterations, max_iteration_secs);
    let cmds = agent_commands(issue, max_iterations, max_iteration_secs, replies);
    lemma_drive_error_origin(run, replies);
    assert(cmds[k] == agent_drive(run, replies)[k - 1]);
}

proof fn lemma_step_failed_label(run: AgentRun, reply: AgentReply)
    requires
        run.expects(reply),
    ensures
        run.next(reply).0.issue_n == run.issue_n,
        run.next(reply).1 == (AgentCommandView::ApplyLabel {
            issue_n: run.issue_n,
            label: IssueLabel::AgentFailed,
        }) ==> run.step == AgentStep::FailClearingRunning && cleared(reply),
        run.next(reply).0.step == AgentStep::FailClearingRunning ==> run.next(reply).1 == (
        AgentCommandView::RemoveLabel { issue_n: run.issue_n, label: IssueLabel::AgentRunning }),
{
}

/// Whether a reply says that a label change succeeded.
pub open spec fn cleared(reply: AgentReply) -> bool {
    reply is Github && reply->Github_0 is Ok
}

/// In `commands`, where `commands[k]` answers `replies[k - 1]`, every addition
/// of `agent-failed` to issue `n` after the first operation comes right after
/// taking `agent-running` off it, which succeeded.
pub open spec fn failed_only_after_cleared(
    commands: Seq<AgentCommandView>,
    replies: Seq<AgentReply>,
    n: u64,
) -> bool {
    forall|k: int|
        1 <= k < commands.len() && #[trigger] commands[k] == (AgentCommandView::ApplyLabel {
            issue_n: n,
            label: IssueLabel::AgentFailed,
        }) ==> commands[k - 1] == (AgentCommandView::RemoveLabel {
            issue_n: n,
            label: IssueLabel::AgentRunning,
        }) && cleared(replies[k - 1])
}

proof fn lemma_drive_len(run: AgentRun, replies: Seq<AgentReply>)
    ensures
        agent_drive(run, replies).len() <= replies.len(),
    decreases replies.len(),
{
    if replies.len() > 0 && run.expects(replies[0]) {
        lemma_drive_len(run.next(replies[0]).0, replies.drop_first());
    }
}

proof fn lemma_drive_failed_after_cleared(
    run: AgentRun,
    prev: AgentCommandView,
    replies: Seq<AgentReply>,
)
    requires
        run.step == AgentStep::FailClearingRunning ==> prev == (AgentCommandView::RemoveLabel {
            issue_n: run.issue_n,
            label: IssueLabel::AgentRunning,
        }),
    ensures
        failed_only_after_cleared(seq![prev] + agent_drive(run, replies), replies, run.issue_n),
    decreases replies.len(),
{
    let cs = seq![prev] + agent_drive(run, replies);
    let n = run.issue_n;
    if replies.len() > 0 && run.expects(replies[0]) {
        let pair = run.next(replies[0]);
        let next_run = pair.0;
        let command = pair.1;
        let rest = replies.drop_first();
        lemma_step_failed_label(run, replies[0]);
        lemma_drive_failed_after_cleared(next_run, command, rest);
        lemma_drive_len(next_run, rest);
        let cs2 = seq![command] + agent_drive(next_run, rest);
        assert(agent_drive(run, replies) == cs2);
        assert(cs =~= seq![prev] + cs2);
        assert forall|k: int|
            1 <= k < cs.len() && #[trigger] cs[k] == (AgentCommandView::ApplyLabel {
                issue_n: n,
                label: IssueLabel::AgentFailed,
            }) implies cs[k - 1] == (AgentCommandView::RemoveLabel {
                issue_n: n,
                label: IssueLabel::AgentRunning,
            }) && cleared(replies[k - 1]) by {
            if k == 1 {
                assert(cs[1] == command);
                assert(cs[0] == prev);
            } else {
                assert(cs[k] == cs2[k - 1]);
                assert(cs[k - 1] == cs2[k - 2]);
                assert(replies[k - 1] == rest[k - 2]);
            }
        }
    } else {
        assert(agent_drive(run, replies) =~= Seq::<AgentCommandView>::empty());
        assert(cs =~= seq![prev]);
    }
}

/// A run adds `agent-failed` only right after it asked to take
/// `agent-running` off the issue and that succeeded: the move to
/// `agent-failed` takes two steps, the second only when the first succeeded.
pub proof fn lemma_failed_label_follows_cleared_running(
    issue: Issue,
    max_iterations: u32,
    max_iteration_secs: u64,
    replies: Seq<AgentReply>,
)
    ensures
        failed_only_after_cleared(
            agent_commands(issue, max_iterations, max_iteration_secs, replies),
            replies,
            issue.number,
        ),
        agent_commands(issue, max_iterations, max_iteration_secs, replies)[0] != (
        AgentCommandView::ApplyLabel { issue_n: issue.number, label: IssueLabel::AgentFailed }),
{
    let (run, first) = AgentRun::spec_start(issue, max_iterations, max_iteration_secs);
    lemma_drive_failed_after_cleared(run, first, replies);
}

/// A run that holds an error to report ends with an error whatever comes next.
proof fn lemma_drive_pending_error_persists(run: AgentRun, replies: Seq<AgentReply>)
    requires
        run.pending is Err,
    ensures
        forall|k: int|
            0 <= k < agent_drive(run, replies).len() && (#[trigger] agent_drive(run, replies)[k]) is Finish
                ==> (agent_drive(run, replies)[k]->Finish_0 is Err),
    decreases replies.len(),
{
    if replies.len() > 0 && run.expects(replies[0]) {
        let (next_run, command) = run.next(replies[0]);
        let rest = replies.drop_first();
        let cmds = agent_drive(run, replies);
        assert(cmds == seq![command] + agent_drive(next_run, rest));
        if next_run.pending is Err {
            lemma_drive_pending_error_persists(next_run, rest);
        } else {
            assert(next_run.step == AgentStep::Finished);
            assert(agent_drive(next_run, rest) =~= Seq::<AgentCommandView>::empty());
        }
        assert forall|k: int| 0 <= k < cmds.len() && (#[trigger] cmds[k]) is Finish implies (cmds[k]->Finish_0 is Err) by {
            if k > 0 {
                assert(cmds[k] == agent_drive(next_run, rest)[k - 1]);
            }
        }
    }
}

/// Once an operation of an agent run fails, other than the removal of its
/// worktree, the run ends with an error whatever comes next: a failed push
/// still moves the issue to `agent-failed` first, any other failure after the
/// worktree was created goes on to remove the worktree, and a failure before
/// that ends the run at once.
pub proof fn lemma_failed_operation_fails_run(
    run: AgentRun,
    reply: AgentReply,
    later: Seq<AgentReply>,
)
    requires
        run.expects(reply),
        reply_error(reply) is Some,
        run.step != AgentStep::RemovingWorktree,
    ensures
        forall|k: int|
            0 <= k < agent_drive(run, seq![reply] + later).len() && (#[trigger] agent_drive(
                run,
                seq![reply] + later,
            )[k]) is Finish ==> (agent_drive(run, seq![reply] + later)[k]->Finish_0 is Err),
        run.step == AgentStep::Pushing ==> run.next(reply).1 == (AgentCommandView::RemoveLabel {
            issue_n: run.issue_n,
            label: IssueLabel::AgentRunning,
        }),
        holds_worktree(run.step) && run.step != AgentStep::Pushing ==> run.next(reply) == run.clean_up(
            Err(reply_error(reply)->0),
        ),
        !holds_worktree(run.step) ==> run.next(reply).1 == AgentCommandView::Finish(
            Err(reply_error(reply)->0),
        ),
{
    let replies = seq![reply] + later;
    let (next_run, command) = run.next(reply);
    assert(replies[0] == reply);
    assert(replies.drop_first() =~= later);
    let cmds = agent_drive(run, replies);
    assert(cmds == seq![command] + agent_drive(next_run, later));
    if holds_worktree(run.step) {
        lemma_drive_pending_error_persists(next_run, later);
    } else {
        assert(agent_drive(next_run, later) =~= Seq::<AgentCommandView>::empty());
    }
    assert forall|k: int| 0 <= k < cmds.len() && (#[trigger] cmds[k]) is Finish implies (cmds[k]->Finish_0 is Err) by {
        if k > 0 {
            assert(cmds[k] == agent_drive(next_run, later)[k - 1]);
        }
    }
}

proof fn lemma_drive_removes_worktree(run: AgentRun, replies: Seq<AgentReply>)
    requires
        holds_worktree(run.step),
    ensures
        forall|k: int|
            0 <= k < agent_drive(run, replies).len() && (#[trigger] agent_drive(run, replies)[k]) is Finish
                ==> exists|j: int|
                0 <= j < k && agent_drive(run, replies)[j] == (AgentCommandView::RemoveWorktree {
                    issue_n: run.issue_n,
                }),
    decreases replies.len(),
{
    if replies.len() > 0 && run.expects(replies[0]) {
        let (next_run, command) = run.next(replies[0]);
        let rest = replies.drop_first();
        let cmds = agent_drive(run, replies);
        let tail = agent_drive(next_run, rest);
        assert(cmds == seq![command] + tail);
        assert(next_run.issue_n == run.issue_n);
        if holds_worktree(next_run.step) {
            lemma_drive_removes_worktree(next_run, rest);
            assert forall|k: int| 0 <= k < cmds.len() && (#[trigger] cmds[k]) is Finish implies exists|j: int|
                0 <= j < k && cmds[j] == (AgentCommandView::RemoveWorktree { issue_n: run.issue_n }) by {
                assert(cmds[k] == tail[k - 1]);
                let j = choose|j: int|
                    0 <= j < k - 1 && tail[j] == (AgentCommandView::RemoveWorktree { issue_n: run.issue_n });
                assert(cmds[j + 1] == tail[j]);
            }
        } else {
            assert(next_run.step == AgentStep::RemovingWorktree);
            assert(command == (AgentCommandView::RemoveWorktree { issue_n: run.issue_n }));
            assert forall|k: int| 0 <= k < cmds.len() && (#[trigger] cmds[k]) is Finish implies exists|j: int|
                0 <= j < k && cmds[j] == (AgentCommandView::RemoveWorktree { issue_n: run.issue_n }) by {
                assert(cmds[0] == command);
            }
        }
    }
}

/// Once the worktree of an agent run has been created, the run removes it
/// before it ends, whatever the replies to its later operations are: every
/// end of the run comes after the removal of the issue's worktree.
pub proof fn lemma_worktree_removed_before_end(run: AgentRun, replies: Seq<AgentReply>)
    requires
        run.step == AgentStep::CreatingWorktree,
        replies.len() > 0,
        replies[0] == AgentReply::Worktree(Ok(())),
    ensures
        forall|k: int|
            0 <= k < agent_drive(run, replies).len() && (#[trigger] agent_drive(run, replies)[k]) is Finish
                ==> exists|j: int|
                0 <= j < k && agent_drive(run, replies)[j] == (AgentCommandView::RemoveWorktree {
                    issue_n: run.issue_n,
                }),
{
    let (next_run, command) = run.next(replies[0]);
    let rest = replies.drop_first();
    let cmds = agent_drive(run, replies);
    let tail = agent_drive(next_run, rest);
    assert(next_run.step == AgentStep::FetchingDetails);
    assert(cmds == seq![command] + tail);
    lemma_drive_removes_worktree(next_run, rest);
    assert forall|k: int| 0 <= k < cmds.len() && (#[trigger] cmds[k]) is Finish implies exists|j: int|
        0 <= j < k && cmds[j] == (AgentCommandView::RemoveWorktree { issue_n: run.issue_n }) by {
        assert(cmds[k] == tail[k - 1]);
        let j = choose|j: int|
            0 <= j < k - 1 && tail[j] == (AgentCommandView::RemoveWorktree { issue_n: run.issue_n });
        assert(cmds[j + 1] == tail[j]);
    }
}

/// What the removal of the worktree comes to does not change how the run
/// ends: it ends with the result it held before the removal.
pub proof fn lemma_removal_result_ignored(
    run: AgentRun,
    first: Result<(), WorktreeError>,
    second: Result<(), WorktreeError>,
)
    requires
        run.step == AgentStep::RemovingWorktree,
    ensures
        run.next(AgentReply::Worktree(first)) == run.next(AgentReply::Worktree(second)),
        run.next(AgentReply::Worktree(first)).1 == AgentCommandView::Finish(run.pending),
{
}

proof fn lemma_step_done_label(run: AgentRun, reply: AgentReply)
    requires
        run.expects(reply),
    ensures
        run.next(reply).0.issue_n == run.issue_n,
        run.next(reply).1 == (AgentCommandView::ApplyLabel {
            issue_n: run.issue_n,
            label: IssueLabel::AgentDone,
        }) ==> run.step == AgentStep::ClearingRunning && cleared(reply),
        run.next(reply).0.step == AgentStep::ClearingRunning ==> run.next(reply).1 == (
        AgentCommandView::RemoveLabel { issue_n: run.issue_n, label: IssueLabel::AgentRunning }),
{
}

/// In `commands`, where `commands[k]` answers `replies[k - 1]`, every addition
/// of `agent-done` to issue `n` after the first operation comes right after
/// taking `agent-running` off it, which succeeded.
pub open spec fn done_only_after_cleared(
    commands: Seq<AgentCommandView>,
    replies: Seq<AgentReply>,
    n: u64,
) -> bool {
    forall|k: int|
        1 <= k < commands.len() && #[trigger] commands[k] == (AgentCommandView::ApplyLabel {
            issue_n: n,
            label: IssueLabel::AgentDone,
        }) ==> commands[k - 1] == (AgentCommandView::RemoveLabel {
            issue_n: n,
            label: IssueLabel::AgentRunning,
        }) && cleared(replies[k - 1])
}

proof fn lemma_drive_done_after_cleared(
    run: AgentRun,
    prev: AgentCommandView,
    replies: Seq<AgentReply>,
)
    requires
        run.step == AgentStep::ClearingRunning ==> prev == (AgentCommandView::RemoveLabel {
            issue_n: run.issue_n,
            label: IssueLabel::AgentRunning,
        }),
    ensures
        done_only_after_cleared(seq![prev] + agent_drive(run, replies), replies, run.issue_n),
    decreases replies.len(),
{
    let cs = seq![prev] + agent_drive(run, replies);
    let n = run.issue_n;
    if replies.len() > 0 && run.expects(replies[0]) {
        let pair = run.next(replies[0]);
        let next_run = pair.0;
        let command = pair.1;
        let rest = replies.drop_first();
        lemma_step_done_label(run, replies[0]);
        lemma_drive_done_after_cleared(next_run, command, rest);
        lemma_drive_len(next_run, rest);
        let cs2 = seq![command] + agent_drive(next_run, rest);
        assert(agent_drive(run, replies) == cs2);
        assert(cs =~= seq![prev] + cs2);
        assert forall|k: int|
            1 <= k < cs.len() && #[trigger] cs[k] == (AgentCommandView::ApplyLabel {
                issue_n: n,
                label: IssueLabel::AgentDone,
            }) implies cs[k - 1] == (AgentCommandView::RemoveLabel {
                issue_n: n,
                label: IssueLabel::AgentRunning,
            }) && cleared(replies[k - 1]) by {
            if k == 1 {
                assert(cs[1] == command);
                assert(cs[0] == prev);
            } else {
                assert(cs[k] == cs2[k - 1]);
                assert(cs[k - 1] == cs2[k - 2]);
                assert(replies[k - 1] == rest[k - 2]);
            }
        }
    } else {
        assert(agent_drive(run, replies) =~= Seq::<AgentCommandView>::empty());
        assert(cs =~= seq![prev]);
    }
}

/// A run adds `agent-done` only right after it asked to take `agent-running`
/// off the issue and that succeeded: an issue never carries both.
pub proof fn lemma_done_label_follows_cleared_running(
    issue: Issue,
    max_iterations: u32,
    max_iteration_secs: u64,
    replies: Seq<AgentReply>,
)
    ensures
        done_only_after_cleared(
            agent_commands(issue, max_iterations, max_iteration_secs, replies),
            replies,
            issue.number,
        ),
        agent_commands(issue, max_iterations, max_iteration_secs, replies)[0] != (
        AgentCommandView::ApplyLabel { issue_n: issue.number, label: IssueLabel::AgentDone }),
{
    let (run, first) = AgentRun::spec_start(issue, max_iterations, max_iteration_secs);
    lemma_drive_done_after_cleared(run, first, replies);
}

/// Before index `k` of `commands`, where `commands[j]` got the reply
/// `replies[j]`, every operation other than a removal of the worktree got a
/// reply that is not a failure.
pub open spec fn succeeded_before(
    commands: Seq<AgentCommandView>,
    replies: Seq<AgentReply>,
    k: int,
) -> bool {
    forall|j: int|
        0 <= j < k && !(commands[j] is RemoveWorktree) ==> (#[trigger] reply_error(replies[j])) is None
}

proof fn lemma_step_end_facts(run: AgentRun, reply: AgentReply)
    requires
        run.expects(reply),
    ensures
        run.next(reply).0.step == AgentStep::RemovingWorktree ==> run.next(reply).1 is RemoveWorktree,
        run.next(reply).1 is Finish ==> run.next(reply).0.step == AgentStep::Finished,
        run.step != AgentStep::RemovingWorktree && reply_error(reply) is Some ==> ((run.next(
            reply,
        ).1 is Finish && run.next(reply).1->Finish_0 is Err) || (run.next(reply).0.pending is Err
            && !(run.next(reply).1 is Finish))),
{
}

proof fn lemma_drive_ok_only_if_succeeded(
    run: AgentRun,
    prev: AgentCommandView,
    replies: Seq<AgentReply>,
)
    requires
        run.step == AgentStep::RemovingWorktree ==> prev is RemoveWorktree,
    ensures
        forall|k: int|
            0 <= k < (seq![prev] + agent_drive(run, replies)).len() && (#[trigger] (seq![prev]
                + agent_drive(run, replies))[k]) == AgentCommandView::Finish(Ok(()))
                ==> succeeded_before(seq![prev] + agent_drive(run, replies), replies, k),
    decreases replies.len(),
{
    let cs = seq![prev] + agent_drive(run, replies);
    if replies.len() > 0 && run.expects(replies[0]) {
        let pair = run.next(replies[0]);
        let next_run = pair.0;
        let command = pair.1;
        let rest = replies.drop_first();
        lemma_step_end_facts(run, replies[0]);
        lemma_drive_ok_only_if_succeeded(next_run, command, rest);
        lemma_drive_len(next_run, rest);
        let tail = agent_drive(next_run, rest);
        let cs2 = seq![command] + tail;
        assert(agent_drive(run, replies) == cs2);
        assert(cs =~= seq![prev] + cs2);
        if next_run.pending is Err {
            lemma_drive_pending_error_persists(next_run, rest);
        }
        if command is Finish {
            assert(tail =~= Seq::<AgentCommandView>::empty());
        }
        assert forall|k: int|
            0 <= k < cs.len() && (#[trigger] cs[k]) == AgentCommandView::Finish(Ok(())) implies succeeded_before(
            cs,
            replies,
            k,
        ) by {
            if k >= 1 {
                assert(cs[k] == cs2[k - 1]);
                if k >= 2 {
                    assert(cs2[k - 1] == tail[k - 2]);
                }
                assert forall|j: int|
                    0 <= j < k && !(cs[j] is RemoveWorktree) implies (#[trigger] reply_error(
                    replies[j],
                )) is None by {
                    if j == 0 {
                        assert(cs[0] == prev);
                    } else {
                        assert(cs[j] == cs2[j - 1]);
                        assert(replies[j] == rest[j - 1]);
                        assert(!(cs2[j - 1] is RemoveWorktree));
                        assert(reply_error(rest[j - 1]) is None);
                    }
                }
            }
        }
    } else {
        assert(agent_drive(run, replies) =~= Seq::<AgentCommandView>::empty());
        assert(cs =~= seq![prev]);
    }
}

/// An agent run ends with `Ok` only when every operation before the end got
/// a reply that is not a failure, the removal of the worktree alone excepted:
/// a failed label change (for `agent-running`, `ready-for-agent`,
/// `agent-done` or `agent-failed`), a failed creation of the worktree, fetch of
/// the issue's details, push or pull request always makes the run fail.
pub proof fn lemma_agent_ok_only_if_all_succeeded(
    issue: Issue,
    max_iterations: u32,
    max_iteration_secs: u64,
    replies: Seq<AgentReply>,
)
    ensures
        forall|k: int|
            0 <= k < agent_commands(issue, max_iterations, max_iteration_secs, replies).len() && (
            #[trigger] agent_commands(issue, max_iterations, max_iteration_secs, replies)[k])
                == AgentCommandView::Finish(Ok(())) ==> succeeded_before(
                agent_commands(issue, max_iterations, max_iteration_secs, replies),
                replies,
                k,
            ),
{
    let (run, first) = AgentRun::spec_start(issue, max_iterations, max_iteration_secs);
    lemma_drive_ok_only_if_succeeded(run, first, replies);
}

} // verus!
