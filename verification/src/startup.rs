use vstd::prelude::*;
use vstd::string::*;

use crate::github::{github_error_text, GithubError, Issue, IssueLabel};
use crate::worktree::{worktree_error_text, WorktreeError};

verus! {

/// Why the startup sweep could not complete.
#[derive(Debug)]
pub enum StartupError {
    Worktree(WorktreeError),
    Github(GithubError),
}

/// The message that describes a startup error.
pub open spec fn startup_error_text(e: StartupError) -> Seq<char> {
    match e {
        StartupError::Worktree(w) => "worktree error: "@ + worktree_error_text(w),
        StartupError::Github(g) => "github error: "@ + github_error_text(g),
    }
}

impl StartupError {
    /// The message that describes this error.
    pub fn message(&self) -> (m: String)
        ensures
            m@ == startup_error_text(*self),
    {
        let mut m = String::new();
        match self {
            StartupError::Worktree(w) => {
                m.append("worktree error: ");
                let inner = w.message();
                m.append(inner.as_str());
            },
            StartupError::Github(g) => {
                m.append("github error: ");
                let inner = g.message();
                m.append(inner.as_str());
            },
        }
        m
    }
}

/// An operation that the startup sweep asks for.
#[derive(Debug)]
pub enum SweepCommand {
    /// Delete the worktree base directory, if it exists.
    WipeBase,
    /// List the issues that carry `label`.
    ListIssues { label: IssueLabel },
    /// Take `label` off issue `issue_n`.
    RemoveLabel { issue_n: u64, label: IssueLabel },
    /// Add `label` to issue `issue_n`.
    ApplyLabel { issue_n: u64, label: IssueLabel },
    /// The sweep is over, with this result.
    Finish(Result<(), StartupError>),
}

/// What came of the operation that the sweep asked for.
#[derive(Debug)]
pub enum SweepReply {
    /// Wiping the worktree base directory.
    Wiped(Result<(), WorktreeError>),
    /// Listing the issues.
    Listed(Result<Vec<Issue>, GithubError>),
    /// A label change.
    Github(Result<(), GithubError>),
}

/// Where the sweep stands: which reply it waits for.
#[derive(Debug, Clone, Copy, PartialEq, Eq, Structural)]
pub enum SweepStep {
    Wiping,
    Listing,
    Removing,
    Applying,
    Finished,
}

/// The startup sweep: wipe the worktree base, then move every issue still
/// marked `agent-running` to `agent-failed`.
#[derive(Debug)]
pub struct StartupSweep {
    pub step: SweepStep,
    /// The numbers of the issues found running, in the order listed.
    pub stale: Vec<u64>,
    /// The issue that is being moved.
    pub index: usize,
}

/// The state of a startup sweep, with its issue numbers as a sequence.
pub struct StartupSweepView {
    pub step: SweepStep,
    pub stale: Seq<u64>,
    pub index: int,
}

impl View for StartupSweep {
    type V = StartupSweepView;

    open spec fn view(&self) -> StartupSweepView {
        StartupSweepView { step: self.step, stale: self.stale@, index: self.index as int }
    }
}

/// The sweep moves on to issue `index` of `stale`, starting by taking
/// `agent-running` off it, or ends when no issue is left.
pub open spec fn move_issue(stale: Seq<u64>, index: int) -> (StartupSweepView, SweepCommand) {
    if index < stale.len() {
        (
            StartupSweepView { step: SweepStep::Removing, stale, index },
            SweepCommand::RemoveLabel { issue_n: stale[index], label: IssueLabel::AgentRunning },
        )
    } else {
        (StartupSweepView { step: SweepStep::Finished, stale, index }, SweepCommand::Finish(Ok(())))
    }
}

/// The numbers of listed issues.
pub open spec fn issue_numbers(issues: Seq<Issue>) -> Seq<u64> {
    issues.map_values(|i: Issue| i.number)
}

impl StartupSweepView {
    /// The issue being moved is one of the issues found.
    pub open spec fn wf(self) -> bool {
        (self.step == SweepStep::Removing || self.step == SweepStep::Applying) ==> 0 <= self.index
            < self.stale.len()
    }

    /// Whether `reply` is the kind of reply that the sweep waits for.
    pub open spec fn expects(self, reply: SweepReply) -> bool {
        match self.step {
            SweepStep::Wiping => reply is Wiped,
            SweepStep::Listing => reply is Listed,
            SweepStep::Finished => false,
            _ => reply is Github,
        }
    }

    /// The sweep ends here with `result`.
    pub open spec fn finish(self, result: Result<(), StartupError>) -> (StartupSweepView, SweepCommand) {
        (StartupSweepView { step: SweepStep::Finished, ..self }, SweepCommand::Finish(result))
    }


    /// The sweep's next operation after `reply`, and the sweep that waits for its reply.
    pub open spec fn next(self, reply: SweepReply) -> (StartupSweepView, SweepCommand) {
        match reply {
            SweepReply::Wiped(Ok(_)) => (
                StartupSweepView { step: SweepStep::Listing, ..self },
                SweepCommand::ListIssues { label: IssueLabel::AgentRunning },
            ),
            SweepReply::Wiped(Err(e)) => self.finish(Err(StartupError::Worktree(e))),
            SweepReply::Listed(Ok(issues)) => move_issue(issue_numbers(issues@), 0),
            SweepReply::Listed(Err(e)) => self.finish(Err(StartupError::Github(e))),
            SweepReply::Github(Err(e)) => self.finish(Err(StartupError::Github(e))),
            SweepReply::Github(Ok(_)) => if self.step == SweepStep::Removing {
                (
                    StartupSweepView { step: SweepStep::Applying, ..self },
                    SweepCommand::ApplyLabel {
                        issue_n: self.stale[self.index],
                        label: IssueLabel::AgentFailed,
                    },
                )
            } else {
                move_issue(self.stale, self.index + 1)
            },
        }
    }
}

impl StartupSweep {
    /// Starts the sweep: the first operation wipes the worktree base.
    pub fn start() -> (res: (StartupSweep, SweepCommand))
        ensures
            res.0@ == sweep_start(),
            res.1 == SweepCommand::WipeBase,
    {
        let sweep = StartupSweep { step: SweepStep::Wiping, stale: Vec::new(), index: 0 };
        assert(sweep@ =~= sweep_start());
        (sweep, SweepCommand::WipeBase)
    }

    /// Whether the sweep is well formed and `reply` is the kind of reply that it waits for.
    pub fn accepts(&self, reply: &SweepReply) -> (b: bool)
        ensures
            b == (self@.wf() && self@.expects(*reply)),
    {
        let wf = match self.step {
            SweepStep::Removing | SweepStep::Applying => self.index < self.stale.len(),
            _ => true,
        };
        let expected = match self.step {
            SweepStep::Wiping => match reply {
                SweepReply::Wiped(_) => true,
                _ => false,
            },
            SweepStep::Listing => match reply {
                SweepReply::Listed(_) => true,
                _ => false,
            },
            SweepStep::Finished => false,
            _ => match reply {
                SweepReply::Github(_) => true,
                _ => false,
            },
        };
        wf && expected
    }

    fn end(self, result: Result<(), StartupError>) -> (res: (StartupSweep, SweepCommand))
        ensures
            (res.0@, res.1) == self@.finish(result),
    {
        (StartupSweep { step: SweepStep::Finished, ..self }, SweepCommand::Finish(result))
    }

    fn move_to(stale: Vec<u64>, index: usize) -> (res: (StartupSweep, SweepCommand))
        ensures
            (res.0@, res.1) == move_issue(stale@, index as int),
            res.0@.wf(),
    {
        if index < stale.len() {
            let issue_n = stale[index];
            (
                StartupSweep { step: SweepStep::Removing, stale, index },
                SweepCommand::RemoveLabel { issue_n, label: IssueLabel::AgentRunning },
            )
        } else {
            (StartupSweep { step: SweepStep::Finished, stale, index }, SweepCommand::Finish(Ok(())))
        }
    }

    /// Takes in what came of the last operation and answers with the next one.
    pub fn advance(self, reply: SweepReply) -> (res: (StartupSweep, SweepCommand))
        requires
            self@.wf(),
            self@.expects(reply),
        ensures
            (res.0@, res.1) == self@.next(reply),
            res.0@.wf(),
    {
        match reply {
            SweepReply::Wiped(Ok(_)) => (
                StartupSweep { step: SweepStep::Listing, ..self },
                SweepCommand::ListIssues { label: IssueLabel::AgentRunning },
            ),
            SweepReply::Wiped(Err(e)) => self.end(Err(StartupError::Worktree(e))),
            SweepReply::Listed(Ok(issues)) => {
                let mut stale: Vec<u64> = Vec::new();
                for i in 0..issues.len()
                    invariant
                        stale@ == issue_numbers(issues@.take(i as int)),
                {
                    stale.push(issues[i].number);
                    assert(issue_numbers(issues@.take(i + 1)) =~= issue_numbers(
                        issues@.take(i as int),
                    ).push(issues@[i as int].number));
                }
                assert(issues@.take(issues.len() as int) =~= issues@);
                StartupSweep::move_to(stale, 0)
            },
            SweepReply::Listed(Err(e)) => self.end(Err(StartupError::Github(e))),
            SweepReply::Github(Err(e)) => self.end(Err(StartupError::Github(e))),
            SweepReply::Github(Ok(_)) => {
                if self.step == SweepStep::Removing {
                    let issue_n = self.stale[self.index];
                    (
                        StartupSweep { step: SweepStep::Applying, ..self },
                        SweepCommand::ApplyLabel { issue_n, label: IssueLabel::AgentFailed },
                    )
                } else {
                    assert(self.step == SweepStep::Applying);
                    assert(self.index < self.stale.len());
                    let index = self.index + 1;
                    StartupSweep::move_to(self.stale, index)
                }
            },
        }
    }
}

/// The sweep before its first reply.
pub open spec fn sweep_start() -> StartupSweepView {
    StartupSweepView { step: SweepStep::Wiping, stale: Seq::empty(), index: 0 }
}

/// The operations that a sweep asks for when it is told `replies` in turn,
/// until a reply is not the kind it waits for or the sweep is over.
pub open spec fn sweep_drive(sweep: StartupSweepView, replies: Seq<SweepReply>) -> Seq<SweepCommand>
    decreases replies.len(),
{
    if replies.len() == 0 || !sweep.expects(replies[0]) {
        Seq::empty()
    } else {
        let (next_sweep, command) = sweep.next(replies[0]);
        seq![command] + sweep_drive(next_sweep, replies.drop_first())
    }
}

/// Every operation of a sweep told `replies`, the first one included.
pub open spec fn sweep_commands(replies: Seq<SweepReply>) -> Seq<SweepCommand> {
    seq![SweepCommand::WipeBase] + sweep_drive(sweep_start(), replies)
}

/// `n` successful label changes.
pub open spec fn label_successes(n: nat) -> Seq<SweepReply> {
    Seq::new(n, |i: int| SweepReply::Github(Ok(())))
}

/// The label changes that move the issues `stale[index..]` from
/// `agent-running` to `agent-failed`, one issue after the other.
pub open spec fn flips_from(stale: Seq<u64>, index: int) -> Seq<SweepCommand>
    decreases stale.len() - index,
{
    if index < 0 || index >= stale.len() {
        Seq::empty()
    } else {
        seq![
            SweepCommand::RemoveLabel { issue_n: stale[index], label: IssueLabel::AgentRunning },
            SweepCommand::ApplyLabel { issue_n: stale[index], label: IssueLabel::AgentFailed },
        ] + flips_from(stale, index + 1)
    }
}

/// The labels issue `issue_n` carries after the changes among `commands` that concern it.
pub open spec fn issue_labels_after(
    issue_n: u64,
    labels: Set<IssueLabel>,
    commands: Seq<SweepCommand>,
) -> Set<IssueLabel>
    decreases commands.len(),
{
    if commands.len() == 0 {
        labels
    } else {
        let changed = match commands[0] {
            SweepCommand::ApplyLabel { issue_n: m, label } => if m == issue_n {
                labels.insert(label)
            } else {
                labels
            },
            SweepCommand::RemoveLabel { issue_n: m, label } => if m == issue_n {
                labels.remove(label)
            } else {
                labels
            },
            _ => labels,
        };
        issue_labels_after(issue_n, changed, commands.drop_first())
    }
}

/// The labels of an issue that the sweep moved: `agent-running` gone, `agent-failed` added.
pub open spec fn swept_labels(labels: Set<IssueLabel>) -> Set<IssueLabel> {
    labels.remove(IssueLabel::AgentRunning).insert(IssueLabel::AgentFailed)
}

proof fn lemma_flips_drive(stale: Seq<u64>, index: int)
    requires
        0 <= index <= stale.len(),
    ensures
        ({
            let (sweep, command) = move_issue(stale, index);
            seq![command] + sweep_drive(sweep, label_successes((2 * (stale.len() - index)) as nat))
                == flips_from(stale, index) + seq![SweepCommand::Finish(Ok(()))]
        }),
    decreases stale.len() - index,
{
    let (sweep, command) = move_issue(stale, index);
    let replies = label_successes((2 * (stale.len() - index)) as nat);
    if index == stale.len() {
        assert(sweep_drive(sweep, replies) =~= Seq::<SweepCommand>::empty());
        assert(flips_from(stale, index) =~= Seq::<SweepCommand>::empty());
        assert(seq![command] + sweep_drive(sweep, replies) =~= flips_from(stale, index) + seq![
            SweepCommand::Finish(Ok(())),
        ]);
    } else {
        let (applying, apply) = sweep.next(replies[0]);
        let rest = replies.drop_first();
        let (next_sweep, next_command) = applying.next(rest[0]);
        let rest2 = rest.drop_first();
        assert(rest2 =~= label_successes((2 * (stale.len() - index - 1)) as nat));
        assert((next_sweep, next_command) == move_issue(stale, index + 1));
        lemma_flips_drive(stale, index + 1);
        assert(sweep_drive(applying, rest) == seq![next_command] + sweep_drive(next_sweep, rest2));
        assert(sweep_drive(sweep, replies) == seq![apply] + sweep_drive(applying, rest));
        assert(seq![command] + sweep_drive(sweep, replies) =~= flips_from(stale, index) + seq![
            SweepCommand::Finish(Ok(())),
        ]);
    }
}

/// When every operation succeeds, the sweep wipes the worktree base first,
/// then lists the issues marked `agent-running`, then for each of them in
/// turn takes `agent-running` off and adds `agent-failed`, and ends with `Ok`.
pub proof fn lemma_sweep_lifecycle(issues: Seq<Issue>, listing: Vec<Issue>)
    requires
        listing@ == issues,
    ensures
        sweep_commands(
            seq![SweepReply::Wiped(Ok(())), SweepReply::Listed(Ok(listing))] + label_successes(
                (2 * issues.len()) as nat,
            ),
        ) == seq![
            SweepCommand::WipeBase,
            SweepCommand::ListIssues { label: IssueLabel::AgentRunning },
        ] + flips_from(issue_numbers(issues), 0) + seq![SweepCommand::Finish(Ok(()))],
{
    let stale = issue_numbers(issues);
    let oks = label_successes((2 * issues.len()) as nat);
    let replies = seq![SweepReply::Wiped(Ok(())), SweepReply::Listed(Ok(listing))] + oks;
    let s0 = sweep_start();
    let (s1, c1) = s0.next(replies[0]);
    let (s2, c2) = s1.next(replies[1]);
    assert(replies.drop_first().drop_first() =~= oks);
    assert(replies.drop_first()[0] == replies[1]);
    assert((s2, c2) == move_issue(stale, 0));
    lemma_flips_drive(stale, 0);
    assert(sweep_drive(s1, replies.drop_first()) == seq![c2] + sweep_drive(s2, oks));
    assert(sweep_drive(s0, replies) == seq![c1] + sweep_drive(s1, replies.drop_first()));
    assert(sweep_commands(replies) =~= seq![
        SweepCommand::WipeBase,
        SweepCommand::ListIssues { label: IssueLabel::AgentRunning },
    ] + flips_from(stale, 0) + seq![SweepCommand::Finish(Ok(()))]);
}

proof fn lemma_issue_labels_concat(
    issue_n: u64,
    labels: Set<IssueLabel>,
    a: Seq<SweepCommand>,
    b: Seq<SweepCommand>,
)
    ensures
        issue_labels_after(issue_n, labels, a + b) == issue_labels_after(
            issue_n,
            issue_labels_after(issue_n, labels, a),
            b,
        ),
    decreases a.len(),
{
    if a.len() > 0 {
        let changed = match a[0] {
            SweepCommand::ApplyLabel { issue_n: m, label } => if m == issue_n {
                labels.insert(label)
            } else {
                labels
            },
            SweepCommand::RemoveLabel { issue_n: m, label } => if m == issue_n {
                labels.remove(label)
            } else {
                labels
            },
            _ => labels,
        };
        assert((a + b).drop_first() =~= a.drop_first() + b);
        lemma_issue_labels_concat(issue_n, changed, a.drop_first(), b);
    }
}

proof fn lemma_flips_labels(issue_n: u64, labels: Set<IssueLabel>, stale: Seq<u64>, index: int)
    requires
        0 <= index <= stale.len(),
    ensures
        issue_labels_after(issue_n, labels, flips_from(stale, index)) == if stale.subrange(
            index,
            stale.len() as int,
        ).contains(issue_n) {
            swept_labels(labels)
        } else {
            labels
        },
    decreases stale.len() - index,
{
    if index < stale.len() {
        let m = stale[index];
        let pair = seq![
            SweepCommand::RemoveLabel { issue_n: m, label: IssueLabel::AgentRunning },
            SweepCommand::ApplyLabel { issue_n: m, label: IssueLabel::AgentFailed },
        ];
        lemma_issue_labels_concat(issue_n, labels, pair, flips_from(stale, index + 1));
        let after_pair = issue_labels_after(issue_n, labels, pair);
        reveal_with_fuel(issue_labels_after, 3);
        assert(after_pair == if m == issue_n {
            swept_labels(labels)
        } else {
            labels
        });
        lemma_flips_labels(issue_n, after_pair, stale, index + 1);
        let tail = stale.subrange(index + 1, stale.len() as int);
        let whole = stale.subrange(index, stale.len() as int);
        assert(whole =~= seq![m] + tail);
        assert(whole.contains(issue_n) <==> (m == issue_n || tail.contains(issue_n))) by {
            assert(whole[0] == m);
            if tail.contains(issue_n) {
                let j = choose|j: int| 0 <= j < tail.len() && tail[j] == issue_n;
                assert(whole[j + 1] == issue_n);
            }
            if whole.contains(issue_n) && m != issue_n {
                let j = choose|j: int| 0 <= j < whole.len() && whole[j] == issue_n;
                assert(tail[j - 1] == issue_n);
            }
        }
        assert(swept_labels(swept_labels(labels)) =~= swept_labels(labels));
    } else {
        assert(stale.subrange(index, stale.len() as int) =~= Seq::<u64>::empty());
    }
}

/// When every operation succeeds, each issue that the sweep found marked
/// `agent-running` ends up without it and with `agent-failed`, and every
/// other issue keeps its labels.
pub proof fn lemma_sweep_moves_running_to_failed(
    issues: Seq<Issue>,
    listing: Vec<Issue>,
    issue_n: u64,
    labels: Set<IssueLabel>,
)
    requires
        listing@ == issues,
    ensures
        issue_labels_after(
            issue_n,
            labels,
            sweep_commands(
                seq![SweepReply::Wiped(Ok(())), SweepReply::Listed(Ok(listing))] + label_successes(
                    (2 * issues.len()) as nat,
                ),
            ),
        ) == if issue_numbers(issues).contains(issue_n) {
            swept_labels(labels)
        } else {
            labels
        },
{
    let stale = issue_numbers(issues);
    lemma_sweep_lifecycle(issues, listing);
    let head = seq![
        SweepCommand::WipeBase,
        SweepCommand::ListIssues { label: IssueLabel::AgentRunning },
    ];
    let fin = seq![SweepCommand::Finish(Ok(()))];
    lemma_issue_labels_concat(issue_n, labels, head + flips_from(stale, 0), fin);
    lemma_issue_labels_concat(issue_n, labels, head, flips_from(stale, 0));
    reveal_with_fuel(issue_labels_after, 3);
    assert(issue_labels_after(issue_n, labels, head) == labels);
    lemma_flips_labels(issue_n, labels, stale, 0);
    assert(stale.subrange(0, stale.len() as int) =~= stale);
}

proof fn lemma_flips_len(stale: Seq<u64>, index: int)
    requires
        0 <= index <= stale.len(),
    ensures
        flips_from(stale, index).len() == 2 * (stale.len() - index),
    decreases stale.len() - index,
{
    if index < stale.len() {
        lemma_flips_len(stale, index + 1);
    }
}

proof fn lemma_flips_fail(
    stale: Seq<u64>,
    index: int,
    p: nat,
    e: GithubError,
    later: Seq<SweepReply>,
)
    requires
        0 <= index < stale.len(),
        p < 2 * (stale.len() - index),
    ensures
        ({
            let (sweep, command) = move_issue(stale, index);
            seq![command] + sweep_drive(
                sweep,
                label_successes(p) + seq![SweepReply::Github(Err(e))] + later,
            ) == flips_from(stale, index).take((p + 1) as int) + seq![
                SweepCommand::Finish(Err(StartupError::Github(e))),
            ]
        }),
    decreases p,
{
    let (sweep, command) = move_issue(stale, index);
    let replies = label_successes(p) + seq![SweepReply::Github(Err(e))] + later;
    let fin = SweepCommand::Finish(Err(StartupError::Github(e)));
    let flips = flips_from(stale, index);
    let remove = SweepCommand::RemoveLabel { issue_n: stale[index], label: IssueLabel::AgentRunning };
    let apply = SweepCommand::ApplyLabel { issue_n: stale[index], label: IssueLabel::AgentFailed };
    assert(flips[0] == remove);
    assert(flips[1] == apply);
    assert(command == remove);
    if p == 0 {
        assert(replies[0] == SweepReply::Github(Err(e)));
        let (done, c1) = sweep.next(replies[0]);
        assert(c1 == fin);
        assert(sweep_drive(done, replies.drop_first()) =~= Seq::<SweepCommand>::empty());
        assert(sweep_drive(sweep, replies) =~= seq![fin]);
        assert(flips.take(1) =~= seq![remove]);
        assert(seq![command] + sweep_drive(sweep, replies) =~= flips.take(1) + seq![fin]);
    } else {
        assert(replies[0] == SweepReply::Github(Ok(())));
        let (applying, c1) = sweep.next(replies[0]);
        assert(c1 == apply);
        let rest = replies.drop_first();
        assert(sweep_drive(sweep, replies) == seq![c1] + sweep_drive(applying, rest));
        if p == 1 {
            assert(rest[0] == SweepReply::Github(Err(e)));
            let (done, c2) = applying.next(rest[0]);
            assert(c2 == fin);
            assert(sweep_drive(done, rest.drop_first()) =~= Seq::<SweepCommand>::empty());
            assert(sweep_drive(applying, rest) =~= seq![fin]);
            assert(flips.take(2) =~= seq![remove, apply]);
            assert(seq![command] + sweep_drive(sweep, replies) =~= flips.take(2) + seq![fin]);
        } else {
            assert(rest[0] == SweepReply::Github(Ok(())));
            let (next_sweep, c2) = applying.next(rest[0]);
            assert((next_sweep, c2) == move_issue(stale, index + 1));
            let rest2 = rest.drop_first();
            assert(rest2 =~= label_successes((p - 2) as nat) + seq![SweepReply::Github(Err(e))]
                + later);
            lemma_flips_fail(stale, index + 1, (p - 2) as nat, e, later);
            lemma_flips_len(stale, index + 1);
            assert(sweep_drive(applying, rest) == seq![c2] + sweep_drive(next_sweep, rest2));
            assert(flips =~= seq![remove, apply] + flips_from(stale, index + 1));
            assert(flips.take((p + 1) as int) =~= seq![remove, apply] + flips_from(stale, index + 1).take(
                (p - 1) as int,
            ));
            assert(seq![command] + sweep_drive(sweep, replies) =~= flips.take((p + 1) as int) + seq![fin]);
        }
    }
}

/// When the listing succeeds and the `p`-th label change fails (counting from
/// 0: removals and additions alternate, issue by issue), the issues before it
/// were moved to `agent-failed` in full, no change comes after the failed one,
/// and the sweep ends with that failure, whatever replies would follow.
pub proof fn lemma_sweep_stops_at_failed_change(
    issues: Seq<Issue>,
    listing: Vec<Issue>,
    p: nat,
    e: GithubError,
    later: Seq<SweepReply>,
)
    requires
        listing@ == issues,
        p < 2 * issues.len(),
    ensures
        sweep_commands(
            seq![SweepReply::Wiped(Ok(())), SweepReply::Listed(Ok(listing))] + label_successes(p)
                + seq![SweepReply::Github(Err(e))] + later,
        ) == seq![
            SweepCommand::WipeBase,
            SweepCommand::ListIssues { label: IssueLabel::AgentRunning },
        ] + flips_from(issue_numbers(issues), 0).take((p + 1) as int) + seq![
            SweepCommand::Finish(Err(StartupError::Github(e))),
        ],
{
    let stale = issue_numbers(issues);
    let tail = label_successes(p) + seq![SweepReply::Github(Err(e))] + later;
    let replies = seq![SweepReply::Wiped(Ok(())), SweepReply::Listed(Ok(listing))] + tail;
    assert(replies =~= seq![SweepReply::Wiped(Ok(())), SweepReply::Listed(Ok(listing))]
        + label_successes(p) + seq![SweepReply::Github(Err(e))] + later);
    let s0 = sweep_start();
    let (s1, c1) = s0.next(replies[0]);
    let (s2, c2) = s1.next(replies[1]);
    assert(replies.drop_first().drop_first() =~= tail);
    assert(replies.drop_first()[0] == replies[1]);
    assert((s2, c2) == move_issue(stale, 0));
    lemma_flips_fail(stale, 0, p, e, later);
    assert(sweep_drive(s1, replies.drop_first()) == seq![c2] + sweep_drive(s2, tail));
    assert(sweep_drive(s0, replies) == seq![c1] + sweep_drive(s1, replies.drop_first()));
    assert(sweep_commands(replies) =~= seq![
        SweepCommand::WipeBase,
        SweepCommand::ListIssues { label: IssueLabel::AgentRunning },
    ] + flips_from(stale, 0).take((p + 1) as int) + seq![SweepCommand::Finish(Err(StartupError::Github(e)))]);
}

/// A failed wipe ends the sweep at once with that failure: no issue is
/// listed or changed.
pub proof fn lemma_sweep_stops_at_failed_wipe(w: WorktreeError, later: Seq<SweepReply>)
    ensures
        sweep_commands(seq![SweepReply::Wiped(Err(w))] + later) == seq![
            SweepCommand::WipeBase,
            SweepCommand::Finish(Err(StartupError::Worktree(w))),
        ],
{
    let replies = seq![SweepReply::Wiped(Err(w))] + later;
    let (s1, c1) = sweep_start().next(replies[0]);
    assert(replies[0] == SweepReply::Wiped(Err(w)));
    assert(sweep_drive(s1, replies.drop_first()) =~= Seq::<SweepCommand>::empty());
    assert(sweep_commands(replies) =~= seq![
        SweepCommand::WipeBase,
        SweepCommand::Finish(Err(StartupError::Worktree(w))),
    ]);
}

/// Whether a label change takes `agent-running` off, or adds `agent-failed`
/// to, one of the issues `stale`; other operations pass.
pub open spec fn flips_listed(command: SweepCommand, stale: Seq<u64>) -> bool {
    match command {
        SweepCommand::RemoveLabel { issue_n, label } => label == IssueLabel::AgentRunning
            && stale.contains(issue_n),
        SweepCommand::ApplyLabel { issue_n, label } => label == IssueLabel::AgentFailed
            && stale.contains(issue_n),
        _ => true,
    }
}

proof fn lemma_drive_flips_listed(sweep: StartupSweepView, replies: Seq<SweepReply>)
    requires
        sweep.wf(),
        sweep.step == SweepStep::Removing || sweep.step == SweepStep::Applying || sweep.step
            == SweepStep::Finished,
    ensures
        forall|k: int|
            0 <= k < sweep_drive(sweep, replies).len() ==> flips_listed(
                #[trigger] sweep_drive(sweep, replies)[k],
                sweep.stale,
            ),
    decreases replies.len(),
{
    if replies.len() > 0 && sweep.expects(replies[0]) {
        let (next_sweep, command) = sweep.next(replies[0]);
        let rest = replies.drop_first();
        let cmds = sweep_drive(sweep, replies);
        assert(cmds == seq![command] + sweep_drive(next_sweep, rest));
        assert(next_sweep.stale == sweep.stale);
        assert(flips_listed(command, sweep.stale)) by {
            if sweep.step == SweepStep::Removing && replies[0] is Github && replies[0]->Github_0 is Ok {
                assert(sweep.stale[sweep.index] == sweep.stale[sweep.index]);
            }
            if sweep.step == SweepStep::Applying && replies[0] is Github && replies[0]->Github_0 is Ok
                && sweep.index + 1 < sweep.stale.len() {
                assert(sweep.stale[sweep.index + 1] == sweep.stale[sweep.index + 1]);
            }
        }
        lemma_drive_flips_listed(next_sweep, rest);
        assert forall|k: int| 0 <= k < cmds.len() implies flips_listed(#[trigger] cmds[k], sweep.stale) by {
            if k > 0 {
                assert(cmds[k] == sweep_drive(next_sweep, rest)[k - 1]);
            }
        }
    }
}

/// Whatever the replies, the sweep changes no label but to take
/// `agent-running` off, or add `agent-failed` to, an issue that its listing
/// of running issues returned.
pub proof fn lemma_sweep_only_flips_listed(replies: Seq<SweepReply>)
    ensures
        forall|k: int|
            0 <= k < sweep_commands(replies).len() && (#[trigger] sweep_commands(replies)[k] is RemoveLabel
                || sweep_commands(replies)[k] is ApplyLabel) ==> (replies.len() >= 2
                && replies[1] is Listed && replies[1]->Listed_0 is Ok && flips_listed(
                sweep_commands(replies)[k],
                issue_numbers(replies[1]->Listed_0->Ok_0@),
            )),
{
    let cmds = sweep_commands(replies);
    let s0 = sweep_start();
    if replies.len() > 0 && s0.expects(replies[0]) {
        let (s1, c1) = s0.next(replies[0]);
        let rest = replies.drop_first();
        assert(cmds == seq![SweepCommand::WipeBase] + (seq![c1] + sweep_drive(s1, rest)));
        if rest.len() > 0 && s1.expects(rest[0]) {
            let (s2, c2) = s1.next(rest[0]);
            assert(rest[0] == replies[1]);
            let rest2 = rest.drop_first();
            assert(sweep_drive(s1, rest) == seq![c2] + sweep_drive(s2, rest2));
            if replies[1] is Listed && replies[1]->Listed_0 is Ok {
                let stale = issue_numbers(replies[1]->Listed_0->Ok_0@);
                assert((s2, c2) == move_issue(stale, 0));
                lemma_drive_flips_listed(s2, rest2);
                assert(flips_listed(c2, stale)) by {
                    if 0 < stale.len() {
                        assert(stale[0] == stale[0]);
                    }
                }
                assert forall|k: int|
                    0 <= k < cmds.len() && (#[trigger] cmds[k] is RemoveLabel || cmds[k] is ApplyLabel)
                    implies flips_listed(cmds[k], stale) by {
                    if k > 2 {
                        assert(cmds[k] == sweep_drive(s2, rest2)[k - 3]);
                    }
                }
            } else {
                assert(s2.step == SweepStep::Finished);
                assert(sweep_drive(s2, rest2) =~= Seq::<SweepCommand>::empty());
            }
        } else {
            assert(sweep_drive(s1, rest) =~= Seq::<SweepCommand>::empty());
        }
    } else {
        assert(sweep_drive(s0, replies) =~= Seq::<SweepCommand>::empty());
    }
}

} // verus!
