use vstd::prelude::*;
use vstd::string::*;

use crate::text::{decimal, decimal_string, push_signed_decimal, signed_decimal};

verus! {

broadcast use vstd::seq_lib::to_multiset_insert;

/// An issue as a listing of the repository gives it.
#[derive(Debug, Clone)]
pub struct Issue {
    pub number: u64,
    pub title: String,
}

/// The body of an issue and its comments, oldest first.
#[derive(Debug)]
pub struct IssueDetails {
    pub body: String,
    pub comments: Vec<String>,
}

/// Runs `gh` in a working directory, which decides the repository it acts on.
#[derive(Debug)]
pub struct GithubClient {
    cwd: String,
}

/// Why a `gh` or `git` call failed.
#[derive(Debug)]
pub enum GithubError {
    /// The process could not be run; the text is the system's message.
    Io(String),
    /// The process exited unsuccessfully.
    Gh { code: Option<i32>, stderr: String },
    /// The process's output could not be read as the expected JSON.
    Parse(String),
}

/// The labels that mark where an issue stands in the lifecycle.
#[derive(Debug, Clone, Copy, PartialEq, Eq, Structural)]
pub enum IssueLabel {
    ReadyForAgent,
    AgentRunning,
    AgentDone,
    AgentFailed,
}

/// The name of a label on the issue tracker.
pub open spec fn label_name(label: IssueLabel) -> Seq<char> {
    match label {
        IssueLabel::ReadyForAgent => "ready-for-agent"@,
        IssueLabel::AgentRunning => "agent-running"@,
        IssueLabel::AgentDone => "agent-done"@,
        IssueLabel::AgentFailed => "agent-failed"@,
    }
}

impl IssueLabel {
    /// The label's name on the issue tracker.
    pub fn name(self) -> (s: &'static str)
        ensures
            s@ == label_name(self),
    {
        match self {
            IssueLabel::ReadyForAgent => "ready-for-agent",
            IssueLabel::AgentRunning => "agent-running",
            IssueLabel::AgentDone => "agent-done",
            IssueLabel::AgentFailed => "agent-failed",
        }
    }
}

impl View for GithubClient {
    type V = Seq<char>;

    /// The working directory.
    closed spec fn view(&self) -> Seq<char> {
        self.cwd@
    }
}

impl GithubClient {
    /// A client that runs `gh` in `cwd`.
    pub fn new(cwd: &str) -> (client: GithubClient)
        ensures
            client@ == cwd@,
    {
        GithubClient { cwd: String::from_str(cwd) }
    }

    /// The directory that `gh` runs in.
    pub fn cwd(&self) -> (cwd: &str)
        ensures
            cwd@ == self@,
    {
        self.cwd.as_str()
    }
}

/// How an optional exit code is printed for debugging: `Some(2)` or `None`.
pub open spec fn option_code_text(code: Option<i32>) -> Seq<char> {
    match code {
        Some(c) => "Some("@ + signed_decimal(c as int) + ")"@,
        None => "None"@,
    }
}

/// Appends the debugging form of an optional exit code.
pub fn push_option_code(s: &mut String, code: Option<i32>)
    ensures
        final(s)@ == old(s)@ + option_code_text(code),
{
    match code {
        Some(c) => {
            s.append("Some(");
            push_signed_decimal(s, c);
            s.append(")");
            assert(s@ =~= old(s)@ + option_code_text(code));
        },
        None => {
            s.append("None");
        },
    }
}

/// The message that describes a `gh` error.
pub open spec fn github_error_text(e: GithubError) -> Seq<char> {
    match e {
        GithubError::Io(msg) => "io error: "@ + msg@,
        GithubError::Gh { code, stderr } => "gh exited "@ + option_code_text(code) + ": "@ + stderr@,
        GithubError::Parse(msg) => "parse error: "@ + msg@,
    }
}

impl GithubError {
    /// The message that describes this error.
    pub fn message(&self) -> (m: String)
        ensures
            m@ == github_error_text(*self),
    {
        let mut m = String::new();
        match self {
            GithubError::Io(msg) => {
                m.append("io error: ");
                m.append(msg.as_str());
            },
            GithubError::Gh { code, stderr } => {
                m.append("gh exited ");
                push_option_code(&mut m, *code);
                m.append(": ");
                m.append(stderr.as_str());
            },
            GithubError::Parse(msg) => {
                m.append("parse error: ");
                m.append(msg.as_str());
            },
        }
        m
    }
}

/// The texts of a list of command-line arguments.
pub open spec fn arg_texts(args: Seq<String>) -> Seq<Seq<char>> {
    args.map_values(|a: String| a@)
}

fn push_arg(args: &mut Vec<String>, a: &str)
    ensures
        arg_texts(final(args)@) == arg_texts(old(args)@).push(a@),
{
    args.push(String::from_str(a));
    assert(arg_texts(args@) =~= arg_texts(old(args)@).push(a@));
}

/// `gh issue list` arguments that list the issues that carry `label`, as JSON
/// objects with their number and title.
pub fn list_issues_args(label: IssueLabel) -> (args: Vec<String>)
    ensures
        arg_texts(args@) == seq![
            "issue"@,
            "list"@,
            "--label"@,
            label_name(label),
            "--json"@,
            "number,title"@,
        ],
{
    let mut args: Vec<String> = Vec::new();
    assert(arg_texts(args@) =~= Seq::<Seq<char>>::empty());
    push_arg(&mut args, "issue");
    push_arg(&mut args, "list");
    push_arg(&mut args, "--label");
    push_arg(&mut args, label.name());
    push_arg(&mut args, "--json");
    push_arg(&mut args, "number,title");
    args
}

/// `gh issue edit` arguments that add `label` to issue `issue_n`.
pub fn apply_label_args(issue_n: u64, label: &str) -> (args: Vec<String>)
    ensures
        arg_texts(args@) == seq![
            "issue"@,
            "edit"@,
            decimal(issue_n as nat),
            "--add-label"@,
            label@,
        ],
{
    let mut args: Vec<String> = Vec::new();
    assert(arg_texts(args@) =~= Seq::<Seq<char>>::empty());
    push_arg(&mut args, "issue");
    push_arg(&mut args, "edit");
    let n = decimal_string(issue_n);
    push_arg(&mut args, n.as_str());
    push_arg(&mut args, "--add-label");
    push_arg(&mut args, label);
    args
}

/// `gh issue edit` arguments that take `label` off issue `issue_n`.
pub fn remove_label_args(issue_n: u64, label: &str) -> (args: Vec<String>)
    ensures
        arg_texts(args@) == seq![
            "issue"@,
            "edit"@,
            decimal(issue_n as nat),
            "--remove-label"@,
            label@,
        ],
{
    let mut args: Vec<String> = Vec::new();
    assert(arg_texts(args@) =~= Seq::<Seq<char>>::empty());
    push_arg(&mut args, "issue");
    push_arg(&mut args, "edit");
    let n = decimal_string(issue_n);
    push_arg(&mut args, n.as_str());
    push_arg(&mut args, "--remove-label");
    push_arg(&mut args, label);
    args
}

/// `gh issue view` arguments that give the body and comments of issue `issue_n` as JSON.
pub fn issue_details_args(issue_n: u64) -> (args: Vec<String>)
    ensures
        arg_texts(args@) == seq![
            "issue"@,
            "view"@,
            decimal(issue_n as nat),
            "--json"@,
            "body,comments"@,
        ],
{
    let mut args: Vec<String> = Vec::new();
    assert(arg_texts(args@) =~= Seq::<Seq<char>>::empty());
    push_arg(&mut args, "issue");
    push_arg(&mut args, "view");
    let n = decimal_string(issue_n);
    push_arg(&mut args, n.as_str());
    push_arg(&mut args, "--json");
    push_arg(&mut args, "body,comments");
    args
}

/// The body of the pull request for issue `issue_n`, which closes the issue.
pub open spec fn pr_body_text(issue_n: nat) -> Seq<char> {
    "Closes #"@ + decimal(issue_n)
}

/// The body of the pull request for issue `issue_n`.
pub fn pr_body(issue_n: u64) -> (body: String)
    ensures
        body@ == pr_body_text(issue_n as nat),
{
    let mut body = String::new();
    body.append("Closes #");
    let n = decimal_string(issue_n);
    body.append(n.as_str());
    body
}

/// `gh pr create` arguments that open the pull request for issue `issue_n`.
pub fn open_pr_args(issue_n: u64, title: &str) -> (args: Vec<String>)
    ensures
        arg_texts(args@) == seq![
            "pr"@,
            "create"@,
            "--title"@,
            title@,
            "--body"@,
            pr_body_text(issue_n as nat),
        ],
{
    let mut args: Vec<String> = Vec::new();
    assert(arg_texts(args@) =~= Seq::<Seq<char>>::empty());
    push_arg(&mut args, "pr");
    push_arg(&mut args, "create");
    push_arg(&mut args, "--title");
    push_arg(&mut args, title);
    push_arg(&mut args, "--body");
    let body = pr_body(issue_n);
    push_arg(&mut args, body.as_str());
    args
}

/// `git` arguments that push `branch` to the `origin` remote.
pub fn push_branch_args(branch: &str) -> (args: Vec<String>)
    ensures
        arg_texts(args@) == seq!["push"@, "origin"@, branch@],
{
    let mut args: Vec<String> = Vec::new();
    assert(arg_texts(args@) =~= Seq::<Seq<char>>::empty());
    push_arg(&mut args, "push");
    push_arg(&mut args, "origin");
    push_arg(&mut args, branch);
    args
}

/// What a finished `gh` call gives: its standard output when it exited
/// successfully, otherwise its exit code and standard error.
pub fn command_output(success: bool, code: Option<i32>, stdout: String, stderr: String) -> (res:
    Result<String, GithubError>)
    ensures
        success ==> res == Ok::<String, GithubError>(stdout),
        !success ==> res == Err::<String, GithubError>(GithubError::Gh { code, stderr }),
{
    if success {
        Ok(stdout)
    } else {
        Err(GithubError::Gh { code, stderr })
    }
}

/// What a finished call gives whose output is not read.
pub fn command_status(success: bool, code: Option<i32>, stderr: String) -> (res: Result<
    (),
    GithubError,
>)
    ensures
        success ==> res == Ok::<(), GithubError>(()),
        !success ==> res == Err::<(), GithubError>(GithubError::Gh { code, stderr }),
{
    if success {
        Ok(())
    } else {
        Err(GithubError::Gh { code, stderr })
    }
}

/// Issues in ascending order of their numbers.
pub open spec fn sorted_by_number(s: Seq<Issue>) -> bool {
    forall|i: int, j: int| 0 <= i <= j < s.len() ==> s[i].number <= s[j].number
}

/// Where an issue numbered `number` goes in `s`: after every issue in front
/// that has a number no greater than it.
pub open spec fn insert_pos(s: Seq<Issue>, number: u64) -> nat
    decreases s.len(),
{
    if s.len() == 0 {
        0
    } else if s[0].number > number {
        0
    } else {
        1 + insert_pos(s.drop_first(), number)
    }
}

/// `s` with `x` put at its place by number.
pub open spec fn insert_by_number(s: Seq<Issue>, x: Issue) -> Seq<Issue> {
    s.insert(insert_pos(s, x.number) as int, x)
}

/// The stable sort of issues by number: issues with equal numbers keep their order.
pub open spec fn sort_by_number(s: Seq<Issue>) -> Seq<Issue>
    decreases s.len(),
{
    if s.len() == 0 {
        s
    } else {
        insert_by_number(sort_by_number(s.drop_last()), s.last())
    }
}

proof fn lemma_insert_pos_at(s: Seq<Issue>, number: u64, j: int)
    requires
        0 <= j <= s.len(),
        forall|i: int| 0 <= i < j ==> (#[trigger] s[i]).number <= number,
        j < s.len() ==> s[j].number > number,
    ensures
        insert_pos(s, number) == j,
    decreases j,
{
    if j > 0 {
        let rest = s.drop_first();
        assert forall|i: int| 0 <= i < j - 1 implies (#[trigger] rest[i]).number <= number by {
            assert(rest[i] == s[i + 1]);
        }
        lemma_insert_pos_at(rest, number, j - 1);
    }
}

proof fn lemma_insert_pos_bounds(s: Seq<Issue>, number: u64)
    ensures
        insert_pos(s, number) <= s.len(),
        forall|i: int| 0 <= i < insert_pos(s, number) ==> (#[trigger] s[i]).number <= number,
    decreases s.len(),
{
    if s.len() > 0 && s[0].number <= number {
        let rest = s.drop_first();
        lemma_insert_pos_bounds(rest, number);
        assert forall|i: int| 0 <= i < insert_pos(s, number) implies (#[trigger] s[i]).number
            <= number by {
            if i > 0 {
                assert(s[i] == rest[i - 1]);
            }
        }
    }
}

proof fn lemma_insert_keeps_sorted(s: Seq<Issue>, x: Issue)
    requires
        sorted_by_number(s),
    ensures
        sorted_by_number(insert_by_number(s, x)),
{
    let p = insert_pos(s, x.number) as int;
    lemma_insert_pos_bounds(s, x.number);
    lemma_first_greater(s, x.number);
    let r = insert_by_number(s, x);
    assert forall|i: int, j: int| 0 <= i <= j < r.len() implies r[i].number <= r[j].number by {
        if i < p && j > p {
            assert(s[i].number <= s[j - 1].number);
        }
        if i == p && j > p {
            assert(s[p].number <= s[j - 1].number);
        }
        if i > p {
            assert(s[i - 1].number <= s[j - 1].number);
        }
    }
}

proof fn lemma_first_greater(s: Seq<Issue>, number: u64)
    ensures
        insert_pos(s, number) < s.len() ==> s[insert_pos(s, number) as int].number > number,
    decreases s.len(),
{
    if s.len() > 0 && s[0].number <= number {
        lemma_first_greater(s.drop_first(), number);
    }
}

/// The stable sort by number puts issues in ascending order of their numbers.
pub proof fn lemma_sort_is_sorted(s: Seq<Issue>)
    ensures
        sorted_by_number(sort_by_number(s)),
    decreases s.len(),
{
    if s.len() > 0 {
        lemma_sort_is_sorted(s.drop_last());
        lemma_insert_keeps_sorted(sort_by_number(s.drop_last()), s.last());
    }
}

/// The stable sort by number neither loses nor adds an issue.
pub proof fn lemma_sort_is_permutation(s: Seq<Issue>)
    ensures
        sort_by_number(s).to_multiset() == s.to_multiset(),
    decreases s.len(),
{
    broadcast use vstd::seq_lib::to_multiset_build;

    if s.len() > 0 {
        lemma_sort_is_permutation(s.drop_last());
        let sorted = sort_by_number(s.drop_last());
        lemma_insert_pos_bounds(sorted, s.last().number);
        assert(s.drop_last().push(s.last()) =~= s);
    }
}

/// The issues of `s` numbered `number`, in their order in `s`.
pub open spec fn with_number(s: Seq<Issue>, number: u64) -> Seq<Issue>
    decreases s.len(),
{
    if s.len() == 0 {
        s
    } else if s.last().number == number {
        with_number(s.drop_last(), number).push(s.last())
    } else {
        with_number(s.drop_last(), number)
    }
}

proof fn lemma_with_number_concat(a: Seq<Issue>, b: Seq<Issue>, number: u64)
    ensures
        with_number(a + b, number) == with_number(a, number) + with_number(b, number),
    decreases b.len(),
{
    if b.len() == 0 {
        assert(a + b =~= a);
        assert(with_number(a, number) + with_number(b, number) =~= with_number(a, number));
    } else {
        assert((a + b).drop_last() =~= a + b.drop_last());
        assert((a + b).last() == b.last());
        lemma_with_number_concat(a, b.drop_last(), number);
        assert(with_number(a, number) + with_number(b.drop_last(), number).push(b.last())
            =~= (with_number(a, number) + with_number(b.drop_last(), number)).push(b.last()));
    }
}

proof fn lemma_with_number_none(s: Seq<Issue>, number: u64)
    requires
        forall|i: int| 0 <= i < s.len() ==> (#[trigger] s[i]).number != number,
    ensures
        with_number(s, number) == Seq::<Issue>::empty(),
    decreases s.len(),
{
    if s.len() > 0 {
        lemma_with_number_none(s.drop_last(), number);
    }
}

/// The stable sort by number keeps issues with equal numbers in the order
/// they came in.
pub proof fn lemma_sort_is_stable(s: Seq<Issue>, number: u64)
    ensures
        with_number(sort_by_number(s), number) == with_number(s, number),
    decreases s.len(),
{
    if s.len() > 0 {
        let rest = s.drop_last();
        let x = s.last();
        let sorted = sort_by_number(rest);
        lemma_sort_is_stable(rest, number);
        lemma_sort_is_sorted(rest);
        lemma_insert_pos_bounds(sorted, x.number);
        lemma_first_greater(sorted, x.number);
        let p = insert_pos(sorted, x.number) as int;
        let front = sorted.take(p);
        let back = sorted.skip(p);
        assert(sorted =~= front + back);
        assert(insert_by_number(sorted, x) =~= front + seq![x] + back);
        lemma_with_number_concat(front + seq![x], back, number);
        lemma_with_number_concat(front, seq![x], number);
        lemma_with_number_concat(front, back, number);
        assert(seq![x].drop_last() =~= Seq::<Issue>::empty());
        assert(seq![x].last() == x);
        assert(with_number(seq![x].drop_last(), number) == Seq::<Issue>::empty());
        if x.number == number {
            assert forall|i: int| 0 <= i < back.len() implies (#[trigger] back[i]).number != number by {
                assert(back[i] == sorted[p + i]);
                assert(sorted[p].number <= sorted[p + i].number);
            }
            lemma_with_number_none(back, number);
            assert(with_number(seq![x], number) =~= seq![x]);
            assert(with_number(front, number) + seq![x] + Seq::<Issue>::empty() =~= with_number(
                front,
                number,
            ).push(x));
            assert(with_number(front, number) + Seq::<Issue>::empty() =~= with_number(front, number));
        } else {
            assert(with_number(seq![x], number) =~= Seq::<Issue>::empty());
            assert(with_number(front, number) + Seq::<Issue>::empty() =~= with_number(front, number));
        }
    }
}

/// Sorts issues by number, keeping the order of issues with equal numbers.
pub fn sort_issues(raw: Vec<Issue>) -> (sorted: Vec<Issue>)
    ensures
        sorted@ == sort_by_number(raw@),
{
    let ghost original = raw@;
    let mut input = raw;
    let mut out: Vec<Issue> = Vec::new();
    let ghost mut k: int = 0;
    assert(original.take(0) =~= Seq::<Issue>::empty());
    while input.len() > 0
        invariant
            0 <= k <= original.len(),
            input@ == original.skip(k),
            out@ == sort_by_number(original.take(k)),
        decreases input.len(),
    {
        let x = input.remove(0);
        let mut j: usize = 0;
        while j < out.len() && out[j].number <= x.number
            invariant
                j <= out.len(),
                forall|i: int| 0 <= i < j ==> (#[trigger] out@[i]).number <= x.number,
            decreases out.len() - j,
        {
            j = j + 1;
        }
        proof {
            lemma_insert_pos_at(out@, x.number, j as int);
            assert(original.take(k + 1).drop_last() =~= original.take(k));
            assert(original.take(k + 1).last() == x);
            assert(input@ =~= original.skip(k + 1));
            k = k + 1;
        }
        out.insert(j, x);
    }
    assert(original.take(k) =~= original);
    out
}

/// What a listing of issues comes to: the issues sorted by number, or a
/// parse error with the parser's message.
pub fn issues_from_listing(parsed: Result<Vec<Issue>, String>) -> (res: Result<
    Vec<Issue>,
    GithubError,
>)
    ensures
        parsed is Ok ==> res is Ok && res->Ok_0@ == sort_by_number(parsed->Ok_0@),
        parsed is Err ==> res == Err::<Vec<Issue>, GithubError>(GithubError::Parse(parsed->Err_0)),
{
    match parsed {
        Ok(raw) => Ok(sort_issues(raw)),
        Err(msg) => Err(GithubError::Parse(msg)),
    }
}

} // verus!
