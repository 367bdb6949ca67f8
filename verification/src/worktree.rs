use vstd::prelude::*;
use vstd::string::*;

use crate::github::arg_texts;
use crate::text::{
    decimal, decimal_string, is_trim_of, join_path, join_paths, lemma_decimal_injective, trim_text,
};

verus! {

/// Where the worktrees of agent runs live, and the repository they belong to.
#[derive(Debug)]
pub struct WorktreeManager {
    repo_path: String,
    worktree_base: String,
}

/// Why a worktree operation failed.
#[derive(Debug)]
pub enum WorktreeError {
    /// A file system call failed; the text is the system's message.
    Io(String),
    /// `git worktree` exited unsuccessfully during `operation`.
    GitCommandFailed { operation: &'static str, stderr: String },
}

/// The name of the operation that creates a worktree.
pub const CREATE_WORKTREE: &'static str = "create_worktree";

/// The name of the operation that removes a worktree.
pub const REMOVE_WORKTREE: &'static str = "remove_worktree";

/// The name of the worktree directory of issue `issue_n`.
pub open spec fn worktree_dir_name(issue_n: nat) -> Seq<char> {
    "agent-"@ + decimal(issue_n)
}

/// The branch that the agent run on issue `issue_n` works on.
pub open spec fn branch_text(issue_n: nat) -> Seq<char> {
    "agent/"@ + decimal(issue_n)
}

/// The branch that the agent run on issue `issue_n` works on.
pub fn branch_name(issue_n: u64) -> (branch: String)
    ensures
        branch@ == branch_text(issue_n as nat),
{
    let mut branch = String::new();
    branch.append("agent/");
    let n = decimal_string(issue_n);
    branch.append(n.as_str());
    branch
}

impl View for WorktreeManager {
    /// The repository's path and the base directory of the worktrees.
    type V = (Seq<char>, Seq<char>);

    closed spec fn view(&self) -> (Seq<char>, Seq<char>) {
        (self.repo_path@, self.worktree_base@)
    }
}

/// The message that describes a worktree error.
pub open spec fn worktree_error_text(e: WorktreeError) -> Seq<char> {
    match e {
        WorktreeError::Io(msg) => "io error: "@ + msg@,
        WorktreeError::GitCommandFailed { operation, stderr } => "git command failed during "@
            + operation@ + ": "@ + stderr@,
    }
}

impl WorktreeError {
    /// The message that describes this error.
    pub fn message(&self) -> (m: String)
        ensures
            m@ == worktree_error_text(*self),
    {
        let mut m = String::new();
        match self {
            WorktreeError::Io(msg) => {
                m.append("io error: ");
                m.append(msg.as_str());
            },
            WorktreeError::GitCommandFailed { operation, stderr } => {
                m.append("git command failed during ");
                m.append(*operation);
                m.append(": ");
                m.append(stderr.as_str());
            },
        }
        m
    }
}

impl WorktreeManager {
    /// A manager for the repository at `repo_path` whose worktrees go under `worktree_base`.
    pub fn new(repo_path: &str, worktree_base: &str) -> (m: WorktreeManager)
        ensures
            m@ == (repo_path@, worktree_base@),
    {
        WorktreeManager {
            repo_path: String::from_str(repo_path),
            worktree_base: String::from_str(worktree_base),
        }
    }

    /// The repository's path.
    pub fn repo_path(&self) -> (p: &str)
        ensures
            p@ == self@.0,
    {
        self.repo_path.as_str()
    }

    /// The directory under which the worktrees go.
    pub fn worktree_base(&self) -> (p: &str)
        ensures
            p@ == self@.1,
    {
        self.worktree_base.as_str()
    }

    /// The path of the worktree of issue `issue_n`.
    pub open spec fn worktree_path_text(self, issue_n: nat) -> Seq<char> {
        join_path(self@.1, worktree_dir_name(issue_n))
    }

    /// The path of the worktree of issue `issue_n`: `agent-<n>` under the base directory.
    pub fn worktree_path(&self, issue_n: u64) -> (path: String)
        ensures
            path@ == self.worktree_path_text(issue_n as nat),
    {
        let mut dir = String::new();
        dir.append("agent-");
        let n = decimal_string(issue_n);
        dir.append(n.as_str());
        join_paths(self.worktree_base.as_str(), dir.as_str())
    }

    /// `git` arguments that add the worktree of issue `issue_n` on a new branch.
    pub fn create_worktree_args(&self, issue_n: u64) -> (args: Vec<String>)
        ensures
            arg_texts(args@) == seq![
                "worktree"@,
                "add"@,
                "-b"@,
                branch_text(issue_n as nat),
                self.worktree_path_text(issue_n as nat),
            ],
    {
        let mut args: Vec<String> = Vec::new();
        args.push(String::from_str("worktree"));
        args.push(String::from_str("add"));
        args.push(String::from_str("-b"));
        args.push(branch_name(issue_n));
        args.push(self.worktree_path(issue_n));
        assert(arg_texts(args@) =~= seq![
            "worktree"@,
            "add"@,
            "-b"@,
            branch_text(issue_n as nat),
            self.worktree_path_text(issue_n as nat),
        ]);
        args
    }

    /// `git` arguments that remove the worktree of issue `issue_n`, with
    /// whatever changes it holds.
    pub fn remove_worktree_args(&self, issue_n: u64) -> (args: Vec<String>)
        ensures
            arg_texts(args@) == seq![
                "worktree"@,
                "remove"@,
                "--force"@,
                self.worktree_path_text(issue_n as nat),
            ],
    {
        let mut args: Vec<String> = Vec::new();
        args.push(String::from_str("worktree"));
        args.push(String::from_str("remove"));
        args.push(String::from_str("--force"));
        args.push(self.worktree_path(issue_n));
        assert(arg_texts(args@) =~= seq![
            "worktree"@,
            "remove"@,
            "--force"@,
            self.worktree_path_text(issue_n as nat),
        ]);
        args
    }
}

/// Different issues get different worktree paths, and different branches.
pub proof fn lemma_worktree_paths_distinct(manager: WorktreeManager, a: nat, b: nat)
    requires
        a != b,
    ensures
        manager.worktree_path_text(a) != manager.worktree_path_text(b),
        branch_text(a) != branch_text(b),
{
    let base = manager@.1;
    let prefix = "agent-"@;
    reveal_strlit("agent-");
    let da = worktree_dir_name(a);
    let db = worktree_dir_name(b);
    assert(da[0] == 'a');
    assert(db[0] == 'a');
    let pre = if base.len() == 0 || base.last() == '/' {
        base
    } else {
        base + seq!['/']
    };
    assert(manager.worktree_path_text(a) =~= pre + da);
    assert(manager.worktree_path_text(b) =~= pre + db);
    if manager.worktree_path_text(a) == manager.worktree_path_text(b) {
        assert((pre + da).skip((pre.len() + prefix.len()) as int) =~= decimal(a));
        assert((pre + db).skip((pre.len() + prefix.len()) as int) =~= decimal(b));
        lemma_decimal_injective(a, b);
    }
    reveal_strlit("agent/");
    if branch_text(a) == branch_text(b) {
        assert(branch_text(a).skip("agent/"@.len() as int) =~= decimal(a));
        assert(branch_text(b).skip("agent/"@.len() as int) =~= decimal(b));
        lemma_decimal_injective(a, b);
    }
}

/// What a finished `git worktree` call during `operation` comes to: nothing
/// when it exited successfully, otherwise its standard error without the
/// white space around it.
pub fn worktree_command_result(operation: &'static str, success: bool, stderr: &str) -> (res:
    Result<(), WorktreeError>)
    ensures
        success ==> res is Ok,
        !success ==> (res matches Err(WorktreeError::GitCommandFailed { operation: op, stderr: e })
            && op == operation && is_trim_of(e@, stderr@)),
{
    if success {
        Ok(())
    } else {
        Err(WorktreeError::GitCommandFailed { operation, stderr: trim_text(stderr) })
    }
}

} // verus!
