use vstd::prelude::*;
use vstd::string::*;

use crate::text::{join_path, join_paths};

verus! {

/// The daemon's settings.
#[derive(Debug)]
pub struct Config {
    /// The repository that the agent works on.
    pub repo_path: String,
    /// Seconds between two polls for ready issues.
    pub poll_interval_secs: u64,
    /// The most iterations of one Ralph loop.
    pub max_iterations: u32,
    /// The most seconds of one iteration.
    pub max_iteration_secs: u64,
    /// The directory under which the worktrees go.
    pub worktree_base: String,
}

/// The settings as a configuration file gives them: every field but the
/// repository may be left out.
#[derive(Debug)]
pub struct ConfigFields {
    pub repo_path: String,
    pub poll_interval_secs: Option<u64>,
    pub max_iterations: Option<u32>,
    pub max_iteration_secs: Option<u64>,
    pub worktree_base: Option<String>,
}

/// Where the worktrees go unless the configuration says otherwise.
pub const DEFAULT_WORKTREE_BASE: &'static str = "/tmp/brainrunner-worktrees";

/// Where the configuration file lies under the home directory.
pub const CONFIG_UNDER_HOME: &'static str = ".config/brainrunner/config.toml";

/// The home directory taken when none is known.
pub const FALLBACK_HOME: &'static str = "/root";

/// The configuration file's path when none is given: under `home`, or under
/// `/root` when the home directory is not known.
pub fn default_config_path(home: Option<&str>) -> (path: String)
    ensures
        path@ == join_path(
            match home {
                Some(h) => h@,
                None => FALLBACK_HOME@,
            },
            CONFIG_UNDER_HOME@,
        ),
{
    match home {
        Some(h) => join_paths(h, CONFIG_UNDER_HOME),
        None => join_paths(FALLBACK_HOME, CONFIG_UNDER_HOME),
    }
}

/// Seconds between polls unless the configuration says otherwise.
pub fn default_poll_interval_secs() -> (secs: u64)
    ensures
        secs == 30,
{
    30
}

/// The iteration cap unless the configuration says otherwise.
pub fn default_max_iterations() -> (n: u32)
    ensures
        n == 20,
{
    20
}

/// The time limit of an iteration, in seconds, unless the configuration says otherwise.
pub fn default_max_iteration_secs() -> (secs: u64)
    ensures
        secs == 1800,
{
    1800
}

/// The worktree base unless the configuration says otherwise.
pub fn default_worktree_base() -> (base: String)
    ensures
        base@ == DEFAULT_WORKTREE_BASE@,
{
    String::from_str(DEFAULT_WORKTREE_BASE)
}

impl Config {
    /// The settings that a configuration file gives, with the defaults in
    /// place of the fields it leaves out.
    pub fn from_fields(fields: ConfigFields) -> (config: Config)
        ensures
            config.repo_path == fields.repo_path,
            config.poll_interval_secs == fields.poll_interval_secs.unwrap_or(30),
            config.max_iterations == fields.max_iterations.unwrap_or(20),
            config.max_iteration_secs == fields.max_iteration_secs.unwrap_or(1800),
            config.worktree_base@ == match fields.worktree_base {
                Some(base) => base@,
                None => DEFAULT_WORKTREE_BASE@,
            },
    {
        let ConfigFields {
            repo_path,
            poll_interval_secs,
            max_iterations,
            max_iteration_secs,
            worktree_base,
        } = fields;
        Config {
            repo_path,
            poll_interval_secs: match poll_interval_secs {
                Some(secs) => secs,
                None => default_poll_interval_secs(),
            },
            max_iterations: match max_iterations {
                Some(n) => n,
                None => default_max_iterations(),
            },
            max_iteration_secs: match max_iteration_secs {
                Some(secs) => secs,
                None => default_max_iteration_secs(),
            },
            worktree_base: match worktree_base {
                Some(base) => base,
                None => default_worktree_base(),
            },
        }
    }
}

/// The message for a configuration file that cannot be read.
pub open spec fn read_error_text(path: Seq<char>, err: Seq<char>) -> Seq<char> {
    "cannot read config file "@ + path + ": "@ + err
}

/// The message for a configuration file that is not valid.
pub open spec fn invalid_config_text(path: Seq<char>, err: Seq<char>) -> Seq<char> {
    "invalid config file "@ + path + ": "@ + err
}

/// The message for a configuration file at `path` that cannot be read, for the reason `err`.
pub fn read_error_message(path: &str, err: &str) -> (m: String)
    ensures
        m@ == read_error_text(path@, err@),
{
    let mut m = String::new();
    m.append("cannot read config file ");
    m.append(path);
    m.append(": ");
    m.append(err);
    m
}

/// The message for a configuration file at `path` that is not valid, for the reason `err`.
pub fn invalid_config_message(path: &str, err: &str) -> (m: String)
    ensures
        m@ == invalid_config_text(path@, err@),
{
    let mut m = String::new();
    m.append("invalid config file ");
    m.append(path);
    m.append(": ");
    m.append(err);
    m
}

/// What reading the configuration at `path` comes to, once its text was parsed:
/// the settings with their defaults, or the message for a file that is not valid.
pub fn config_from_parsed(path: &str, parsed: Result<ConfigFields, String>) -> (res: Result<
    Config,
    String,
>)
    ensures
        parsed is Ok ==> (res matches Ok(config) && ({
            let fields = parsed->Ok_0;
            &&& config.repo_path == fields.repo_path
            &&& config.poll_interval_secs == fields.poll_interval_secs.unwrap_or(30)
            &&& config.max_iterations == fields.max_iterations.unwrap_or(20)
            &&& config.max_iteration_secs == fields.max_iteration_secs.unwrap_or(1800)
            &&& config.worktree_base@ == match fields.worktree_base {
                Some(base) => base@,
                None => DEFAULT_WORKTREE_BASE@,
            }
        })),
        parsed is Err ==> (res matches Err(m) && m@ == invalid_config_text(
            path@,
            parsed->Err_0@,
        )),
{
    match parsed {
        Ok(fields) => Ok(Config::from_fields(fields)),
        Err(e) => Err(invalid_config_message(path, e.as_str())),
    }
}

} // verus!
