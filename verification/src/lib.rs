pub mod agent;
pub mod config;
pub mod github;
pub mod prompt;
pub mod runner;
pub mod startup;
pub mod text;
pub mod worktree;
