use brainrunner::config::{
    config_from_parsed, default_config_path, default_max_iteration_secs, default_max_iterations,
    default_poll_interval_secs, default_worktree_base, read_error_message, Config, ConfigFields,
};

fn fields(repo_path: &str) -> ConfigFields {
    ConfigFields {
        repo_path: repo_path.to_string(),
        poll_interval_secs: None,
        max_iterations: None,
        max_iteration_secs: None,
        worktree_base: None,
    }
}

#[test]
fn malformed_toml_returns_error() {
    let result = config_from_parsed("/etc/brainrunner.toml", Err("expected `=`".to_string()));
    assert!(result.is_err());
    let msg = result.unwrap_err();
    assert!(msg.contains("invalid config file"), "got: {msg}");
    assert_eq!(msg, "invalid config file /etc/brainrunner.toml: expected `=`");
}

#[test]
fn missing_file_returns_error() {
    let msg = read_error_message("/nonexistent/path/config.toml", "No such file or directory (os error 2)");
    assert!(msg.contains("cannot read config file"), "got: {msg}");
    assert_eq!(
        msg,
        "cannot read config file /nonexistent/path/config.toml: No such file or directory (os error 2)"
    );
}

#[test]
fn defaults_apply_when_fields_omitted() {
    let cfg = config_from_parsed("c.toml", Ok(fields("/some/repo"))).unwrap();
    assert_eq!(cfg.repo_path, "/some/repo");
    assert_eq!(cfg.poll_interval_secs, 30);
    assert_eq!(cfg.max_iterations, 20);
    assert_eq!(cfg.max_iteration_secs, 1800);
    assert_eq!(cfg.worktree_base, "/tmp/brainrunner-worktrees");
}

#[test]
fn loads_config_from_explicit_path() {
    let cfg = Config::from_fields(ConfigFields {
        repo_path: "/home/kourgia/projects/gymnasou".to_string(),
        poll_interval_secs: Some(60),
        max_iterations: Some(10),
        max_iteration_secs: Some(900),
        worktree_base: Some("/tmp/custom-worktrees".to_string()),
    });
    assert_eq!(cfg.repo_path, "/home/kourgia/projects/gymnasou");
    assert_eq!(cfg.poll_interval_secs, 60);
    assert_eq!(cfg.max_iterations, 10);
    assert_eq!(cfg.max_iteration_secs, 900);
    assert_eq!(cfg.worktree_base, "/tmp/custom-worktrees");
}

#[test]
fn default_values() {
    assert_eq!(default_poll_interval_secs(), 30);
    assert_eq!(default_max_iterations(), 20);
    assert_eq!(default_max_iteration_secs(), 1800);
    assert_eq!(default_worktree_base(), "/tmp/brainrunner-worktrees");
}

#[test]
fn some_fields_given_others_defaulted() {
    let mut f = fields("/r");
    f.max_iterations = Some(0);
    let cfg = Config::from_fields(f);
    assert_eq!(cfg.max_iterations, 0);
    assert_eq!(cfg.poll_interval_secs, 30);
    assert_eq!(cfg.worktree_base, "/tmp/brainrunner-worktrees");
}

#[test]
fn config_path_under_home() {
    assert_eq!(default_config_path(Some("/home/pi")), "/home/pi/.config/brainrunner/config.toml");
    assert_eq!(default_config_path(Some("/home/pi/")), "/home/pi/.config/brainrunner/config.toml");
    assert_eq!(default_config_path(None), "/root/.config/brainrunner/config.toml");
}
