use braid::config::Config;
use braid::repo::RepoPaths;

fn sample_paths() -> RepoPaths {
    RepoPaths {
        worktree_root: "/repo".to_string(),
        git_common_dir: "/repo/.git".to_string(),
        brd_common_dir: "/repo/.git/brd".to_string(),
    }
}

#[test]
fn test_repo_paths_methods() {
    let paths = sample_paths();

    assert_eq!(paths.braid_dir(), "/repo/.braid");
    assert_eq!(paths.local_issues_dir(), "/repo/.braid/issues");
    assert_eq!(paths.config_path(), "/repo/.braid/config.toml");
    assert_eq!(paths.lock_path(), "/repo/.git/brd/lock");
}

#[test]
fn test_issues_dir_default_mode() {
    let paths = sample_paths();
    let config = Config::default();

    assert_eq!(paths.issues_dir(&config), "/repo/.braid/issues");
}

#[test]
fn test_issues_dir_sync_branch_mode() {
    let paths = sample_paths();
    let config = Config {
        issues_branch: Some("braid-issues".to_string()),
        ..Default::default()
    };

    assert_eq!(paths.issues_dir(&config), "/repo/.git/brd/issues/.braid/issues");
}

#[test]
fn test_issues_worktree_dir() {
    let paths = sample_paths();

    assert_eq!(paths.issues_worktree_dir(), "/repo/.git/brd/issues");
}

#[test]
fn test_resolved_config_path_default_mode() {
    let paths = sample_paths();
    let config = Config::default();

    assert_eq!(paths.resolved_config_path(&config), paths.config_path());
}

#[test]
fn test_resolved_config_path_sync_mode() {
    let paths = sample_paths();
    let config = Config {
        issues_branch: Some("braid-issues".to_string()),
        ..Default::default()
    };

    assert_eq!(
        paths.resolved_config_path(&config),
        "/repo/.git/brd/issues/.braid/config.toml"
    );
}

#[test]
fn test_repo_creates_directories() {
    let paths = RepoPaths {
        worktree_root: "/tmp/braid-test".to_string(),
        git_common_dir: "/tmp/braid-test/.git".to_string(),
        brd_common_dir: "/tmp/braid-test/.git/brd".to_string(),
    };
    assert_eq!(paths.brd_common_dir, "/tmp/braid-test/.git/brd");
    assert_eq!(paths.local_issues_dir(), "/tmp/braid-test/.braid/issues");
    assert_eq!(paths.config_path(), "/tmp/braid-test/.braid/config.toml");
}

#[test]
fn sessions_dir_lives_in_common_dir() {
    assert_eq!(sample_paths().sessions_dir(), "/repo/.git/brd/sessions");
    let trailing = RepoPaths {
        worktree_root: "/r/".to_string(),
        git_common_dir: "/r/.git".to_string(),
        brd_common_dir: "/r/.git/brd/".to_string(),
    };
    assert_eq!(trailing.braid_dir(), "/r/.braid");
    assert_eq!(trailing.lock_path(), "/r/.git/brd/lock");
}
