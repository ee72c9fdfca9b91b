use braid::config::Config;
use braid::settings::{
    behind_main, clear_branch_commit_message, clear_external_commit_message, config_show_text,
    exclude_without, external_repo_change, issues_branch_change, parse_worktree_list, rebase_warning,
    set_external_commit_message, ExternalPath, ListedWorktree, SettingChange,
};

#[test]
fn config_test_config_show_git_native() {
    let c = Config { id_prefix: "tst".to_string(), ..Default::default() };
    let text = config_show_text(&c, None, &ExternalPath::NotFound);
    assert!(text.contains("issues-branch: (not set)"));
    assert!(text.contains("external-repo: (not set)"));
    assert!(text.contains("auto-sync:     enabled"));
}

#[test]
fn show_test_config_show_git_native() {
    let c = Config { id_prefix: "tst".to_string(), ..Default::default() };
    let text = config_show_text(&c, None, &ExternalPath::NotFound);
    assert!(text.contains("issues-branch: (not set)"));
    assert!(text.contains("external-repo: (not set)"));
    assert!(text.contains("auto-sync:     enabled"));
}

#[test]
fn config_test_config_show_with_issues_branch() {
    let c = Config { issues_branch: Some("braid-issues".to_string()), ..Default::default() };
    let text = config_show_text(&c, None, &ExternalPath::NotFound);
    assert!(text.contains("issues-branch: braid-issues (local only)"));
    let text = config_show_text(&c, Some("origin/braid-issues"), &ExternalPath::NotFound);
    assert!(text.contains("issues-branch: braid-issues (tracking origin/braid-issues)"));
}

#[test]
fn show_test_config_show_with_issues_branch() {
    let c = Config { issues_branch: Some("braid-issues".to_string()), ..Default::default() };
    let text = config_show_text(&c, None, &ExternalPath::NotFound);
    assert!(text.contains("issues-branch: braid-issues (local only)"));
    let text = config_show_text(&c, Some("origin/braid-issues"), &ExternalPath::NotFound);
    assert!(text.contains("issues-branch: braid-issues (tracking origin/braid-issues)"));
}

#[test]
fn config_test_config_show_with_external_repo() {
    let c = Config { issues_repo: Some("../external".to_string()), ..Default::default() };
    let text = config_show_text(&c, None, &ExternalPath::NotFound);
    assert!(text.contains("external-repo: ../external (path not found)"));
    let text = config_show_text(&c, None, &ExternalPath::Resolved("/repos/external".to_string()));
    assert!(text.contains("external-repo: ../external (/repos/external)"));
}

#[test]
fn show_test_config_show_with_external_repo() {
    let c = Config { issues_repo: Some("../external".to_string()), ..Default::default() };
    let text = config_show_text(&c, None, &ExternalPath::NotFound);
    assert!(text.contains("external-repo: ../external (path not found)"));
    let text = config_show_text(&c, None, &ExternalPath::Resolved("/repos/external".to_string()));
    assert!(text.contains("external-repo: ../external (/repos/external)"));
}

#[test]
fn config_test_config_issues_branch_already_set() {
    let c = Config { issues_branch: Some("existing-branch".to_string()), ..Default::default() };
    let result = issues_branch_change(&c, Some("new-branch"), false);
    assert!(result.is_err());
    assert!(result.unwrap_err().to_text().contains("issues-branch already set"));
}

#[test]
fn issues_branch_test_config_issues_branch_already_set() {
    let c = Config { issues_branch: Some("existing-branch".to_string()), ..Default::default() };
    let result = issues_branch_change(&c, Some("new-branch"), false);
    assert!(result.is_err());
    assert!(result.unwrap_err().to_text().contains("issues-branch already set"));
}

#[test]
fn config_test_config_issues_branch_clear_when_not_set() {
    let c = Config::default();
    let result = issues_branch_change(&c, None, true);
    assert!(matches!(result, Ok(SettingChange::NotSet)));
}

#[test]
fn issues_branch_test_config_issues_branch_clear_when_not_set() {
    let c = Config::default();
    let result = issues_branch_change(&c, None, true);
    assert!(matches!(result, Ok(SettingChange::NotSet)));
}

#[test]
fn config_test_config_external_repo_issues_branch_set() {
    let c = Config { issues_branch: Some("issues".to_string()), ..Default::default() };
    let result = external_repo_change(&c, Some("../external"), false);
    assert!(result.is_err());
    assert!(result.unwrap_err().to_text().contains("issues-branch is set"));
}

#[test]
fn external_repo_test_config_external_repo_issues_branch_set() {
    let c = Config { issues_branch: Some("issues".to_string()), ..Default::default() };
    let result = external_repo_change(&c, Some("../external"), false);
    assert!(result.is_err());
    assert!(result.unwrap_err().to_text().contains("issues-branch is set"));
}

#[test]
fn config_test_config_external_repo_already_set() {
    let c = Config { issues_repo: Some("../existing".to_string()), ..Default::default() };
    let result = external_repo_change(&c, Some("../new-external"), false);
    assert!(result.is_err());
    assert!(result.unwrap_err().to_text().contains("external-repo already set"));
}

#[test]
fn external_repo_test_config_external_repo_already_set() {
    let c = Config { issues_repo: Some("../existing".to_string()), ..Default::default() };
    let result = external_repo_change(&c, Some("../new-external"), false);
    assert!(result.is_err());
    assert!(result.unwrap_err().to_text().contains("external-repo already set"));
}

#[test]
fn config_test_config_external_repo_clear_when_not_set() {
    let c = Config::default();
    let result = external_repo_change(&c, None, true);
    assert!(matches!(result, Ok(SettingChange::NotSet)));
}

#[test]
fn external_repo_test_config_external_repo_clear_when_not_set() {
    let c = Config::default();
    let result = external_repo_change(&c, None, true);
    assert!(matches!(result, Ok(SettingChange::NotSet)));
}

#[test]
fn auto_sync_shows_partial_settings() {
    let c = Config { auto_pull: true, auto_push: false, ..Default::default() };
    assert_eq!(
        config_show_text(&c, None, &ExternalPath::Same),
        "issues-branch: (not set)\nexternal-repo: (not set)\nauto-sync:     partial (pull=true, push=false)\n"
    );
    let c = Config { auto_pull: false, auto_push: false, ..Default::default() };
    assert!(config_show_text(&c, None, &ExternalPath::Same).ends_with("auto-sync:     disabled\n"));
}

#[test]
fn setting_a_branch_that_is_set_is_a_no_op() {
    let c = Config { issues_branch: Some("b".to_string()), ..Default::default() };
    assert!(matches!(issues_branch_change(&c, Some("b"), false), Ok(SettingChange::AlreadySet)));
    assert!(matches!(issues_branch_change(&Config::default(), Some("b"), false), Ok(SettingChange::Assign(x)) if x == "b"));
    assert!(matches!(issues_branch_change(&c, None, true), Ok(SettingChange::Clear(x)) if x == "b"));
    assert_eq!(issues_branch_change(&c, None, false).unwrap_err().to_text(), "must provide branch name or use --clear");
}

// ---- agent worktrees that must rebase after a config change

const LISTING: &str = "worktree /repo\nHEAD 1111111111111111111111111111111111111111\nbranch refs/heads/main\n\nworktree /home/u/.braid/worktrees/repo/agent-one\nHEAD 2222222222222222222222222222222222222222\nbranch refs/heads/agent-one\n\nworktree /tmp/detached\nHEAD 3333333333333333333333333333333333333333\ndetached\n\n";

#[test]
fn worktree_list_keeps_entries_on_local_branches() {
    let w = parse_worktree_list(LISTING);
    assert_eq!(w.len(), 2);
    assert_eq!(w[0].path, "/repo");
    assert_eq!(w[0].branch, "main");
    assert_eq!(w[1].path, "/home/u/.braid/worktrees/repo/agent-one");
    assert_eq!(w[1].branch, "agent-one");
}

#[test]
fn worktree_list_entry_counts_only_when_ended() {
    let w = parse_worktree_list("worktree /repo\nbranch refs/heads/main\n");
    assert!(w.is_empty());
}

#[test]
fn worktree_list_ignores_other_refs() {
    let w = parse_worktree_list("worktree /repo\nbranch refs/remotes/origin/x\n\n");
    assert!(w.is_empty());
}

#[test]
fn behind_main_reads_the_count() {
    assert!(behind_main(Some("3\n")));
    assert!(!behind_main(Some("0\n")));
    assert!(!behind_main(Some("not a number")));
    assert!(!behind_main(None));
}

#[test]
fn rebase_warning_lists_each_worktree() {
    let w = vec![ListedWorktree { path: "/wt/a".to_string(), branch: "a".to_string() }];
    let lines = rebase_warning(&w);
    assert_eq!(
        lines,
        vec![
            "".to_string(),
            "Warning: Found 1 agent worktree(s) that need to rebase on main:".to_string(),
            "  - a (at /wt/a)".to_string(),
            "".to_string(),
            "Run `git rebase main` in each worktree to pick up the new config.".to_string(),
        ]
    );
    assert!(rebase_warning(&vec![]).is_empty());
}

#[test]
fn config_commit_messages() {
    assert_eq!(clear_branch_commit_message("issues"), "chore(braid): clear issues-branch (was 'issues')");
    assert_eq!(set_external_commit_message("../ext"), "chore(braid): set external-repo to '../ext'");
    assert_eq!(clear_external_commit_message("../ext"), "chore(braid): clear external-repo (was '../ext')");
}

#[test]
fn exclude_without_drops_the_pattern() {
    assert_eq!(exclude_without("a\n.braid/issues\nb\n", ".braid/issues"), "a\nb\n");
    assert_eq!(exclude_without("  .braid/issues  \nkeep", ".braid/issues"), "keep");
    assert_eq!(exclude_without(".braid/issues\n", ".braid/issues"), "");
    assert_eq!(exclude_without("", ".braid/issues"), "");
}
