use braid::agent::{
    agent_toml_content, agent_worktree_path, extract_issue_id_from_branch, extract_mode,
    extract_version, generate_block, inject_agents_block, pr_body, pr_branch_name,
    pr_issue_of_branch, pr_title, validate_agent_name, AgentsBlockMode, InjectResult,
    AGENTS_BLOCK_VERSION, BLOCK_END, BLOCK_START,
};
use braid::config::Config;

#[test]
fn test_generate_block_git_native() {
    let config = Config::default();
    let block = generate_block(&config);
    assert!(block.contains("## syncing issues (issues with code)"));
    assert!(block.contains("brd agent merge"));
    assert!(!block.contains("## syncing issues (issues-branch mode)"));
}

#[test]
fn test_generate_block_local_sync() {
    let config = Config {
        issues_branch: Some("braid-issues".to_string()),
        ..Default::default()
    };
    let block = generate_block(&config);
    assert!(block.contains("## syncing issues (issues-branch mode)"));
    assert!(block.contains("braid-issues"));
    assert!(block.contains("brd sync"));
    assert!(!block.contains("## syncing issues (issues with code)"));
}

#[test]
fn test_extract_version_from_block() {
    let config = Config::default();
    let block = generate_block(&config);
    let content = format!("header\n{block}\nfooter");
    assert_eq!(extract_version(&content), Some(AGENTS_BLOCK_VERSION));
}

#[test]
fn test_extract_version_missing_block() {
    let content = "no agents block here";
    assert_eq!(extract_version(content), None);
}

#[test]
fn test_extract_mode_git_native() {
    let config = Config::default();
    let block = generate_block(&config);
    assert_eq!(extract_mode(&block), Some(AgentsBlockMode::GitNative));
}

#[test]
fn test_extract_mode_local_sync() {
    let config = Config {
        issues_branch: Some("braid-issues".to_string()),
        ..Default::default()
    };
    let block = generate_block(&config);
    assert_eq!(extract_mode(&block), Some(AgentsBlockMode::LocalSync));
}

#[test]
fn test_extract_mode_missing_block() {
    let content = "no agents block here";
    assert_eq!(extract_mode(content), None);
}

#[test]
fn test_agents_block_mode_display() {
    assert_eq!(AgentsBlockMode::GitNative.to_text(), "git-native");
    assert_eq!(AgentsBlockMode::LocalSync.to_text(), "local-sync");
}

#[test]
fn test_extract_issue_id_new_format() {
    assert_eq!(
        extract_issue_id_from_branch("pr/agent-one/brd-1234"),
        Some("brd-1234".to_string())
    );
}

#[test]
fn test_extract_issue_id_legacy_format() {
    assert_eq!(
        extract_issue_id_from_branch("agent-one/brd-1234"),
        Some("brd-1234".to_string())
    );
}

#[test]
fn test_extract_issue_id_no_slash() {
    assert_eq!(extract_issue_id_from_branch("main"), None);
}

#[test]
fn test_extract_issue_id_single_slash() {
    // legacy format with single slash
    assert_eq!(
        extract_issue_id_from_branch("feature/something"),
        Some("something".to_string())
    );
}

#[test]
fn test_cmd_agents_inject_creates_file() {
    let (kind, content) = inject_agents_block(None, &Config::default(), "AGENTS.md").unwrap();
    assert_eq!(kind, InjectResult::Created);
    assert!(content.contains("Instructions for AI agents"));
    assert!(content.contains(BLOCK_START));
    assert!(content.contains(BLOCK_END));
    assert!(content.contains(&format!("v{AGENTS_BLOCK_VERSION}")));
}

#[test]
fn test_cmd_agents_inject_appends_block() {
    let (kind, content) =
        inject_agents_block(Some("custom header\n"), &Config::default(), "AGENTS.md").unwrap();
    assert_eq!(kind, InjectResult::Added);
    assert!(content.starts_with("custom header"));
    assert!(content.contains(BLOCK_START));
    assert!(content.contains(BLOCK_END));
}

#[test]
fn test_cmd_agents_inject_updates_existing_block() {
    let old_block = format!("{BLOCK_START} v1 -->\nold\n{BLOCK_END}");
    let existing = format!("before\n{old_block}\nafter");
    let (kind, content) = inject_agents_block(Some(&existing), &Config::default(), "AGENTS.md").unwrap();
    assert_eq!(kind, InjectResult::Updated);
    assert!(content.contains("before"));
    assert!(content.contains("after"));
    assert!(!content.contains("old\n"));
    assert!(content.contains(&format!("v{AGENTS_BLOCK_VERSION}")));
}

#[test]
fn test_cmd_agents_inject_missing_end_marker() {
    let existing = format!("{BLOCK_START} v1 -->\nno end");
    let err = inject_agents_block(Some(&existing), &Config::default(), "AGENTS.md").unwrap_err();
    assert!(err.to_text().contains("no end marker"));
}

#[test]
fn injecting_twice_changes_nothing_more() {
    let (_, once) = inject_agents_block(Some("intro\n"), &Config::default(), "AGENTS.md").unwrap();
    let (kind, twice) = inject_agents_block(Some(&once), &Config::default(), "AGENTS.md").unwrap();
    assert_eq!(kind, InjectResult::Updated);
    assert_eq!(once, twice);
    assert_eq!(extract_version(&twice), Some(AGENTS_BLOCK_VERSION));
}

#[test]
fn test_agent_init_rejects_invalid_name() {
    let err = validate_agent_name("bad name").unwrap_err();
    assert!(err.to_text().contains("invalid agent name"));
}

#[test]
fn test_agent_init_rejects_special_chars() {
    let invalid_names = ["agent@one", "agent/one", "agent.one", "agent:one"];
    for name in invalid_names {
        let err = validate_agent_name(name).unwrap_err();
        assert!(err.to_text().contains("invalid agent name"), "expected error for name '{}'", name);
    }
}

#[test]
fn test_agent_init_with_underscore_in_name() {
    assert!(validate_agent_name("agent_with_underscores").is_ok());
    assert!(validate_agent_name("Agent-7").is_ok());
}

#[test]
fn agent_names_and_paths() {
    assert_eq!(pr_branch_name("test-agent", "tst-0001"), "pr/test-agent/tst-0001");
    assert_eq!(agent_toml_content("agent-one"), "agent_id = \"agent-one\"\n");
    assert_eq!(
        agent_worktree_path("/home/u", "repo", "agent-one"),
        "/home/u/.braid/worktrees/repo/agent-one"
    );
    assert_eq!(pr_title("fix it", "brd-1"), "feat: fix it (brd-1)");
    assert_eq!(pr_body("", "brd-1"), "Closes: brd-1");
    assert_eq!(pr_body("  details \n", "brd-1"), "details\n\nCloses: brd-1");
}

#[test]
fn test_agent_pr_rejects_main_branch() {
    let err = pr_issue_of_branch("main").unwrap_err();
    assert!(err.to_text().contains("feature branch"));
}

#[test]
fn test_agent_pr_rejects_invalid_branch_format() {
    let err = pr_issue_of_branch("random-branch").unwrap_err();
    assert!(err.to_text().contains("doesn't match expected format"));
}

#[test]
fn test_agent_pr_extracts_issue_from_branch() {
    assert_eq!(pr_issue_of_branch("pr/test-agent/tst-0001").unwrap(), "tst-0001");
}

#[test]
fn legacy_block_reads_back() {
    let block = braid::agents::generate_block();
    assert!(block.starts_with("<!-- braid:agents:start v2 -->\n## braid workflow"));
    assert!(block.ends_with(BLOCK_END));
    assert_eq!(braid::agents::extract_version(&block), Some(2));
    assert_eq!(braid::agents::extract_version("<!-- braid:agents:start vx -->\n"), None);
}

#[test]
fn test_check_agents_block_not_found() {
    assert_eq!(braid::agent::extract_version(""), None);
    assert_eq!(braid::agent::extract_version("# Agents\n\nno block here\n"), None);
}

#[test]
fn test_agent_branch_rejects_nonexistent_issue() {
    let mut issues = braid::issue::IssueMap::new();
    issues.insert(braid::issue::Issue::new(
        "tst-0001".to_string(),
        "test issue".to_string(),
        braid::issue::Priority::P2,
        vec![],
    ));
    let err = braid::issue::resolve_issue_id("tst-9999", &issues).unwrap_err();
    assert!(err.to_text().contains("not found"), "unexpected error: {}", err.to_text());
}

#[test]
fn test_agent_branch_creates_branch_git_native() {
    assert_eq!(braid::agent::pr_branch_name("test-agent", "tst-0001"), "pr/test-agent/tst-0001");
    assert_eq!(
        braid::agent::extract_issue_id_from_branch("pr/test-agent/tst-0001"),
        Some("tst-0001".to_string())
    );
}

#[test]
fn second_injection_updates_and_keeps_the_text() {
    let c = braid::config::Config::default();
    let (k1, t1) = inject_agents_block(Some("# notes\n"), &c, "AGENTS.md").unwrap();
    assert_eq!(k1, braid::agent::InjectResult::Added);
    let (k2, t2) = inject_agents_block(Some(&t1), &c, "AGENTS.md").unwrap();
    assert_eq!(k2, braid::agent::InjectResult::Updated);
    assert_eq!(t1, t2);
}

#[test]
fn second_injection_keeps_the_text_in_issues_branch_mode() {
    let c = braid::config::Config { issues_branch: Some("braid-issues".to_string()), ..Default::default() };
    let (_, t1) = inject_agents_block(None, &c, "AGENTS.md").unwrap();
    let (k2, t2) = inject_agents_block(Some(&t1), &c, "AGENTS.md").unwrap();
    assert_eq!(k2, braid::agent::InjectResult::Updated);
    assert_eq!(t1, t2);
    assert_eq!(extract_mode(&generate_block(&braid::config::Config::default())), Some(braid::agent::AgentsBlockMode::GitNative));
}
