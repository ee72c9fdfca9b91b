use braid::status::{
    format_duration, format_status_output, ActiveAgent, AgentInfo, IssueCounts, SyncInfo, SyncState,
};

fn empty_agents() -> AgentInfo {
    AgentInfo { total: 0, active: vec![] }
}

#[test]
fn test_format_duration() {
    assert_eq!(format_duration(5), "5m");
    assert_eq!(format_duration(59), "59m");
    assert_eq!(format_duration(60), "1h");
    assert_eq!(format_duration(120), "2h");
    assert_eq!(format_duration(60 * 24), "1d");
    assert_eq!(format_duration(60 * 24 * 3), "3d");
}

#[test]
fn test_format_status_output_git_native() {
    let counts = IssueCounts { open: 2, doing: 1, done: 3, skip: 0 };
    let output = format_status_output(None, "agent-one", "brd", counts, None, &empty_agents());
    assert!(output.contains("Mode:     git-native"));
    assert!(output.contains("Agent:    agent-one"));
    assert!(output.contains("Prefix:   brd"));
    assert!(output.contains("Issues:   2 open, 1 doing, 3 done"));
    assert!(output.contains("Agents:   none"));
    assert!(!output.contains("Sync:"));
}

#[test]
fn test_format_status_output_local_sync() {
    let counts = IssueCounts { open: 1, doing: 0, done: 0, skip: 1 };
    let sync = SyncInfo {
        upstream: Some("origin/braid-issues".to_string()),
        state: SyncState::UpToDate,
        dirty_count: 0,
    };
    let output = format_status_output(Some("braid-issues"), "agent-one", "brd", counts, Some(&sync), &empty_agents());
    assert!(output.contains("Mode:     local-sync (branch: braid-issues)"));
    assert!(output.contains("Issues:   1 open, 0 doing, 0 done, 1 skip"));
    assert!(output.contains("Sync:     up to date with origin/braid-issues"));
}

#[test]
fn test_format_status_output_dirty() {
    let counts = IssueCounts { open: 1, doing: 0, done: 0, skip: 0 };
    let sync = SyncInfo {
        upstream: Some("origin/braid-issues".to_string()),
        state: SyncState::UpToDate,
        dirty_count: 3,
    };
    let output = format_status_output(Some("braid-issues"), "agent-one", "brd", counts, Some(&sync), &empty_agents());
    assert!(output.contains("Sync:     up to date with origin/braid-issues (3 dirty)"));
}

#[test]
fn test_format_status_output_with_agents() {
    let counts = IssueCounts { open: 1, doing: 1, done: 0, skip: 0 };
    let agents = AgentInfo {
        total: 2,
        active: vec![ActiveAgent {
            name: "agent-one".to_string(),
            issue_id: "brd-abc1".to_string(),
            issue_title: "test issue".to_string(),
            duration_mins: Some(15),
        }],
    };
    let output = format_status_output(None, "agent-one", "brd", counts, None, &agents);
    assert!(output.contains("Agents:   2 total, 1 active (agent-one on brd-abc1 for 15m)"));
}

#[test]
fn status_output_is_the_exact_text() {
    let counts = IssueCounts { open: 0, doing: 2, done: 4, skip: 0 };
    let output = format_status_output(None, "me", "xy", counts, None, &empty_agents());
    assert_eq!(
        output,
        "braid status\n------------\nMode:     git-native\nAgent:    me\nPrefix:   xy\nIssues:   0 open, 2 doing, 4 done\nAgents:   none\n"
    );
}
