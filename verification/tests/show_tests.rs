use braid::error::BrdError;
use braid::graph::get_ready_issues;
use braid::issue::{resolve_issue_id, Issue, IssueMap, IssueType, Priority, Status};
use braid::show::{format_context_output, format_ready_output, format_show_output, truncate_title, Style};

fn map_of(list: Vec<Issue>) -> IssueMap {
    let mut m = IssueMap::new();
    for x in list {
        m.insert(x);
    }
    m
}

fn plain() -> Style {
    Style {
        underline: String::new(),
        italic: String::new(),
        bold: String::new(),
        reset: String::new(),
        red: String::new(),
        yellow: String::new(),
        color_reset: String::new(),
    }
}

fn make_issue(id: &str, priority: Priority, status: Status, deps: Vec<&str>) -> Issue {
    let mut issue = Issue::new(
        id.to_string(),
        format!("issue {id}"),
        priority,
        deps.into_iter().map(String::from).collect(),
    );
    issue.frontmatter.status = status;
    issue
}

#[test]
fn test_format_show_output_text_includes_sections() {
    let mut issue = Issue::new(
        "brd-1234".to_string(),
        "test issue".to_string(),
        Priority::P1,
        vec!["brd-aaaa".to_string(), "brd-missing".to_string()],
    );
    issue.frontmatter.tags = vec!["visual".to_string(), "urgent".to_string()];
    issue.frontmatter.owner = Some("agent-one".to_string());
    issue.frontmatter.acceptance = vec!["do a thing".to_string(), "do another".to_string()];
    issue.frontmatter.issue_type = Some(IssueType::Meta);
    issue.body = "more details".to_string();
    let mut dep_issue = Issue::new("brd-aaaa".to_string(), "dep issue".to_string(), Priority::P2, vec![]);
    dep_issue.frontmatter.status = Status::Open;
    let issues = map_of(vec![issue.clone(), dep_issue]);

    let output = format_show_output(&issue, &issues, "", "");
    assert!(output.contains("ID:       brd-1234"));
    assert!(output.contains("Title:    test issue"));
    assert!(output.contains("Priority: P1"));
    assert!(output.contains("Status:   open"));
    assert!(output.contains("Type:     meta"));
    assert!(output.contains("Blocked by:"));
    assert!(output.contains("  ○ brd-aaaa (open)  dep issue"));
    assert!(output.contains("  ? brd-missing (missing)"));
    assert!(output.contains("Tags:     visual, urgent"));
    assert!(output.contains("Owner:    agent-one"));
    assert!(output.contains("Acceptance:"));
    assert!(output.contains("  - do a thing"));
    assert!(output.contains("more details"));
}

#[test]
fn test_cmd_show_ambiguous_id() {
    let issues = map_of(vec![make_issue("brd-aaaa", Priority::P2, Status::Open, vec![]), make_issue("brd-aaab", Priority::P2, Status::Open, vec![])]);
    let err = resolve_issue_id("aaa", &issues).unwrap_err();
    assert!(matches!(err, BrdError::AmbiguousId(_, _)));
}

#[test]
fn test_cmd_show_issue_not_found() {
    let issues = IssueMap::new();
    let err = resolve_issue_id("brd-missing", &issues).unwrap_err();
    assert!(matches!(err, BrdError::IssueNotFound(_)));
}

#[test]
fn test_format_show_output_dependents_show_status() {
    let parent = Issue::new("brd-parent".to_string(), "parent issue".to_string(), Priority::P1, vec![]);
    let mut dependent_open = Issue::new("brd-child1".to_string(), "open child".to_string(), Priority::P2, vec!["brd-parent".to_string()]);
    dependent_open.frontmatter.status = Status::Open;
    let mut dependent_done = Issue::new("brd-child2".to_string(), "done child".to_string(), Priority::P2, vec!["brd-parent".to_string()]);
    dependent_done.frontmatter.status = Status::Done;
    let issues = map_of(vec![parent.clone(), dependent_done, dependent_open]);

    let output = format_show_output(&parent, &issues, "", "");
    assert!(output.contains("Blocks:"));
    assert!(output.contains("  ○ brd-child1 (open)  open child"));
    assert!(output.contains("  ✓ brd-child2 (done)  done child"));
    let open_pos = output.find("brd-child1").unwrap();
    let done_pos = output.find("brd-child2").unwrap();
    assert!(open_pos < done_pos);
}

#[test]
fn resolved_lines_are_dimmed() {
    let parent = make_issue("brd-p", Priority::P1, Status::Open, vec!["brd-d"]);
    let done = make_issue("brd-d", Priority::P1, Status::Done, vec![]);
    let issues = map_of(vec![parent.clone(), done]);
    let output = format_show_output(&parent, &issues, "<dim>", "</dim>");
    assert!(output.contains("<dim>  ✓ brd-d (done)  issue brd-d</dim>\n"));
}

#[test]
fn titles_are_cut_to_the_limit() {
    assert_eq!(truncate_title("short", 60), "short");
    let long = "x".repeat(70);
    let cut = truncate_title(&long, 60);
    assert_eq!(cut.chars().count(), 60);
    assert!(cut.ends_with('…'));
}

#[test]
fn context_output_includes_related_bodies() {
    let mut dep = make_issue("brd-dep", Priority::P1, Status::Open, vec![]);
    dep.body = "dep body".to_string();
    let main = make_issue("brd-main", Priority::P1, Status::Open, vec!["brd-dep", "brd-gone"]);
    let child = make_issue("brd-child", Priority::P2, Status::Open, vec!["brd-main"]);
    let issues = map_of(vec![dep, main.clone(), child]);
    let out = format_context_output(&main, &issues, "", "");
    assert!(out.starts_with("=== brd-main: issue brd-main ===\n\nID:       brd-main\n"));
    assert!(out.contains("\n=== Blocked by ===\n\n--- brd-dep (open) ---\n\ndep body\n\n--- brd-gone (missing) ---\n"));
    assert!(out.ends_with("\n=== Blocks ===\n\n--- brd-child (open) ---\n\n(no description)\n"));
}

#[test]
fn test_format_ready_output_text_filters_ready() {
    let ready_issue = make_issue("brd-ready", Priority::P2, Status::Open, vec![]);
    let blocked_issue = make_issue("brd-blocked", Priority::P1, Status::Open, vec!["brd-ready"]);
    let mut done_issue = make_issue("brd-done", Priority::P0, Status::Done, vec![]);
    done_issue.frontmatter.issue_type = Some(IssueType::Meta);
    let issues = map_of(vec![ready_issue, blocked_issue, done_issue]);
    let ready = get_ready_issues(&issues);
    let output = format_ready_output(&ready, &plain(), false, 7);
    assert!(output.contains("brd-ready"));
    assert!(!output.contains("brd-blocked"));
    assert!(!output.contains("brd-done"));
    assert!(output.contains("open: 1 | time: 7ms"));
}

#[test]
fn test_format_ready_output_no_ready_issues() {
    let blocked_issue = make_issue("brd-blocked", Priority::P1, Status::Open, vec!["brd-miss"]);
    let issues = map_of(vec![blocked_issue]);
    let ready = get_ready_issues(&issues);
    let output = format_ready_output(&ready, &plain(), false, 0);
    assert!(output.contains("No ready issues."));
    assert!(output.contains("open: 0 | time: 0ms"));
}

#[test]
fn test_format_ready_output_json_ordering() {
    const DAY: i128 = 86_400_000_000_000;
    let mut issue_p2 = make_issue("brd-p2", Priority::P2, Status::Open, vec![]);
    let now = issue_p2.frontmatter.created_at;
    issue_p2.frontmatter.created_at = now - 2 * DAY;
    issue_p2.frontmatter.updated_at = issue_p2.frontmatter.created_at;
    let mut issue_p0 = make_issue("brd-p0", Priority::P0, Status::Open, vec![]);
    issue_p0.frontmatter.created_at = now - DAY;
    issue_p0.frontmatter.updated_at = issue_p0.frontmatter.created_at;
    let issues = map_of(vec![issue_p2, issue_p0]);

    let ready = get_ready_issues(&issues);
    let ids: Vec<&str> = ready.iter().map(|x| x.frontmatter.id.as_str()).collect();
    assert_eq!(ids[0], "brd-p0");
    assert_eq!(ids[1], "brd-p2");
}
