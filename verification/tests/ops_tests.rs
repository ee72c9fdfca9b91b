use braid::error::BrdError;
use braid::issue::{resolve_issue_id, Issue, IssueMap, IssueType, Priority, Status};
use braid::ops::{
    check_removable, claim_issue, done_issue_ids, issue_file, next_ready_id, reopen_issue, set_issue_field,
    skip_issue, unshipped_warning,
};

fn issue(id: &str) -> Issue {
    Issue::new(id.to_string(), format!("issue {}", id), Priority::P2, vec![])
}

fn with(id: &str, f: impl FnOnce(&mut Issue)) -> Issue {
    let mut x = issue(id);
    f(&mut x);
    x
}

fn map_of(list: Vec<Issue>) -> IssueMap {
    let mut m = IssueMap::new();
    for x in list {
        m.insert(x);
    }
    m
}

fn start(m: &mut IssueMap, partial: Option<&str>, agent: &str, force: bool) -> Result<String, BrdError> {
    let id = match partial {
        Some(p) => resolve_issue_id(p, m)?,
        None => next_ready_id(m)?,
    };
    claim_issue(m, &id, agent, force)?;
    Ok(id)
}

// ---- reopen

#[test]
fn test_reopen_sets_status_and_clears_owner() {
    let mut m = map_of(vec![with("brd-aaaa", |x| {
        x.frontmatter.status = Status::Done;
        x.frontmatter.owner = Some("tester".to_string());
    })]);
    reopen_issue(&mut m, "brd-aaaa").unwrap();
    let x = m.get("brd-aaaa").unwrap();
    assert_eq!(x.status(), Status::Open);
    assert!(x.frontmatter.owner.is_none());
}

#[test]
fn test_reopen_from_skip() {
    let mut m = map_of(vec![with("brd-aaaa", |x| x.frontmatter.status = Status::Skip)]);
    reopen_issue(&mut m, "brd-aaaa").unwrap();
    assert_eq!(m.get("brd-aaaa").unwrap().status(), Status::Open);
}

#[test]
fn test_reopen_issue_not_found() {
    let mut m = IssueMap::new();
    let err = reopen_issue(&mut m, "brd-missing").unwrap_err();
    assert!(matches!(err, BrdError::IssueNotFound(_)));
}

#[test]
fn test_reopen_ambiguous_id() {
    let mut m = map_of(vec![issue("brd-aaaa"), issue("brd-aaab")]);
    let err = reopen_issue(&mut m, "aaa").unwrap_err();
    assert!(matches!(err, BrdError::AmbiguousId(_, _)));
}

// ---- skip

#[test]
fn test_skip_sets_status_and_clears_owner() {
    let mut m = map_of(vec![with("brd-aaaa", |x| {
        x.frontmatter.status = Status::Doing;
        x.frontmatter.owner = Some("tester".to_string());
    })]);
    skip_issue(&mut m, "brd-aaaa").unwrap();
    let x = m.get("brd-aaaa").unwrap();
    assert_eq!(x.status(), Status::Skip);
    assert!(x.frontmatter.owner.is_none());
}

#[test]
fn test_skip_issue_not_found() {
    let mut m = IssueMap::new();
    let err = skip_issue(&mut m, "brd-missing").unwrap_err();
    assert!(matches!(err, BrdError::IssueNotFound(_)));
}

#[test]
fn test_skip_ambiguous_id() {
    let mut m = map_of(vec![issue("brd-aaaa"), issue("brd-aaab")]);
    let err = skip_issue(&mut m, "aaa").unwrap_err();
    assert!(matches!(err, BrdError::AmbiguousId(_, _)));
}

// ---- rm

#[test]
fn test_rm_deletes_issue_file() {
    let m = map_of(vec![issue("brd-aaaa")]);
    assert_eq!(check_removable(&m, "brd-aaaa", false).unwrap(), "brd-aaaa");
}

#[test]
fn test_rm_requires_force_for_doing_issue() {
    let m = map_of(vec![with("brd-aaaa", |x| x.frontmatter.status = Status::Doing)]);
    let err = check_removable(&m, "brd-aaaa", false).unwrap_err();
    assert!(err.to_text().contains("in progress"));
}

#[test]
fn test_rm_force_deletes_doing_issue() {
    let m = map_of(vec![with("brd-aaaa", |x| x.frontmatter.status = Status::Doing)]);
    assert_eq!(check_removable(&m, "brd-aaaa", true).unwrap(), "brd-aaaa");
}

#[test]
fn test_rm_ambiguous_id() {
    let m = map_of(vec![issue("brd-aaaa"), issue("brd-aaab")]);
    let err = check_removable(&m, "aaa", false).unwrap_err();
    assert!(matches!(err, BrdError::AmbiguousId(_, _)));
}

// ---- start

#[test]
fn test_start_sets_status_and_owner() {
    let mut m = map_of(vec![issue("brd-aaaa")]);
    start(&mut m, Some("brd-aaaa"), "tester", false).unwrap();
    let x = m.get("brd-aaaa").unwrap();
    assert_eq!(x.status(), Status::Doing);
    assert_eq!(x.frontmatter.owner.as_deref(), Some("tester"));
}

#[test]
fn test_start_auto_picks_non_meta() {
    let mut m = map_of(vec![
        with("brd-meta", |x| {
            x.frontmatter.priority = Priority::P0;
            x.frontmatter.issue_type = Some(IssueType::Meta);
        }),
        with("brd-work", |x| x.frontmatter.priority = Priority::P1),
    ]);
    start(&mut m, None, "tester", false).unwrap();
    let work = m.get("brd-work").unwrap();
    assert_eq!(work.status(), Status::Doing);
    assert_eq!(work.frontmatter.owner.as_deref(), Some("tester"));
    assert_eq!(m.get("brd-meta").unwrap().status(), Status::Open);
}

#[test]
fn test_start_requires_force_for_doing_issue() {
    let mut m = map_of(vec![with("brd-aaaa", |x| {
        x.frontmatter.status = Status::Doing;
        x.frontmatter.owner = Some("someone".to_string());
    })]);
    let err = start(&mut m, Some("brd-aaaa"), "tester", false).unwrap_err();
    assert!(err.to_text().contains("already being worked on"));
    assert_eq!(m.get("brd-aaaa").unwrap().frontmatter.owner.as_deref(), Some("someone"));
}

#[test]
fn test_start_force_reassigns_owner() {
    let mut m = map_of(vec![with("brd-aaaa", |x| {
        x.frontmatter.status = Status::Doing;
        x.frontmatter.owner = Some("someone".to_string());
    })]);
    start(&mut m, Some("brd-aaaa"), "tester", true).unwrap();
    assert_eq!(m.get("brd-aaaa").unwrap().frontmatter.owner.as_deref(), Some("tester"));
}

#[test]
fn test_start_ambiguous_id() {
    let mut m = map_of(vec![issue("brd-aaaa"), issue("brd-aaab")]);
    let err = start(&mut m, Some("aaa"), "tester", false).unwrap_err();
    assert!(matches!(err, BrdError::AmbiguousId(_, _)));
}

#[test]
fn test_start_issue_not_found() {
    let mut m = IssueMap::new();
    let err = start(&mut m, Some("brd-missing"), "tester", false).unwrap_err();
    assert!(matches!(err, BrdError::IssueNotFound(_)));
}

#[test]
fn start_without_ready_issues_fails() {
    let mut m = map_of(vec![with("brd-aaaa", |x| x.frontmatter.status = Status::Done)]);
    let err = start(&mut m, None, "tester", false).unwrap_err();
    assert_eq!(err.to_text(), "no ready issues");
}

// ---- set

#[test]
fn test_set_priority() {
    let mut m = map_of(vec![with("brd-aaaa", |x| x.frontmatter.priority = Priority::P3)]);
    set_issue_field(&mut m, "brd-aaaa", "priority", "P1").unwrap();
    assert_eq!(m.get("brd-aaaa").unwrap().priority(), Priority::P1);
}

#[test]
fn test_set_priority_short_field() {
    let mut m = map_of(vec![issue("brd-bbbb")]);
    set_issue_field(&mut m, "brd-bbbb", "p", "P0").unwrap();
    assert_eq!(m.get("brd-bbbb").unwrap().priority(), Priority::P0);
}

#[test]
fn test_set_invalid_field() {
    let mut m = map_of(vec![issue("brd-cccc")]);
    let err = set_issue_field(&mut m, "brd-cccc", "unknown", "value").unwrap_err();
    assert!(err.to_text().contains("unknown field"));
}

#[test]
fn test_set_invalid_priority() {
    let mut m = map_of(vec![issue("brd-dddd")]);
    let err = set_issue_field(&mut m, "brd-dddd", "priority", "P9").unwrap_err();
    assert!(err.to_text().contains("invalid priority"));
}

#[test]
fn test_set_issue_not_found() {
    let mut m = IssueMap::new();
    let err = set_issue_field(&mut m, "brd-missing", "priority", "P1").unwrap_err();
    assert!(matches!(err, BrdError::IssueNotFound(_)));
}

#[test]
fn test_set_status() {
    let mut m = map_of(vec![issue("brd-stat")]);
    set_issue_field(&mut m, "brd-stat", "status", "done").unwrap();
    assert_eq!(m.get("brd-stat").unwrap().status(), Status::Done);
}

#[test]
fn test_set_status_short() {
    let mut m = map_of(vec![issue("brd-stat2")]);
    set_issue_field(&mut m, "brd-stat2", "s", "doing").unwrap();
    assert_eq!(m.get("brd-stat2").unwrap().status(), Status::Doing);
}

#[test]
fn test_set_type() {
    let mut m = map_of(vec![issue("brd-type")]);
    set_issue_field(&mut m, "brd-type", "type", "design").unwrap();
    assert_eq!(m.get("brd-type").unwrap().issue_type(), Some(IssueType::Design));
}

#[test]
fn test_set_type_clear() {
    let mut m = map_of(vec![with("brd-tclear", |x| x.frontmatter.issue_type = Some(IssueType::Design))]);
    set_issue_field(&mut m, "brd-tclear", "t", "-").unwrap();
    assert_eq!(m.get("brd-tclear").unwrap().issue_type(), None);
}

#[test]
fn test_set_owner() {
    let mut m = map_of(vec![issue("brd-owner")]);
    set_issue_field(&mut m, "brd-owner", "owner", "alice").unwrap();
    assert_eq!(m.get("brd-owner").unwrap().frontmatter.owner, Some("alice".to_string()));
}

#[test]
fn test_set_owner_clear() {
    let mut m = map_of(vec![with("brd-oclear", |x| x.frontmatter.owner = Some("bob".to_string()))]);
    set_issue_field(&mut m, "brd-oclear", "o", "-").unwrap();
    assert_eq!(m.get("brd-oclear").unwrap().frontmatter.owner, None);
}

#[test]
fn test_set_title() {
    let mut m = map_of(vec![issue("brd-title")]);
    set_issue_field(&mut m, "brd-title", "title", "new title here").unwrap();
    assert_eq!(m.get("brd-title").unwrap().title(), "new title here");
}

#[test]
fn test_set_tag_add() {
    let mut m = map_of(vec![issue("brd-tag1")]);
    set_issue_field(&mut m, "brd-tag1", "tag", "+urgent").unwrap();
    assert!(m.get("brd-tag1").unwrap().tags().contains(&"urgent".to_string()));
}

#[test]
fn test_set_tag_add_bare() {
    let mut m = map_of(vec![issue("brd-tag2")]);
    set_issue_field(&mut m, "brd-tag2", "tag", "bug").unwrap();
    assert!(m.get("brd-tag2").unwrap().tags().contains(&"bug".to_string()));
}

#[test]
fn test_set_tag_remove() {
    let mut m = map_of(vec![with("brd-tag3", |x| {
        x.frontmatter.tags = vec!["bug".to_string(), "urgent".to_string()];
    })]);
    set_issue_field(&mut m, "brd-tag3", "tag", "-bug").unwrap();
    let x = m.get("brd-tag3").unwrap();
    assert!(!x.tags().contains(&"bug".to_string()));
    assert!(x.tags().contains(&"urgent".to_string()));
}

#[test]
fn test_set_tag_no_duplicate() {
    let mut m = map_of(vec![with("brd-tag4", |x| x.frontmatter.tags = vec!["bug".to_string()])]);
    set_issue_field(&mut m, "brd-tag4", "tag", "+bug").unwrap();
    assert_eq!(m.get("brd-tag4").unwrap().tags().len(), 1);
}

#[test]
fn set_field_names_ignore_case() {
    let mut m = map_of(vec![issue("brd-case")]);
    set_issue_field(&mut m, "brd-case", "PRIORITY", "p0").unwrap();
    assert_eq!(m.get("brd-case").unwrap().priority(), Priority::P0);
}

// ---- done work not yet in main

#[test]
fn done_issue_ids_lists_only_done_issues() {
    let m = map_of(vec![
        with("brd-aaaa", |x| x.frontmatter.status = Status::Done),
        issue("brd-bbbb"),
        with("brd-cccc", |x| x.frontmatter.status = Status::Done),
        with("brd-dddd", |x| x.frontmatter.status = Status::Skip),
    ]);
    let mut ids = done_issue_ids(&m);
    ids.sort();
    assert_eq!(ids, vec!["brd-aaaa".to_string(), "brd-cccc".to_string()]);
}

#[test]
fn done_issue_ids_empty_without_done_issues() {
    let m = map_of(vec![issue("brd-aaaa"), with("brd-bbbb", |x| x.frontmatter.status = Status::Doing)]);
    assert!(done_issue_ids(&m).is_empty());
}

#[test]
fn issue_file_is_relative_to_worktree() {
    assert_eq!(issue_file("brd-aaaa"), ".braid/issues/brd-aaaa.md");
}

#[test]
fn unshipped_warning_counts_and_lists() {
    let ids = vec!["brd-aaaa".to_string(), "brd-bbbb".to_string()];
    assert_eq!(unshipped_warning(&ids), "warning: 2 done issue(s) not yet in main: brd-aaaa, brd-bbbb");
}

#[test]
fn two_agents_starting_claim_different_issues() {
    let mut m = map_of(vec![issue("brd-aaaa"), issue("brd-bbbb")]);
    let first = start(&mut m, None, "agent-one", false).unwrap();
    let second = start(&mut m, None, "agent-two", false).unwrap();
    assert_ne!(first, second);
    assert_eq!(m.get(&first).unwrap().frontmatter.owner.as_deref(), Some("agent-one"));
    assert_eq!(m.get(&second).unwrap().frontmatter.owner.as_deref(), Some("agent-two"));
    let third = start(&mut m, None, "agent-three", false).unwrap_err();
    assert_eq!(third.to_text(), "no ready issues");
}

#[test]
fn set_field_name_is_case_insensitive_and_changes_only_that_field() {
    let mut m = map_of(vec![issue("brd-case")]);
    set_issue_field(&mut m, "brd-case", "TITLE", "renamed").unwrap();
    let x = m.get("brd-case").unwrap();
    assert_eq!(x.frontmatter.title, "renamed");
    assert_eq!(x.priority(), Priority::P2);
    assert_eq!(x.status(), Status::Open);
}

#[test]
fn set_tag_adds_and_removes() {
    let mut m = map_of(vec![issue("brd-tags")]);
    set_issue_field(&mut m, "brd-tags", "tag", "ui").unwrap();
    set_issue_field(&mut m, "brd-tags", "tag", "+ui").unwrap();
    assert_eq!(m.get("brd-tags").unwrap().frontmatter.tags, vec!["ui".to_string()]);
    set_issue_field(&mut m, "brd-tags", "tag", "-ui").unwrap();
    assert!(m.get("brd-tags").unwrap().frontmatter.tags.is_empty());
}
