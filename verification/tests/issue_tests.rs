use braid::error::BrdError;
use braid::frontmatter::{split_frontmatter, to_markdown};
use braid::issue::{resolve_issue_id, Issue, IssueMap, IssueType, Priority, Status};

fn issues_with_ids(ids: &[&str]) -> IssueMap {
    let mut m = IssueMap::new();
    for id in ids {
        m.insert(Issue::new(id.to_string(), format!("test issue {}", id), Priority::P2, vec![]));
    }
    m
}

#[test]
fn test_priority_ordering() {
    assert!(Priority::P0 < Priority::P1);
    assert!(Priority::P1 < Priority::P2);
    assert!(Priority::P2 < Priority::P3);
}

#[test]
fn test_resolve_issue_id_exact_match() {
    let issues = issues_with_ids(&["brd-abc1", "brd-abc2", "brd-xyz1"]);
    let result = resolve_issue_id("brd-abc1", &issues);
    assert_eq!(result.unwrap(), "brd-abc1");
}

#[test]
fn test_resolve_issue_id_exact_match_takes_precedence() {
    let issues = issues_with_ids(&["abc", "abcd", "abcde"]);
    let result = resolve_issue_id("abc", &issues);
    assert_eq!(result.unwrap(), "abc");
}

#[test]
fn test_resolve_issue_id_partial_suffix() {
    let issues = issues_with_ids(&["brd-abc1", "brd-xyz2"]);
    let result = resolve_issue_id("abc1", &issues);
    assert_eq!(result.unwrap(), "brd-abc1");
}

#[test]
fn test_resolve_issue_id_partial_contains() {
    let issues = issues_with_ids(&["brd-abc1", "brd-xyz2"]);
    let result = resolve_issue_id("abc", &issues);
    assert_eq!(result.unwrap(), "brd-abc1");
}

#[test]
fn test_resolve_issue_id_ambiguous() {
    let issues = issues_with_ids(&["brd-abc1", "brd-abc2", "brd-xyz1"]);
    let result = resolve_issue_id("abc", &issues);
    match result {
        Err(BrdError::AmbiguousId(partial, candidates)) => {
            assert_eq!(partial, "abc");
            assert_eq!(candidates.len(), 2);
            assert!(candidates.contains(&"brd-abc1".to_string()));
            assert!(candidates.contains(&"brd-abc2".to_string()));
        }
        _ => panic!("expected AmbiguousId error"),
    }
}

#[test]
fn test_resolve_issue_id_not_found() {
    let issues = issues_with_ids(&["brd-abc1", "brd-xyz2"]);
    let result = resolve_issue_id("nonexistent", &issues);
    match result {
        Err(BrdError::IssueNotFound(id)) => {
            assert_eq!(id, "nonexistent");
        }
        _ => panic!("expected IssueNotFound error"),
    }
}

#[test]
fn test_resolve_issue_id_empty_issues() {
    let issues = IssueMap::new();
    let result = resolve_issue_id("anything", &issues);
    assert!(matches!(result, Err(BrdError::IssueNotFound(_))));
}

#[test]
fn parse_enums_case_insensitively() {
    assert_eq!(Priority::parse("p1").unwrap(), Priority::P1);
    assert_eq!(Status::parse("DOING").unwrap(), Status::Doing);
    assert_eq!(IssueType::parse("Meta").unwrap(), IssueType::Meta);
    assert_eq!(Priority::parse("P9").unwrap_err().to_text(), "parse error in priority: invalid priority: P9");
    assert_eq!(Status::parse("later").unwrap_err().to_text(), "parse error in status: invalid status: later");
    assert_eq!(
        IssueType::parse("epic").unwrap_err().to_text(),
        "parse error in type: invalid type: epic (valid: design, meta)"
    );
    assert_eq!(Priority::P3.to_text(), "P3");
    assert_eq!(Status::Skip.to_text(), "skip");
    assert_eq!(IssueType::Design.to_text(), "design");
}

#[test]
fn issue_order_is_priority_then_creation_then_id() {
    let mut a = Issue::new("b-1".into(), "a".into(), Priority::P1, vec![]);
    let mut b = Issue::new("a-1".into(), "b".into(), Priority::P1, vec![]);
    a.frontmatter.created_at = 5;
    b.frontmatter.created_at = 5;
    assert!(b.precedes(&a));
    assert!(!a.precedes(&b));
    b.frontmatter.created_at = 6;
    assert!(a.precedes(&b));
    let c = Issue::new("z".into(), "c".into(), Priority::P0, vec![]);
    assert!(c.precedes(&a));
    assert_eq!(a.cmp_by_priority(&a), std::cmp::Ordering::Equal);
}

#[test]
fn issue_map_keeps_one_issue_per_id() {
    let mut m = issues_with_ids(&["x", "y"]);
    let replaced = m.insert(Issue::new("x".into(), "again".into(), Priority::P0, vec![]));
    assert!(replaced.is_some());
    assert_eq!(m.len(), 2);
    assert_eq!(m.get("x").unwrap().title(), "again");
    assert!(m.contains_key("y"));
    assert!(!m.contains_key("z"));
    assert!(m.set_deps("y", vec!["x".to_string()]));
    assert_eq!(m.get("y").unwrap().deps(), &["x".to_string()]);
    assert!(!m.set_deps("z", vec![]));
}

#[test]
fn split_frontmatter_reads_an_issue_file() {
    let (fm, body) = split_frontmatter("\n---\nid: a\n---\n\nBody text\n").unwrap();
    assert_eq!(fm, "id: a");
    assert_eq!(body, "Body text\n");
    let err = split_frontmatter("id: a").unwrap_err();
    assert_eq!(err.to_text(), "parse error in issue: missing frontmatter delimiter");
    let err = split_frontmatter("---\nid: a\n").unwrap_err();
    assert_eq!(err.to_text(), "parse error in issue: missing closing frontmatter delimiter");
}

#[test]
fn markdown_layout_round_trips() {
    let fm = "id: brd-1\ntitle: t\ndeps:\n- brd-2\n";
    let body = "Some body\nmore";
    let md = to_markdown(fm, body);
    assert_eq!(md, "---\nid: brd-1\ntitle: t\ndeps:\n- brd-2\n---\n\nSome body\nmore");
    let (f2, b2) = split_frontmatter(&md).unwrap();
    assert_eq!(f2, fm.trim());
    assert_eq!(b2, body);
    let empty = to_markdown(fm, "");
    assert_eq!(split_frontmatter(&empty).unwrap().1, "");
}

#[test]
fn test_parse_empty_body() {
    let content = "---\nschema_version: 2\nid: \"test-nobody\"\ntitle: \"No body\"\npriority: P3\nstatus: done\ncreated_at: 2025-12-25T12:00:00Z\nupdated_at: 2025-12-25T12:00:00Z\n---\n";
    let (_, body) = split_frontmatter(content).unwrap();
    assert!(body.is_empty());
}

#[test]
fn test_parse_whitespace_only_body() {
    let content = "---\nschema_version: 2\nid: \"test-whitespace\"\ntitle: \"Whitespace body\"\npriority: P3\nstatus: open\ncreated_at: 2025-12-25T12:00:00Z\nupdated_at: 2025-12-25T12:00:00Z\n---\n\n\n\n";
    let (_, body) = split_frontmatter(content).unwrap();
    assert!(body.trim().is_empty());
}

#[test]
fn test_parse_malformed_missing_frontmatter_start() {
    let content = "id: \"test\"\ntitle: \"No delimiters\"\n---\n";
    assert!(split_frontmatter(content).is_err());
}

#[test]
fn test_parse_malformed_missing_frontmatter_end() {
    let content = "---\nid: \"test\"\ntitle: \"No end delimiter\"\n";
    assert!(split_frontmatter(content).is_err());
}
