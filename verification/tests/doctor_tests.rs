use braid::doctor::{agents_block_check, check_line, doctor_outcome, missing_dep_line, missing_dep_pairs, parse_frontmatter};
use braid::issue::{Issue, IssueMap, Priority};

#[test]
fn test_parse_frontmatter_valid() {
    let content = r#"---
id: test-123
title: Test Issue
---
Body content here."#;
    let (frontmatter, body) = parse_frontmatter(content).unwrap();
    assert!(frontmatter.contains("id: test-123"));
    assert!(frontmatter.contains("title: Test Issue"));
    assert_eq!(body, "Body content here.");
}

#[test]
fn test_parse_frontmatter_with_leading_whitespace() {
    let content = r#"
---
id: test
---
Body"#;
    let (frontmatter, body) = parse_frontmatter(content).unwrap();
    assert!(frontmatter.contains("id: test"));
    assert_eq!(body, "Body");
}

#[test]
fn test_parse_frontmatter_missing_opening() {
    let content = "no frontmatter here";
    let result = parse_frontmatter(content);
    assert!(result.is_err());
    let err = result.unwrap_err().to_text();
    assert!(err.contains("missing opening ---"));
}

#[test]
fn test_parse_frontmatter_missing_closing() {
    let content = r#"---
id: test
title: No closing"#;
    let result = parse_frontmatter(content);
    assert!(result.is_err());
    let err = result.unwrap_err().to_text();
    assert!(err.contains("missing closing ---"));
}

#[test]
fn test_parse_frontmatter_empty_body() {
    let content = r#"---
id: test
---"#;
    let (frontmatter, body) = parse_frontmatter(content).unwrap();
    assert!(frontmatter.contains("id: test"));
    assert_eq!(body, "");
}

#[test]
fn test_parse_frontmatter_multiline_body() {
    let content = r#"---
id: test
---
Line 1
Line 2
Line 3"#;
    let (_, body) = parse_frontmatter(content).unwrap();
    assert!(body.contains("Line 1"));
    assert!(body.contains("Line 2"));
    assert!(body.contains("Line 3"));
}

#[test]
fn doctor_reports_missing_dependencies() {
    let mut m = IssueMap::new();
    m.insert(Issue::new("a".into(), "a".into(), Priority::P2, vec!["b".into(), "gone".into()]));
    m.insert(Issue::new("b".into(), "b".into(), Priority::P2, vec!["lost".into()]));
    let pairs = missing_dep_pairs(&m);
    assert_eq!(
        pairs,
        vec![("a".to_string(), "gone".to_string()), ("b".to_string(), "lost".to_string())]
    );
    assert_eq!(missing_dep_line("a", "gone"), "  error: a depends on missing issue gone");
}

#[test]
fn doctor_check_lines_and_outcome() {
    assert_eq!(check_line(true, "config.toml is valid"), "✓ config.toml is valid");
    assert_eq!(check_line(false, "no dependency cycles"), "✗ no dependency cycles");
    assert_eq!(agents_block_check(Some(7)), (true, "AGENTS.md braid block at v7".to_string()));
    assert_eq!(
        agents_block_check(Some(3)),
        (false, "AGENTS.md braid block outdated (v3 < v7)".to_string())
    );
    assert_eq!(agents_block_check(None), (false, "AGENTS.md braid block not found".to_string()));
    assert!(doctor_outcome(0).is_ok());
    assert_eq!(doctor_outcome(2).unwrap_err().to_text(), "doctor found errors");
}
