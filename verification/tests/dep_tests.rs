use braid::dep::{add_dep, rm_dep};
use braid::issue::{Issue, IssueMap, Priority};

fn issue(id: &str, deps: &[&str]) -> Issue {
    Issue::new(
        id.to_string(),
        format!("Issue {}", id),
        Priority::P2,
        deps.iter().map(|d| d.to_string()).collect(),
    )
}

fn map_of(list: Vec<Issue>) -> IssueMap {
    let mut m = IssueMap::new();
    for x in list {
        m.insert(x);
    }
    m
}

fn deps_of(m: &IssueMap, id: &str) -> Vec<String> {
    m.get(id).unwrap().deps().to_vec()
}

#[test]
fn test_dep_add_self_dependency_rejected() {
    let mut m = map_of(vec![issue("issue-a", &[])]);
    let result = add_dep(&mut m, "issue-a", "issue-a");
    assert!(result.is_err());
    assert!(result.unwrap_err().to_text().contains("self-dependency"));
}

#[test]
fn test_dep_add_cycle_rejected_with_message() {
    let mut m = map_of(vec![issue("issue-a", &["issue-b"]), issue("issue-b", &[])]);
    let result = add_dep(&mut m, "issue-b", "issue-a");
    assert!(result.is_err());
    let err = result.unwrap_err().to_text();
    assert!(err.contains("cycle"));
    assert!(err.contains("->"));
}

#[test]
fn test_dep_add_indirect_cycle_rejected() {
    let mut m = map_of(vec![
        issue("issue-a", &["issue-b"]),
        issue("issue-b", &["issue-c"]),
        issue("issue-c", &[]),
    ]);
    let result = add_dep(&mut m, "issue-c", "issue-a");
    assert!(result.is_err());
    assert!(result.unwrap_err().to_text().contains("cycle"));
}

#[test]
fn test_dep_add_success() {
    let mut m = map_of(vec![issue("issue-a", &[]), issue("issue-b", &[])]);
    let result = add_dep(&mut m, "issue-a", "issue-b");
    assert!(result.is_ok());
    assert!(deps_of(&m, "issue-a").contains(&"issue-b".to_string()));
}

#[test]
fn test_dep_add_idempotent() {
    let mut m = map_of(vec![issue("issue-a", &["issue-b"]), issue("issue-b", &[])]);
    let result = add_dep(&mut m, "issue-a", "issue-b");
    assert!(result.is_ok());
    let n = deps_of(&m, "issue-a").iter().filter(|d| *d == "issue-b").count();
    assert_eq!(n, 1);
}

#[test]
fn test_dep_add_partial_id_resolution() {
    let mut m = map_of(vec![issue("brd-abc1", &[]), issue("brd-xyz9", &[])]);
    let result = add_dep(&mut m, "abc1", "xyz9");
    assert!(result.is_ok());
    assert!(deps_of(&m, "brd-abc1").contains(&"brd-xyz9".to_string()));
}

#[test]
fn test_dep_add_child_not_found() {
    let mut m = map_of(vec![issue("issue-b", &[])]);
    assert!(add_dep(&mut m, "nonexistent", "issue-b").is_err());
}

#[test]
fn test_dep_add_parent_not_found() {
    let mut m = map_of(vec![issue("issue-a", &[])]);
    assert!(add_dep(&mut m, "issue-a", "nonexistent").is_err());
}

#[test]
fn test_dep_rm_existing() {
    let mut m = map_of(vec![issue("issue-a", &["issue-b"]), issue("issue-b", &[])]);
    assert!(rm_dep(&mut m, "issue-a", "issue-b").is_ok());
    assert!(!deps_of(&m, "issue-a").contains(&"issue-b".to_string()));
}

#[test]
fn test_dep_rm_nonexistent_noop() {
    let mut m = map_of(vec![issue("issue-a", &[]), issue("issue-b", &[])]);
    assert!(rm_dep(&mut m, "issue-a", "issue-b").is_ok());
    assert!(deps_of(&m, "issue-a").is_empty());
}

#[test]
fn test_dep_rm_partial_id_resolution() {
    let mut m = map_of(vec![issue("brd-abc1", &["brd-xyz9"]), issue("brd-xyz9", &[])]);
    assert!(rm_dep(&mut m, "abc1", "xyz9").is_ok());
    assert!(!deps_of(&m, "brd-abc1").contains(&"brd-xyz9".to_string()));
}

#[test]
fn test_dep_rm_child_not_found() {
    let mut m = map_of(vec![issue("issue-b", &[])]);
    assert!(rm_dep(&mut m, "nonexistent", "issue-b").is_err());
}

#[test]
fn test_dep_rm_preserves_other_deps() {
    let mut m = map_of(vec![
        issue("issue-a", &["issue-b", "issue-c"]),
        issue("issue-b", &[]),
        issue("issue-c", &[]),
    ]);
    assert!(rm_dep(&mut m, "issue-a", "issue-b").is_ok());
    assert!(!deps_of(&m, "issue-a").contains(&"issue-b".to_string()));
    assert!(deps_of(&m, "issue-a").contains(&"issue-c".to_string()));
}

#[test]
fn add_then_remove_restores_the_deps() {
    let mut m = map_of(vec![issue("issue-a", &["issue-c"]), issue("issue-b", &[]), issue("issue-c", &[])]);
    let before = deps_of(&m, "issue-a");
    assert_eq!(add_dep(&mut m, "issue-a", "issue-b").unwrap(), ("issue-a".to_string(), "issue-b".to_string()));
    assert_eq!(deps_of(&m, "issue-a"), vec!["issue-c", "issue-b"]);
    rm_dep(&mut m, "issue-a", "issue-b").unwrap();
    assert_eq!(deps_of(&m, "issue-a"), before);
}

#[test]
fn a_refused_dependency_leaves_the_issues_unchanged() {
    let mut m = map_of(vec![issue("issue-a", &["issue-b"]), issue("issue-b", &[])]);
    assert!(add_dep(&mut m, "issue-b", "issue-a").is_err());
    assert_eq!(deps_of(&m, "issue-a"), vec!["issue-b"]);
    assert!(deps_of(&m, "issue-b").is_empty());
}
