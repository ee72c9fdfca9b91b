use braid::done::done_issue;
use braid::error::BrdError;
use braid::issue::{Issue, IssueMap, IssueType, Priority, Status};

fn issue(id: &str, deps: &[&str]) -> Issue {
    Issue::new(
        id.to_string(),
        format!("Issue {}", id),
        Priority::P2,
        deps.iter().map(|d| d.to_string()).collect(),
    )
}

fn design(id: &str, deps: &[&str]) -> Issue {
    let mut x = issue(id, deps);
    x.frontmatter.issue_type = Some(IssueType::Design);
    x
}

fn map_of(list: Vec<Issue>) -> IssueMap {
    let mut m = IssueMap::new();
    for x in list {
        m.insert(x);
    }
    m
}

fn ids(list: &[&str]) -> Vec<String> {
    list.iter().map(|s| s.to_string()).collect()
}

fn deps_of(m: &IssueMap, id: &str) -> Vec<String> {
    m.get(id).unwrap().deps().to_vec()
}

#[test]
fn test_done_sets_status_and_clears_owner() {
    let mut x = issue("brd-aaaa", &[]);
    x.frontmatter.status = Status::Doing;
    x.frontmatter.owner = Some("tester".to_string());
    let mut m = map_of(vec![x]);
    done_issue(&mut m, "brd-aaaa", false, &vec![]).unwrap();
    let x = m.get("brd-aaaa").unwrap();
    assert_eq!(x.status(), Status::Done);
    assert!(x.frontmatter.owner.is_none());
}

#[test]
fn test_done_issue_not_found() {
    let mut m = IssueMap::new();
    let err = done_issue(&mut m, "brd-missing", false, &vec![]).unwrap_err();
    assert!(matches!(err, BrdError::IssueNotFound(_)));
}

#[test]
fn test_done_ambiguous_id() {
    let mut m = map_of(vec![issue("brd-aaaa", &[]), issue("brd-aaab", &[])]);
    let err = done_issue(&mut m, "aaa", false, &vec![]).unwrap_err();
    assert!(matches!(err, BrdError::AmbiguousId(_, _)));
}

#[test]
fn test_done_design_requires_result() {
    let mut m = map_of(vec![design("brd-design", &[])]);
    let err = done_issue(&mut m, "brd-design", false, &vec![]).unwrap_err();
    assert!(err.to_text().contains("design issues require --result"));
}

#[test]
fn test_done_design_with_force() {
    let mut m = map_of(vec![design("brd-design", &[])]);
    done_issue(&mut m, "brd-design", true, &vec![]).unwrap();
    assert_eq!(m.get("brd-design").unwrap().status(), Status::Done);
}

#[test]
fn test_done_design_with_result() {
    let mut m = map_of(vec![design("brd-design", &[]), issue("brd-impl", &[])]);
    done_issue(&mut m, "brd-design", false, &ids(&["brd-impl"])).unwrap();
    assert_eq!(m.get("brd-design").unwrap().status(), Status::Done);
}

#[test]
fn test_done_design_result_not_found() {
    let mut m = map_of(vec![design("brd-design", &[])]);
    let err = done_issue(&mut m, "brd-design", false, &ids(&["brd-missing"])).unwrap_err();
    assert!(matches!(err, BrdError::IssueNotFound(_)));
}

#[test]
fn test_done_design_replaces_dependents() {
    let mut m = map_of(vec![
        design("brd-design", &[]),
        issue("brd-impl", &[]),
        issue("brd-dependent", &["brd-design"]),
    ]);
    done_issue(&mut m, "brd-design", false, &ids(&["brd-impl"])).unwrap();
    let d = deps_of(&m, "brd-dependent");
    assert!(d.contains(&"brd-impl".to_string()));
    assert!(!d.contains(&"brd-design".to_string()));
}

#[test]
fn test_done_design_transfers_deps_to_results() {
    let mut m = map_of(vec![
        issue("brd-upstream", &[]),
        issue("brd-existing", &[]),
        design("brd-design", &["brd-upstream"]),
        issue("brd-impl", &["brd-existing"]),
    ]);
    done_issue(&mut m, "brd-design", false, &ids(&["brd-impl"])).unwrap();
    let d = deps_of(&m, "brd-impl");
    assert!(d.contains(&"brd-existing".to_string()));
    assert!(d.contains(&"brd-upstream".to_string()));
}

#[test]
fn test_done_design_multiple_results_that_are_also_dependents() {
    let mut m = map_of(vec![
        design("brd-design", &[]),
        issue("brd-impl1", &["brd-design"]),
        issue("brd-impl2", &["brd-design"]),
    ]);
    done_issue(&mut m, "brd-design", false, &ids(&["brd-impl1", "brd-impl2"])).unwrap();
    let d1 = deps_of(&m, "brd-impl1");
    let d2 = deps_of(&m, "brd-impl2");
    assert!(!d1.contains(&"brd-impl2".to_string()), "impl1 should not depend on impl2");
    assert!(!d2.contains(&"brd-impl1".to_string()), "impl2 should not depend on impl1");
    assert!(!d1.contains(&"brd-design".to_string()));
    assert!(!d2.contains(&"brd-design".to_string()));
    assert_eq!(m.get("brd-design").unwrap().status(), Status::Done);
}

#[test]
fn test_done_design_results_and_external_dependent() {
    let mut m = map_of(vec![
        design("brd-design", &[]),
        issue("brd-impl1", &["brd-design"]),
        issue("brd-impl2", &["brd-design"]),
        issue("brd-external", &["brd-design"]),
    ]);
    done_issue(&mut m, "brd-design", false, &ids(&["brd-impl1", "brd-impl2"])).unwrap();
    assert!(deps_of(&m, "brd-impl1").is_empty(), "impl1 should have no deps");
    assert!(deps_of(&m, "brd-impl2").is_empty(), "impl2 should have no deps");
    let e = deps_of(&m, "brd-external");
    assert!(e.contains(&"brd-impl1".to_string()), "external should depend on impl1");
    assert!(e.contains(&"brd-impl2".to_string()), "external should depend on impl2");
    assert!(!e.contains(&"brd-design".to_string()), "external should not depend on design anymore");
}

#[test]
fn test_done_design_rejects_cycles() {
    let mut m = map_of(vec![
        design("brd-design", &[]),
        issue("brd-dependent", &["brd-design"]),
        issue("brd-impl", &["brd-dependent"]),
    ]);
    let err = done_issue(&mut m, "brd-design", false, &ids(&["brd-impl"])).unwrap_err();
    assert!(err.to_text().contains("cycle"));
}

#[test]
fn done_reports_the_changed_issues() {
    let mut m = map_of(vec![
        design("brd-design", &[]),
        issue("brd-impl", &[]),
        issue("brd-dependent", &["brd-design"]),
        issue("brd-other", &[]),
    ]);
    let (id, mut changed) = done_issue(&mut m, "design", false, &ids(&["impl"])).unwrap();
    assert_eq!(id, "brd-design");
    changed.sort();
    assert!(changed.contains(&"brd-design".to_string()));
    assert!(changed.contains(&"brd-dependent".to_string()));
    assert!(!changed.contains(&"brd-other".to_string()));
}
