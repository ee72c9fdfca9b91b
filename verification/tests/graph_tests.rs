use braid::graph::{compute_derived, find_cycles, get_dependents, get_ready_issues, would_create_cycle};
use braid::issue::{Issue, IssueMap, Priority, Status};

fn make_issue(id: &str, status: Status, deps: Vec<&str>) -> Issue {
    let mut issue = Issue::new(
        id.to_string(),
        format!("Issue {}", id),
        Priority::P1,
        deps.into_iter().map(String::from).collect(),
    );
    issue.frontmatter.status = status;
    issue
}

fn map_of(list: Vec<Issue>) -> IssueMap {
    let mut m = IssueMap::new();
    for x in list {
        m.insert(x);
    }
    m
}

#[test]
fn test_compute_derived_ready() {
    let issues = map_of(vec![make_issue("a", Status::Open, vec![])]);
    let derived = compute_derived(issues.get("a").unwrap(), &issues);
    assert!(derived.is_ready);
    assert!(!derived.is_blocked);
}

#[test]
fn test_compute_derived_blocked() {
    let issues = map_of(vec![
        make_issue("a", Status::Open, vec!["b"]),
        make_issue("b", Status::Open, vec![]),
    ]);
    let derived = compute_derived(issues.get("a").unwrap(), &issues);
    assert!(!derived.is_ready);
    assert!(derived.is_blocked);
    assert_eq!(derived.open_deps, vec!["b"]);
}

#[test]
fn test_find_cycles() {
    let issues = map_of(vec![
        make_issue("a", Status::Open, vec!["b"]),
        make_issue("b", Status::Open, vec!["a"]),
    ]);
    let cycles = find_cycles(&issues);
    assert!(!cycles.is_empty());
}

#[test]
fn test_would_create_cycle_detects_direct() {
    let issues = map_of(vec![
        make_issue("a", Status::Open, vec!["b"]),
        make_issue("b", Status::Open, vec![]),
    ]);
    let result = would_create_cycle("b", "a", &issues);
    assert!(result.is_some());
}

#[test]
fn test_would_create_cycle_detects_indirect() {
    let issues = map_of(vec![
        make_issue("a", Status::Open, vec!["b"]),
        make_issue("b", Status::Open, vec!["c"]),
        make_issue("c", Status::Open, vec![]),
    ]);
    let result = would_create_cycle("c", "a", &issues);
    assert!(result.is_some());
}

#[test]
fn test_would_create_cycle_allows_valid() {
    let issues = map_of(vec![
        make_issue("a", Status::Open, vec!["b"]),
        make_issue("b", Status::Open, vec![]),
        make_issue("c", Status::Open, vec![]),
    ]);
    let result = would_create_cycle("c", "a", &issues);
    assert!(result.is_none());
}

#[test]
fn test_get_dependents() {
    let issues = map_of(vec![
        make_issue("a", Status::Open, vec![]),
        make_issue("b", Status::Open, vec!["a"]),
        make_issue("c", Status::Open, vec!["a"]),
        make_issue("d", Status::Open, vec!["b"]),
    ]);
    assert_eq!(get_dependents("a", &issues), vec!["b", "c"]);
    assert_eq!(get_dependents("b", &issues), vec!["d"]);
    assert!(get_dependents("d", &issues).is_empty());
}

#[test]
fn would_create_cycle_reports_the_path() {
    let issues = map_of(vec![
        make_issue("a", Status::Open, vec!["b"]),
        make_issue("b", Status::Open, vec!["c"]),
        make_issue("c", Status::Open, vec![]),
    ]);
    assert_eq!(would_create_cycle("c", "a", &issues).unwrap(), vec!["c", "a", "b", "c"]);
}

#[test]
fn find_cycles_is_empty_for_an_acyclic_graph() {
    let issues = map_of(vec![
        make_issue("a", Status::Open, vec!["b"]),
        make_issue("b", Status::Open, vec!["c"]),
        make_issue("c", Status::Open, vec![]),
    ]);
    assert!(find_cycles(&issues).is_empty());
}

#[test]
fn missing_and_resolved_deps_are_told_apart() {
    let issues = map_of(vec![
        make_issue("a", Status::Open, vec!["b", "gone", "c"]),
        make_issue("b", Status::Done, vec![]),
        make_issue("c", Status::Doing, vec![]),
    ]);
    let d = compute_derived(issues.get("a").unwrap(), &issues);
    assert_eq!(d.open_deps, vec!["c"]);
    assert_eq!(d.missing_deps, vec!["gone"]);
    assert!(!d.is_ready);
    assert!(d.is_blocked);
}

#[test]
fn ready_issues_come_in_priority_order() {
    let mut low = make_issue("low", Status::Open, vec![]);
    low.frontmatter.priority = Priority::P3;
    let mut high = make_issue("high", Status::Open, vec![]);
    high.frontmatter.priority = Priority::P0;
    let blocked = make_issue("blocked", Status::Open, vec!["low"]);
    let done = make_issue("done", Status::Done, vec![]);
    let issues = map_of(vec![low, high, blocked, done]);
    let ready: Vec<&str> = get_ready_issues(&issues).iter().map(|x| x.id()).collect();
    assert_eq!(ready, vec!["high", "low"]);
}
