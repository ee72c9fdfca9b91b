use braid::doctor::{doctor_outcome, doctor_report, DoctorFacts, DoctorProblem};
use braid::issue::{Issue, IssueMap, Priority};

fn issue(id: &str, deps: &[&str]) -> Issue {
    Issue::new(id.to_string(), format!("Test Issue {}", id), Priority::P2, deps.iter().map(|d| d.to_string()).collect())
}

fn map_of(list: Vec<Issue>) -> IssueMap {
    let mut m = IssueMap::new();
    for x in list {
        m.insert(x);
    }
    m
}

fn healthy() -> DoctorFacts {
    DoctorFacts { braid_dir_exists: true, config_valid: true, stale_issues: 0, agents_block: None }
}

fn run(facts: &DoctorFacts, issues: &IssueMap) -> Result<(), braid::error::BrdError> {
    let report = doctor_report(facts, issues);
    doctor_outcome(report.problems.len())
}

#[test]
fn test_doctor_missing_braid_dir() {
    let facts = DoctorFacts { braid_dir_exists: false, config_valid: false, stale_issues: 0, agents_block: None };
    assert!(run(&facts, &IssueMap::new()).is_err());
}

#[test]
fn test_doctor_missing_config() {
    let facts = DoctorFacts { config_valid: false, ..healthy() };
    assert!(run(&facts, &IssueMap::new()).is_err());
}

#[test]
fn test_doctor_healthy_repo() {
    assert!(run(&healthy(), &IssueMap::new()).is_ok());
}

#[test]
fn test_doctor_missing_dependency() {
    let issues = map_of(vec![issue("child", &["nonexistent"])]);
    assert!(run(&healthy(), &issues).is_err());
}

#[test]
fn test_doctor_valid_dependency() {
    let issues = map_of(vec![issue("parent", &[]), issue("child", &["parent"])]);
    assert!(run(&healthy(), &issues).is_ok());
}

#[test]
fn test_doctor_dependency_cycle() {
    let issues = map_of(vec![issue("issue-a", &["issue-b"]), issue("issue-b", &["issue-a"])]);
    assert!(run(&healthy(), &issues).is_err());
}

#[test]
fn test_doctor_multiple_errors() {
    let issues = map_of(vec![issue("issue-a", &["issue-b", "nonexistent"]), issue("issue-b", &["issue-a"])]);
    let report = doctor_report(&healthy(), &issues);
    assert!(report.problems.len() >= 2);
    assert!(matches!(&report.problems[0], DoctorProblem::MissingDep(i, d) if i == "issue-a" && d == "nonexistent"));
    assert!(report.problems.iter().any(|p| matches!(p, DoctorProblem::Cycle(_))));
    assert!(doctor_outcome(report.problems.len()).is_err());
}

#[test]
fn stale_schema_and_agents_block_only_warn() {
    let facts = DoctorFacts { stale_issues: 3, agents_block: Some(1), ..healthy() };
    let report = doctor_report(&facts, &IssueMap::new());
    assert!(report.problems.is_empty());
    let names: Vec<(&str, bool)> = report.checks.iter().map(|c| (c.name.as_str(), c.passed)).collect();
    assert_eq!(
        names,
        vec![
            ("braid_dir", true),
            ("config_valid", true),
            ("issues_parse", true),
            ("schema_current", false),
            ("no_missing_deps", true),
            ("no_cycles", true),
            ("agents_block", false)
        ]
    );
    assert_eq!(report.checks[3].description, "all issues at schema v9");
    assert_eq!(report.checks[6].description, "AGENTS.md braid block outdated (v1 < v7)");
}
