use braid::add::new_issue;
use braid::cli::AddArgs;
use braid::config::Config;
use braid::error::BrdError;
use braid::issue::{Issue, IssueMap, IssueType, Priority, Status};

fn make_args(title: &str) -> AddArgs {
    AddArgs {
        title: title.to_string(),
        priority: "P2".to_string(),
        issue_type: None,
        dep: vec![],
        ac: vec![],
        tag: vec![],
        body: None,
    }
}

fn existing(ids: &[&str]) -> IssueMap {
    let mut m = IssueMap::new();
    for id in ids {
        m.insert(Issue::new(id.to_string(), "Existing Issue".to_string(), Priority::P2, vec![]));
    }
    m
}

fn add(issues: &mut IssueMap, config: &Config, args: &AddArgs) -> Result<Issue, BrdError> {
    let taken: Vec<String> = issues.values().iter().map(|x| x.id().to_string()).collect();
    let x = new_issue(config, issues, args, &taken)?;
    issues.insert(x.clone());
    Ok(x)
}

#[test]
fn test_add_minimal() {
    let mut m = IssueMap::new();
    let x = add(&mut m, &Config::default(), &make_args("Test issue")).unwrap();
    assert_eq!(m.len(), 1);
    assert_eq!(x.title(), "Test issue");
    assert_eq!(x.priority(), Priority::P2);
    assert_eq!(x.status(), Status::Open);
}

#[test]
fn test_add_with_all_options() {
    let mut m = existing(&["brd-dep1"]);
    let args = AddArgs {
        title: "Full issue".to_string(),
        priority: "P0".to_string(),
        issue_type: Some("design".to_string()),
        dep: vec!["brd-dep1".to_string()],
        ac: vec!["criterion 1".to_string(), "criterion 2".to_string()],
        tag: vec!["testing".to_string(), "urgent".to_string()],
        body: Some("This is the body".to_string()),
    };
    let x = add(&mut m, &Config::default(), &args).unwrap();
    assert_eq!(m.len(), 2);
    assert_eq!(x.priority(), Priority::P0);
    assert_eq!(x.issue_type(), Some(IssueType::Design));
    assert!(x.deps().contains(&"brd-dep1".to_string()));
    assert_eq!(x.frontmatter.acceptance.len(), 2);
    assert!(x.tags().contains(&"testing".to_string()));
    assert!(x.tags().contains(&"urgent".to_string()));
    assert_eq!(x.body, "This is the body");
}

#[test]
fn test_add_priority_p0() {
    let mut args = make_args("P0 issue");
    args.priority = "P0".to_string();
    let x = add(&mut IssueMap::new(), &Config::default(), &args).unwrap();
    assert_eq!(x.priority(), Priority::P0);
}

#[test]
fn test_add_priority_p3() {
    let mut args = make_args("P3 issue");
    args.priority = "P3".to_string();
    let x = add(&mut IssueMap::new(), &Config::default(), &args).unwrap();
    assert_eq!(x.priority(), Priority::P3);
}

#[test]
fn test_add_invalid_priority() {
    let mut args = make_args("Bad priority");
    args.priority = "P9".to_string();
    let err = add(&mut IssueMap::new(), &Config::default(), &args).unwrap_err();
    assert_eq!(err.to_text(), "parse error in priority: invalid priority: P9");
}

#[test]
fn test_add_type_design() {
    let mut args = make_args("Design issue");
    args.issue_type = Some("design".to_string());
    let x = add(&mut IssueMap::new(), &Config::default(), &args).unwrap();
    assert_eq!(x.issue_type(), Some(IssueType::Design));
}

#[test]
fn test_add_type_meta() {
    let mut args = make_args("Meta issue");
    args.issue_type = Some("meta".to_string());
    let x = add(&mut IssueMap::new(), &Config::default(), &args).unwrap();
    assert_eq!(x.issue_type(), Some(IssueType::Meta));
}

#[test]
fn test_add_invalid_type() {
    let mut args = make_args("Bad type");
    args.issue_type = Some("invalid".to_string());
    let err = add(&mut IssueMap::new(), &Config::default(), &args).unwrap_err();
    assert_eq!(err.to_text(), "parse error in type: invalid type: invalid (valid: design, meta)");
}

#[test]
fn test_add_with_dep() {
    let mut m = existing(&["brd-parent"]);
    let mut args = make_args("Child issue");
    args.dep = vec!["brd-parent".to_string()];
    let x = add(&mut m, &Config::default(), &args).unwrap();
    assert!(x.deps().contains(&"brd-parent".to_string()));
}

#[test]
fn test_add_with_multiple_deps() {
    let mut m = existing(&["brd-dep1", "brd-dep2"]);
    let mut args = make_args("Multi dep issue");
    args.dep = vec!["brd-dep1".to_string(), "brd-dep2".to_string()];
    let x = add(&mut m, &Config::default(), &args).unwrap();
    assert!(x.deps().contains(&"brd-dep1".to_string()));
    assert!(x.deps().contains(&"brd-dep2".to_string()));
}

#[test]
fn test_add_with_partial_dep_id() {
    let mut m = existing(&["brd-abcd"]);
    let mut args = make_args("Partial dep issue");
    args.dep = vec!["abcd".to_string()];
    let x = add(&mut m, &Config::default(), &args).unwrap();
    assert!(x.deps().contains(&"brd-abcd".to_string()));
}

#[test]
fn test_add_with_nonexistent_dep() {
    let mut args = make_args("Bad dep issue");
    args.dep = vec!["nonexistent".to_string()];
    let err = add(&mut IssueMap::new(), &Config::default(), &args).unwrap_err();
    assert!(matches!(err, BrdError::IssueNotFound(ref p) if p == "nonexistent"));
}

#[test]
fn test_add_generates_unique_ids() {
    let mut m = IssueMap::new();
    for i in 0..5 {
        add(&mut m, &Config::default(), &make_args(&format!("Issue {}", i))).unwrap();
    }
    assert_eq!(m.len(), 5);
    let mut ids: Vec<String> = m.values().iter().map(|x| x.id().to_string()).collect();
    ids.sort();
    ids.dedup();
    assert_eq!(ids.len(), 5);
}

#[test]
fn test_add_uses_config_prefix() {
    let config = Config { id_prefix: "test".to_string(), ..Default::default() };
    let x = add(&mut IssueMap::new(), &config, &make_args("Prefixed issue")).unwrap();
    assert!(x.id().starts_with("test-"));
}

#[test]
fn test_add_with_tags() {
    let mut args = make_args("Tagged issue");
    args.tag = vec!["bug".to_string(), "frontend".to_string()];
    let x = add(&mut IssueMap::new(), &Config::default(), &args).unwrap();
    assert!(x.tags().contains(&"bug".to_string()));
    assert!(x.tags().contains(&"frontend".to_string()));
}

#[test]
fn test_add_with_acceptance_criteria() {
    let mut args = make_args("AC issue");
    args.ac = vec!["Users can log in".to_string(), "Error messages are shown".to_string()];
    let x = add(&mut IssueMap::new(), &Config::default(), &args).unwrap();
    assert_eq!(x.frontmatter.acceptance.len(), 2);
    assert!(x.frontmatter.acceptance.contains(&"Users can log in".to_string()));
}

#[test]
fn test_add_with_body() {
    let mut args = make_args("Body issue");
    args.body = Some("This is the issue body\nwith multiple lines".to_string());
    let x = add(&mut IssueMap::new(), &Config::default(), &args).unwrap();
    assert!(x.body.contains("multiple lines"));
}

#[test]
fn test_add_without_body() {
    let x = add(&mut IssueMap::new(), &Config::default(), &make_args("No body issue")).unwrap();
    assert!(x.body.is_empty());
}

#[test]
fn priority_errors_come_before_dependency_errors() {
    let mut args = make_args("x");
    args.priority = "urgent".to_string();
    args.dep = vec!["missing".to_string()];
    let err = add(&mut IssueMap::new(), &Config::default(), &args).unwrap_err();
    assert!(matches!(err, BrdError::ParseError(_, _)));
}
