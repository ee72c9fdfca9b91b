use braid::error::{BrdError, ExitCode};

#[test]
fn test_exit_code_values() {
    assert_eq!(i32::from(ExitCode::Success), 0);
    assert_eq!(i32::from(ExitCode::UsageError), 2);
    assert_eq!(i32::from(ExitCode::NotGitRepo), 10);
    assert_eq!(i32::from(ExitCode::ParseError), 16);
}

#[test]
fn test_brd_error_exit_code_mapping() {
    assert_eq!(BrdError::NotGitRepo.exit_code(), ExitCode::NotGitRepo);
    assert_eq!(
        BrdError::ControlRootInvalid("bad".into()).exit_code(),
        ExitCode::ControlRootInvalid
    );
    assert_eq!(
        BrdError::IssueNotFound("brd-1234".into()).exit_code(),
        ExitCode::IssueNotFound
    );
    assert_eq!(
        BrdError::AmbiguousId("brd-".into(), vec!["brd-a".into()]).exit_code(),
        ExitCode::AmbiguousId
    );
    assert_eq!(
        BrdError::ClaimConflict("brd-a".into(), "agent".into()).exit_code(),
        ExitCode::ClaimConflict
    );
    assert_eq!(BrdError::InvalidGraph.exit_code(), ExitCode::InvalidGraph);
    assert_eq!(
        BrdError::ParseError("issue".into(), "bad".into()).exit_code(),
        ExitCode::ParseError
    );
    assert_eq!(
        BrdError::Io(std::io::Error::other("io")).exit_code(),
        ExitCode::GenericFailure
    );
    assert_eq!(
        BrdError::Other("oops".into()).exit_code(),
        ExitCode::GenericFailure
    );
}

#[test]
fn test_brd_error_code_str_mapping() {
    assert_eq!(BrdError::NotGitRepo.code_str(), "not_git_repo");
    assert_eq!(
        BrdError::ControlRootInvalid("bad".into()).code_str(),
        "control_root_invalid"
    );
    assert_eq!(
        BrdError::IssueNotFound("brd-1234".into()).code_str(),
        "issue_not_found"
    );
    assert_eq!(
        BrdError::AmbiguousId("brd-".into(), vec!["brd-a".into()]).code_str(),
        "ambiguous_id"
    );
    assert_eq!(
        BrdError::ClaimConflict("brd-a".into(), "agent".into()).code_str(),
        "claim_conflict"
    );
    assert_eq!(BrdError::InvalidGraph.code_str(), "invalid_graph");
    assert_eq!(
        BrdError::ParseError("issue".into(), "bad".into()).code_str(),
        "parse_error"
    );
    assert_eq!(
        BrdError::Io(std::io::Error::other("io")).code_str(),
        "io_error"
    );
    assert_eq!(BrdError::Other("oops".into()).code_str(), "error");
}

#[test]
fn error_messages_read_as_shown() {
    assert_eq!(BrdError::NotGitRepo.to_text(), "not a git repository");
    assert_eq!(
        BrdError::IssueNotFound("brd-1".into()).to_text(),
        "issue not found: brd-1"
    );
    assert_eq!(
        BrdError::AmbiguousId("ab".into(), vec!["x-ab1".into(), "x-ab2".into()]).to_text(),
        "ambiguous issue id 'ab': matches [\"x-ab1\", \"x-ab2\"]"
    );
    assert_eq!(
        BrdError::ClaimConflict("brd-a".into(), "bob".into()).to_text(),
        "claim conflict: issue 'brd-a' is claimed by 'bob'"
    );
    assert_eq!(BrdError::InvalidGraph.to_text(), "invalid graph: cycle detected");
    assert_eq!(
        BrdError::ParseError("config".into(), "bad".into()).to_text(),
        "parse error in config: bad"
    );
    assert!(BrdError::Io(std::io::Error::other("disk")).to_text().starts_with("io error: "));
    assert_eq!(BrdError::Other("plain".into()).to_text(), "plain");
    assert_eq!(
        BrdError::NotInitialized.to_text(),
        "braid not initialized\n\nrun `brd init` to set up issue tracking"
    );
}

#[test]
fn every_exit_code_has_its_number() {
    assert_eq!(ExitCode::GenericFailure.code(), 1);
    assert_eq!(ExitCode::ControlRootInvalid.code(), 11);
    assert_eq!(ExitCode::IssueNotFound.code(), 12);
    assert_eq!(ExitCode::AmbiguousId.code(), 13);
    assert_eq!(ExitCode::ClaimConflict.code(), 14);
    assert_eq!(ExitCode::InvalidGraph.code(), 15);
    assert_eq!(ExitCode::NotInitialized.code(), 17);
}
