use braid::config::{derive_prefix, plan_config_migration, schema_mismatch_error, Config};
use braid::error::BrdError;
use braid::migrate::CURRENT_SCHEMA;

#[test]
fn test_derive_prefix() {
    assert_eq!(derive_prefix("my-repo"), "myre");
    assert_eq!(derive_prefix("A!"), "axxx");
    assert_eq!(derive_prefix("braid"), "brai");
    assert_eq!(derive_prefix("X"), "xxxx");
    assert_eq!(derive_prefix("123abc"), "123a");
}

#[test]
fn test_config_validation() {
    let mut config = Config::default();
    assert!(config.validate(false).is_ok());

    // schema_version at current is ok
    config.schema_version = CURRENT_SCHEMA;
    assert!(config.validate(false).is_ok());

    // schema_version below current is ok (old repo)
    config.schema_version = 1;
    assert!(config.validate(false).is_ok());

    // schema_version above current should fail (repo newer than brd)
    config.schema_version = CURRENT_SCHEMA + 1;
    assert!(config.validate(false).is_err());

    config.schema_version = CURRENT_SCHEMA;
    config.id_len = 3;
    assert!(config.validate(false).is_err());

    config.id_len = 4;
    config.id_prefix = "x".to_string();
    assert!(config.validate(false).is_err());
}

#[test]
fn validation_messages_name_the_problem() {
    let mut config = Config::default();
    config.id_len = 11;
    match config.validate(false) {
        Err(BrdError::ParseError(what, msg)) => {
            assert_eq!(what, "config");
            assert_eq!(msg, "id_len must be between 4 and 10, got 11");
        }
        _ => panic!("expected a parse error"),
    }
    config.id_len = 4;
    config.id_prefix = "abcdefghijklm".to_string();
    match config.validate(false) {
        Err(BrdError::ParseError(_, msg)) => {
            assert_eq!(msg, "id_prefix must be 2-12 chars, got 13 chars")
        }
        _ => panic!("expected a parse error"),
    }
}

#[test]
fn schema_mismatch_guidance_depends_on_worktree() {
    let agent = schema_mismatch_error("this repo", 10, 9, true).to_text();
    assert!(agent.starts_with("this repo uses schema v10, but this brd only supports up to v9"));
    assert!(agent.contains("for agent worktrees"));
    let plain = schema_mismatch_error("this repo", 10, 9, false).to_text();
    assert_eq!(
        plain,
        "this repo uses schema v10, but this brd only supports up to v9\n\nupgrade brd: cargo install braid"
    );
}

#[test]
fn default_config_and_derived_prefix() {
    let c = Config::default();
    assert_eq!(c.id_prefix, "brd");
    assert_eq!(c.id_len, 4);
    assert!(c.auto_pull && c.auto_push);
    assert!(!c.is_issues_branch_mode());
    assert!(!c.is_external_repo_mode());
    let d = Config::with_derived_prefix("Hello-World");
    assert_eq!(d.id_prefix, "hell");
    let mut e = Config::default();
    e.issues_branch = Some("braid-issues".to_string());
    e.issues_repo = Some("../issues".to_string());
    assert!(e.is_issues_branch_mode());
    assert!(e.is_external_repo_mode());
}

#[test]
fn config_migration_plans() {
    let old = plan_config_migration(Some(4), true, false, false);
    assert!(old.rename_sync_branch && old.add_auto_pull && old.add_auto_push && old.migrated);
    let five = plan_config_migration(Some(5), true, true, false);
    assert!(!five.rename_sync_branch && !five.add_auto_pull && five.add_auto_push && five.migrated);
    let current = plan_config_migration(Some(9), true, false, false);
    assert!(!current.migrated && !current.add_auto_pull);
    let missing = plan_config_migration(None, false, true, true);
    assert!(missing.migrated && !missing.add_auto_pull);
}
