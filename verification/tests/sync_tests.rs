use braid::config::Config;
use braid::sync::{sync_branch, sync_start, sync_step, SyncOp};

/// Runs the machine, answering each step from `outcomes` in order; returns the steps
/// taken (as text) and the final result.
fn run(has_upstream: bool, push: bool, outcomes: &[bool]) -> (Vec<String>, Result<(), String>) {
    let mut s = sync_start("issues".to_string(), has_upstream, push);
    let mut steps = Vec::new();
    let mut ok = true;
    let mut answers = outcomes.iter();
    loop {
        let (next, action) = sync_step(&s, ok);
        s = next;
        match action.op {
            SyncOp::Done => return (steps, Ok(())),
            SyncOp::Fail(m) => return (steps, Err(m)),
            SyncOp::CheckClean => steps.push("clean?".to_string()),
            SyncOp::StashPush => steps.push("stash".to_string()),
            SyncOp::StashPop => steps.push("pop".to_string()),
            SyncOp::Git(args) => steps.push(args.join(" ")),
        }
        ok = *answers.next().expect("ran out of outcomes");
    }
}

#[test]
fn sync_requires_an_issues_branch() {
    let err = sync_branch(&Config::default()).unwrap_err();
    assert_eq!(err.to_text(), "not in sync branch mode. use `brd init --sync-branch <name>` to enable");
    let c = Config { issues_branch: Some("braid-issues".to_string()), ..Default::default() };
    assert_eq!(sync_branch(&c).unwrap(), "braid-issues");
}

#[test]
fn clean_local_sync_does_nothing_else() {
    let (steps, r) = run(false, false, &[true, true]);
    assert_eq!(steps, vec!["clean?", "clean?"]);
    assert!(r.is_ok());
}

#[test]
fn dirty_sync_with_upstream_stashes_rebases_restores_commits_and_pushes() {
    let (steps, r) = run(true, false, &[false, true, true, true, true, false, true, true, true]);
    assert_eq!(
        steps,
        vec![
            "clean?",
            "stash",
            "fetch origin issues",
            "rebase origin/issues",
            "pop",
            "clean?",
            "add .braid",
            "commit -m chore(braid): sync issues",
            "push origin issues",
        ]
    );
    assert!(r.is_ok());
}

#[test]
fn failed_rebase_is_aborted_and_the_stash_restored() {
    let (steps, r) = run(true, false, &[false, true, true, false, true, true]);
    assert_eq!(steps, vec!["clean?", "stash", "fetch origin issues", "rebase origin/issues", "rebase --abort", "pop"]);
    assert_eq!(r.unwrap_err(), "rebase failed - there may be conflicts. resolve manually in the issues worktree");
}

#[test]
fn first_push_sets_the_upstream() {
    let (steps, r) = run(false, true, &[true, true, false, true]);
    assert_eq!(steps, vec!["clean?", "clean?", "push origin issues", "push --set-upstream origin issues"]);
    assert!(r.is_ok());
    let (_, r) = run(false, true, &[true, true, false, false]);
    assert_eq!(r.unwrap_err(), "failed to push to origin/issues. you may need to pull and retry.");
}

#[test]
fn failed_restore_and_commit_are_errors() {
    let (_, r) = run(false, false, &[false, true, false]);
    assert_eq!(r.unwrap_err(), "failed to restore local changes from stash");
    let (_, r) = run(false, false, &[true, false, true, false]);
    assert_eq!(r.unwrap_err(), "failed to commit changes");
    let (_, r) = run(false, false, &[true, false, false]);
    assert_eq!(r.unwrap_err(), "failed to stage changes");
}

#[test]
fn progress_lines() {
    let s = sync_start("b".to_string(), true, false);
    let (_, a) = sync_step(&s, true);
    assert_eq!(a.say.unwrap(), "Syncing issues with remote 'b'...");
    let s = sync_start("b".to_string(), false, false);
    let (_, a) = sync_step(&s, true);
    assert_eq!(a.say.unwrap(), "syncing issues locally on 'b'...");
}
