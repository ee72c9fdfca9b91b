//! `brd sync`: the order of the git steps that bring the issues branch in line with its
//! remote, as a machine from the outcome of each step to the next step. The caller runs
//! each step in the issues worktree and reports its outcome.

use vstd::prelude::*;
use crate::config::Config;
use crate::error::BrdError;
use crate::text::{push_str, to_owned_string};

verus! {

/// Where a sync stands: which step's outcome comes next.
#[derive(Debug, Clone, Copy, PartialEq, Eq, Structural)]
pub enum SyncPhase {
    /// nothing done yet
    Start,
    /// waiting for whether the worktree is clean
    Checked,
    /// waiting for whether the stash took the changes
    Stashed,
    /// waiting for whether the fetch found the remote branch
    Fetched,
    /// waiting for whether the rebase went through
    Rebased,
    /// the failed rebase was aborted
    Aborted,
    /// the stash was restored after the failed rebase
    AbortRestored,
    /// waiting for whether the stash came back
    Restored,
    /// waiting for whether the worktree is clean after the update
    Rechecked,
    /// waiting for whether the changes were staged
    Added,
    /// waiting for whether the commit went through
    Committed,
    /// waiting for whether the push went through
    Pushed,
    /// waiting for whether the push that sets the upstream went through
    PushedUpstream,
    /// the sync is over
    Finished,
}

/// A sync in progress.
#[derive(Debug, Clone)]
pub struct SyncState {
    pub phase: SyncPhase,
    pub branch: String,
    pub has_upstream: bool,
    pub should_push: bool,
    pub stashed: bool,
    pub restored: bool,
}

/// A step for the caller to take.
#[derive(Debug, Clone)]
pub enum SyncOp {
    /// report whether the worktree is clean
    CheckClean,
    /// stash the local changes; report whether a stash was made
    StashPush,
    /// restore the stash; report whether it came back
    StashPop,
    /// run git with these arguments; report whether it succeeded
    Git(Vec<String>),
    /// the sync succeeded
    Done,
    /// the sync failed with this message
    Fail(String),
}

/// The next step: a progress line to show first (unless output is JSON), the step, and
/// whether a failure of the step itself is to be ignored rather than passed on.
#[derive(Debug, Clone)]
pub struct SyncAction {
    pub say: Option<String>,
    pub op: SyncOp,
    pub ignore_errors: bool,
}

pub enum OpV {
    CheckClean,
    StashPush,
    StashPop,
    Git(Seq<Seq<char>>),
    Done,
    Fail(Seq<char>),
}

pub open spec fn op_view(o: SyncOp) -> OpV {
    match o {
        SyncOp::CheckClean => OpV::CheckClean,
        SyncOp::StashPush => OpV::StashPush,
        SyncOp::StashPop => OpV::StashPop,
        SyncOp::Git(a) => OpV::Git(a@.map_values(|s: String| s@)),
        SyncOp::Done => OpV::Done,
        SyncOp::Fail(m) => OpV::Fail(m@),
    }
}

pub open spec fn say_view(s: Option<String>) -> Option<Seq<char>> {
    match s {
        Some(t) => Some(t@),
        None => None,
    }
}

/// The view of a state: phase, branch, whether it has an upstream, whether it pushes,
/// whether a stash was made, whether the stash was restored.
pub open spec fn state_view(s: SyncState) -> (SyncPhase, Seq<char>, bool, bool, bool, bool) {
    (s.phase, s.branch@, s.has_upstream, s.should_push, s.stashed, s.restored)
}

pub open spec fn action_view(a: SyncAction) -> (Option<Seq<char>>, OpV, bool) {
    (say_view(a.say), op_view(a.op), a.ignore_errors)
}

pub type StateV = (SyncPhase, Seq<char>, bool, bool, bool, bool);

pub type ActionV = (Option<Seq<char>>, OpV, bool);

pub open spec fn with_phase(s: StateV, p: SyncPhase) -> StateV {
    (p, s.1, s.2, s.3, s.4, s.5)
}

pub open spec fn step_to(s: StateV, p: SyncPhase, say: Option<Seq<char>>, op: OpV, ignore: bool) -> (StateV, ActionV) {
    (with_phase(s, p), (say, op, ignore))
}

pub open spec fn finish(s: StateV, op: OpV) -> (StateV, ActionV) {
    step_to(s, SyncPhase::Finished, None, op, false)
}

pub open spec fn rebase_failed_message() -> Seq<char> {
    "rebase failed - there may be conflicts. resolve manually in the issues worktree"@
}

pub open spec fn push_failed_message(b: Seq<char>) -> Seq<char> {
    "failed to push to origin/"@ + b + ". you may need to pull and retry."@
}

/// After the worktree is known to be clean or stashed: fetch when there is an upstream,
/// else go on as if the remote branch were missing.
pub open spec fn after_stash(s: StateV) -> (StateV, ActionV) {
    if s.2 {
        step_to(s, SyncPhase::Fetched, Some("  fetching origin/"@ + s.1 + "..."@), OpV::Git(seq!["fetch"@, "origin"@, s.1]), false)
    } else {
        restore_or_check(s)
    }
}

/// After the update: restore the stash when one was made, else check for changes.
pub open spec fn restore_or_check(s: StateV) -> (StateV, ActionV) {
    if s.4 {
        step_to((s.0, s.1, s.2, s.3, s.4, true), SyncPhase::Restored, Some("  restoring local changes..."@), OpV::StashPop, false)
    } else {
        step_to(s, SyncPhase::Rechecked, None, OpV::CheckClean, false)
    }
}

/// After committing (or finding nothing to commit): push when asked to, else succeed.
pub open spec fn push_or_done(s: StateV) -> (StateV, ActionV) {
    if s.3 {
        step_to(s, SyncPhase::Pushed, Some("  pushing to origin/"@ + s.1 + "..."@), OpV::Git(seq!["push"@, "origin"@, s.1]), false)
    } else {
        finish(s, OpV::Done)
    }
}

/// The step that follows the outcome `ok` of the last step.
pub open spec fn spec_sync_step(s: StateV, ok: bool) -> (StateV, ActionV) {
    match s.0 {
        SyncPhase::Start => step_to(
            s,
            SyncPhase::Checked,
            Some(
                if s.3 {
                    "Syncing issues with remote '"@ + s.1 + "'..."@
                } else {
                    "syncing issues locally on '"@ + s.1 + "'..."@
                },
            ),
            OpV::CheckClean,
            false,
        ),
        SyncPhase::Checked => if !ok {
            step_to(s, SyncPhase::Stashed, Some("  stashing local changes..."@), OpV::StashPush, false)
        } else {
            after_stash(s)
        },
        SyncPhase::Stashed => after_stash((s.0, s.1, s.2, s.3, ok, s.5)),
        SyncPhase::Fetched => if ok {
            step_to(s, SyncPhase::Rebased, Some("  rebasing onto origin/"@ + s.1 + "..."@), OpV::Git(seq!["rebase"@, "origin/"@ + s.1]), false)
        } else {
            restore_or_check(s)
        },
        SyncPhase::Rebased => if ok {
            restore_or_check(s)
        } else {
            step_to(s, SyncPhase::Aborted, None, OpV::Git(seq!["rebase"@, "--abort"@]), true)
        },
        SyncPhase::Aborted => if s.4 {
            step_to((s.0, s.1, s.2, s.3, s.4, true), SyncPhase::AbortRestored, None, OpV::StashPop, true)
        } else {
            finish(s, OpV::Fail(rebase_failed_message()))
        },
        SyncPhase::AbortRestored => finish(s, OpV::Fail(rebase_failed_message())),
        SyncPhase::Restored => if ok {
            step_to(s, SyncPhase::Rechecked, None, OpV::CheckClean, false)
        } else {
            finish(s, OpV::Fail("failed to restore local changes from stash"@))
        },
        SyncPhase::Rechecked => if ok {
            push_or_done(s)
        } else {
            step_to(s, SyncPhase::Added, Some("  committing issue changes..."@), OpV::Git(seq!["add"@, ".braid"@]), false)
        },
        SyncPhase::Added => if ok {
            step_to(s, SyncPhase::Committed, None, OpV::Git(seq!["commit"@, "-m"@, "chore(braid): sync issues"@]), false)
        } else {
            finish(s, OpV::Fail("failed to stage changes"@))
        },
        SyncPhase::Committed => if ok {
            push_or_done(s)
        } else {
            finish(s, OpV::Fail("failed to commit changes"@))
        },
        SyncPhase::Pushed => if ok {
            finish(s, OpV::Done)
        } else {
            step_to(s, SyncPhase::PushedUpstream, None, OpV::Git(seq!["push"@, "--set-upstream"@, "origin"@, s.1]), false)
        },
        SyncPhase::PushedUpstream => if ok {
            finish(s, OpV::Done)
        } else {
            finish(s, OpV::Fail(push_failed_message(s.1)))
        },
        SyncPhase::Finished => finish(s, OpV::Done),
    }
}

/// The branch to sync: the configured issues branch; without one the repository is not
/// in sync-branch mode.
pub fn sync_branch(config: &Config) -> (r: Result<String, BrdError>)
    ensures
        match config.issues_branch {
            Some(b) => r matches Ok(x) && x@ == b@,
            None => r matches Err(BrdError::Other(m)) && m@
                == "not in sync branch mode. use `brd init --sync-branch <name>` to enable"@,
        },
{
    match &config.issues_branch {
        Some(b) => Ok(to_owned_string(b.as_str())),
        None => Err(BrdError::Other(to_owned_string(
            "not in sync branch mode. use `brd init --sync-branch <name>` to enable",
        ))),
    }
}

/// A sync of `branch` that is to begin: it pushes when the branch has an upstream or a
/// push is asked for.
pub fn sync_start(branch: String, has_upstream: bool, push: bool) -> (r: SyncState)
    ensures
        state_view(r) == (SyncPhase::Start, branch@, has_upstream, has_upstream || push, false, false),
{
    SyncState { phase: SyncPhase::Start, branch, has_upstream, should_push: has_upstream || push, stashed: false, restored: false }
}

fn text(s: &str) -> (r: String)
    ensures
        r@ == s@,
{
    to_owned_string(s)
}

fn concat3(a: &str, b: &str, c: &str) -> (r: String)
    ensures
        r@ == a@ + b@ + c@,
{
    let mut t = String::new();
    push_str(&mut t, a);
    push_str(&mut t, b);
    push_str(&mut t, c);
    t
}

fn git2(a: &str, b: &str) -> (r: SyncOp)
    ensures
        op_view(r) == OpV::Git(seq![a@, b@]),
{
    let v: Vec<String> = vec![text(a), text(b)];
    assert(v@.map_values(|s: String| s@) =~= seq![a@, b@]);
    SyncOp::Git(v)
}

fn git3(a: &str, b: &str, c: &str) -> (r: SyncOp)
    ensures
        op_view(r) == OpV::Git(seq![a@, b@, c@]),
{
    let v: Vec<String> = vec![text(a), text(b), text(c)];
    assert(v@.map_values(|s: String| s@) =~= seq![a@, b@, c@]);
    SyncOp::Git(v)
}

fn git4(a: &str, b: &str, c: &str, d: &str) -> (r: SyncOp)
    ensures
        op_view(r) == OpV::Git(seq![a@, b@, c@, d@]),
{
    let v: Vec<String> = vec![text(a), text(b), text(c), text(d)];
    assert(v@.map_values(|s: String| s@) =~= seq![a@, b@, c@, d@]);
    SyncOp::Git(v)
}

fn act(say: Option<String>, op: SyncOp, ignore_errors: bool) -> (r: SyncAction)
    ensures
        action_view(r) == (say_view(say), op_view(op), ignore_errors),
{
    SyncAction { say, op, ignore_errors }
}

fn moved(s: &SyncState, p: SyncPhase, stashed: bool, restored: bool) -> (r: SyncState)
    ensures
        state_view(r) == (p, s.branch@, s.has_upstream, s.should_push, stashed, restored),
{
    SyncState {
        phase: p,
        branch: to_owned_string(s.branch.as_str()),
        has_upstream: s.has_upstream,
        should_push: s.should_push,
        stashed,
        restored,
    }
}

fn after_stash_exec(s: &SyncState, stashed: bool) -> (r: (SyncState, SyncAction))
    ensures
        (state_view(r.0), action_view(r.1)) == after_stash(
            (s.phase, s.branch@, s.has_upstream, s.should_push, stashed, s.restored),
        ),
{
    if s.has_upstream {
        let b = s.branch.as_str();
        let say = Some(concat3("  fetching origin/", b, "..."));
        let op = git3("fetch", "origin", b);
        proof {
            reveal_strlit("  fetching origin/");
            reveal_strlit("...");
        }
        let r = (moved(s, SyncPhase::Fetched, stashed, s.restored), act(say, op, false));
        proof {
            assert(say_view(r.1.say) =~= Some("  fetching origin/"@ + s.branch@ + "..."@));
        }
        r
    } else {
        restore_or_check_exec(s, stashed)
    }
}

fn restore_or_check_exec(s: &SyncState, stashed: bool) -> (r: (SyncState, SyncAction))
    ensures
        (state_view(r.0), action_view(r.1)) == restore_or_check(
            (s.phase, s.branch@, s.has_upstream, s.should_push, stashed, s.restored),
        ),
{
    if stashed {
        (moved(s, SyncPhase::Restored, stashed, true), act(Some(text("  restoring local changes...")), SyncOp::StashPop, false))
    } else {
        (moved(s, SyncPhase::Rechecked, stashed, s.restored), act(None, SyncOp::CheckClean, false))
    }
}

fn push_or_done_exec(s: &SyncState) -> (r: (SyncState, SyncAction))
    ensures
        (state_view(r.0), action_view(r.1)) == push_or_done(state_view(*s)),
{
    if s.should_push {
        let b = s.branch.as_str();
        let say = Some(concat3("  pushing to origin/", b, "..."));
        let op = git3("push", "origin", b);
        let r = (moved(s, SyncPhase::Pushed, s.stashed, s.restored), act(say, op, false));
        proof {
            assert(say_view(r.1.say) =~= Some("  pushing to origin/"@ + s.branch@ + "..."@));
        }
        r
    } else {
        (moved(s, SyncPhase::Finished, s.stashed, s.restored), act(None, SyncOp::Done, false))
    }
}

fn fail(s: &SyncState, msg: String) -> (r: (SyncState, SyncAction))
    ensures
        (state_view(r.0), action_view(r.1)) == finish(state_view(*s), OpV::Fail(msg@)),
{
    (moved(s, SyncPhase::Finished, s.stashed, s.restored), act(None, SyncOp::Fail(msg), false))
}

/// The step that follows the outcome `ok` of the last step (for the first step, `ok`
/// is not read); see [`spec_sync_step`].
pub fn sync_step(s: &SyncState, ok: bool) -> (r: (SyncState, SyncAction))
    ensures
        (state_view(r.0), action_view(r.1)) == spec_sync_step(state_view(*s), ok),
{
    let b = s.branch.as_str();
    match s.phase {
        SyncPhase::Start => {
            let t = if s.should_push {
                concat3("Syncing issues with remote '", b, "'...")
            } else {
                concat3("syncing issues locally on '", b, "'...")
            };
            assert(t@ =~= (if s.should_push {
                "Syncing issues with remote '"@ + s.branch@ + "'..."@
            } else {
                "syncing issues locally on '"@ + s.branch@ + "'..."@
            }));
            (moved(s, SyncPhase::Checked, s.stashed, s.restored), act(Some(t), SyncOp::CheckClean, false))
        },
        SyncPhase::Checked => {
            if !ok {
                (moved(s, SyncPhase::Stashed, s.stashed, s.restored), act(Some(text("  stashing local changes...")), SyncOp::StashPush, false))
            } else {
                after_stash_exec(s, s.stashed)
            }
        },
        SyncPhase::Stashed => after_stash_exec(s, ok),
        SyncPhase::Fetched => {
            if ok {
                let say = Some(concat3("  rebasing onto origin/", b, "..."));
                let mut target = String::new();
                push_str(&mut target, "origin/");
                push_str(&mut target, b);
                let op = git2("rebase", target.as_str());
                let r = (moved(s, SyncPhase::Rebased, s.stashed, s.restored), act(say, op, false));
                proof {
                    assert(say_view(r.1.say) =~= Some("  rebasing onto origin/"@ + s.branch@ + "..."@));
                }
                r
            } else {
                restore_or_check_exec(s, s.stashed)
            }
        },
        SyncPhase::Rebased => {
            if ok {
                restore_or_check_exec(s, s.stashed)
            } else {
                let r = (moved(s, SyncPhase::Aborted, s.stashed, s.restored), act(None, git2("rebase", "--abort"), true));
                r
            }
        },
        SyncPhase::Aborted => {
            if s.stashed {
                (moved(s, SyncPhase::AbortRestored, s.stashed, true), act(None, SyncOp::StashPop, true))
            } else {
                fail(s, text("rebase failed - there may be conflicts. resolve manually in the issues worktree"))
            }
        },
        SyncPhase::AbortRestored => fail(
            s,
            text("rebase failed - there may be conflicts. resolve manually in the issues worktree"),
        ),
        SyncPhase::Restored => {
            if ok {
                (moved(s, SyncPhase::Rechecked, s.stashed, s.restored), act(None, SyncOp::CheckClean, false))
            } else {
                fail(s, text("failed to restore local changes from stash"))
            }
        },
        SyncPhase::Rechecked => {
            if ok {
                push_or_done_exec(s)
            } else {
                let r = (moved(s, SyncPhase::Added, s.stashed, s.restored), act(Some(text("  committing issue changes...")), git2("add", ".braid"), false));
                r
            }
        },
        SyncPhase::Added => {
            if ok {
                let r = (moved(s, SyncPhase::Committed, s.stashed, s.restored), act(None, git3("commit", "-m", "chore(braid): sync issues"), false));
                r
            } else {
                fail(s, text("failed to stage changes"))
            }
        },
        SyncPhase::Committed => {
            if ok {
                push_or_done_exec(s)
            } else {
                fail(s, text("failed to commit changes"))
            }
        },
        SyncPhase::Pushed => {
            if ok {
                (moved(s, SyncPhase::Finished, s.stashed, s.restored), act(None, SyncOp::Done, false))
            } else {
                let r = (moved(s, SyncPhase::PushedUpstream, s.stashed, s.restored), act(None, git4("push", "--set-upstream", "origin", b), false));
                r
            }
        },
        SyncPhase::PushedUpstream => {
            if ok {
                (moved(s, SyncPhase::Finished, s.stashed, s.restored), act(None, SyncOp::Done, false))
            } else {
                let m = Some(concat3("failed to push to origin/", b, ". you may need to pull and retry."));
                match m {
                    Some(t) => {
                        let r = fail(s, t);
                        r
                    },
                    None => fail(s, text("")),
                }
            }
        },
        SyncPhase::Finished => (moved(s, SyncPhase::Finished, s.stashed, s.restored), act(None, SyncOp::Done, false)),
    }
}


/// What holds of every state a sync passes through: a stash not yet restored is only
/// pending while fetching, rebasing or aborting a rebase; a sync that starts has
/// stashed nothing; a push is under way only in a sync that pushes.
pub open spec fn sync_inv(s: StateV) -> bool {
    &&& s.0 == SyncPhase::Start ==> !s.4 && !s.5
    &&& s.4 && !s.5 ==> (s.0 == SyncPhase::Fetched || s.0 == SyncPhase::Rebased || s.0 == SyncPhase::Aborted)
    &&& (s.0 == SyncPhase::Pushed || s.0 == SyncPhase::PushedUpstream) ==> s.3
}

pub open spec fn is_final(o: OpV) -> bool {
    o is Done || o is Fail
}

/// Every step keeps the invariant.
pub proof fn lemma_sync_inv_kept(s: StateV, ok: bool)
    requires
        sync_inv(s),
    ensures
        sync_inv(spec_sync_step(s, ok).0),
{
}

/// A sync never ends with local changes left in the stash unrestored: when a step ends
/// the sync (success or failure) after a stash was made, the stash has been popped.
pub proof fn lemma_sync_ends_restored(s: StateV, ok: bool)
    requires
        sync_inv(s),
    ensures
        is_final(spec_sync_step(s, ok).1.1) && spec_sync_step(s, ok).0.4 ==> spec_sync_step(s, ok).0.5,
{
}

/// The sync pushes only when it was asked to or the branch has an upstream.
pub proof fn lemma_sync_pushes_only_when_asked(s: StateV, ok: bool)
    requires
        sync_inv(s),
    ensures
        (spec_sync_step(s, ok).1.1 matches OpV::Git(a) && a.len() > 0 && a[0] == "push"@) ==> s.3,
{
    reveal_strlit("push");
    reveal_strlit("fetch");
    reveal_strlit("rebase");
    reveal_strlit("add");
    reveal_strlit("commit");
    assert("push"@ != "fetch"@ && "push"@ != "rebase"@ && "push"@ != "add"@ && "push"@ != "commit"@) by {
        assert("push"@[1] == 'u');
        assert("fetch"@[1] == 'e');
        assert("rebase"@[1] == 'e');
        assert("add"@[1] == 'd');
        assert("commit"@[1] == 'o');
    }
}

/// A sync that starts from `sync_start` satisfies the invariant.
pub proof fn lemma_sync_start_inv(b: Seq<char>, has_upstream: bool, push: bool)
    ensures
        sync_inv((SyncPhase::Start, b, has_upstream, has_upstream || push, false, false)),
{
}


/// How far a sync is from its end.
pub open spec fn sync_measure(p: SyncPhase) -> int {
    match p {
        SyncPhase::Start => 13,
        SyncPhase::Checked => 12,
        SyncPhase::Stashed => 11,
        SyncPhase::Fetched => 10,
        SyncPhase::Rebased => 9,
        SyncPhase::Aborted => 8,
        SyncPhase::AbortRestored => 7,
        SyncPhase::Restored => 6,
        SyncPhase::Rechecked => 5,
        SyncPhase::Added => 4,
        SyncPhase::Committed => 3,
        SyncPhase::Pushed => 2,
        SyncPhase::PushedUpstream => 1,
        SyncPhase::Finished => 0,
    }
}

/// A sync always ends: every step before the end moves strictly closer to it, whatever
/// the outcome, and a step that ends it says it is done or has failed.
pub proof fn lemma_sync_terminates(s: StateV, ok: bool)
    requires
        s.0 != SyncPhase::Finished,
    ensures
        sync_measure(spec_sync_step(s, ok).0.0) < sync_measure(s.0),
        spec_sync_step(s, ok).0.0 == SyncPhase::Finished <==> is_final(spec_sync_step(s, ok).1.1),
{
}

/// A sync of a branch with an upstream fetches `origin <branch>` as soon as the worktree
/// is known to be clean, or once its changes have been stashed, whether or not a stash
/// was made.
pub proof fn lemma_sync_fetches_when_upstream(s: StateV, ok: bool)
    requires
        s.2,
        s.0 == SyncPhase::Checked && ok || s.0 == SyncPhase::Stashed,
    ensures
        spec_sync_step(s, ok).1.1 == OpV::Git(seq!["fetch"@, "origin"@, s.1]),
        spec_sync_step(s, ok).0.0 == SyncPhase::Fetched,
        spec_sync_step(s, ok).0.1 == s.1,
{
}

/// Once the fetch has found the remote branch, the sync rebases onto `origin/<branch>`.
pub proof fn lemma_sync_rebases_after_fetch(s: StateV)
    requires
        s.0 == SyncPhase::Fetched,
    ensures
        spec_sync_step(s, true).1.1 == OpV::Git(seq!["rebase"@, "origin/"@ + s.1]),
        spec_sync_step(s, true).0.0 == SyncPhase::Rebased,
{
}

/// The states and steps of a sync from `s` when the steps have the outcomes `oks`, in
/// order: the `i`th entry is what follows the `i`th outcome.
pub open spec fn sync_run(s: StateV, oks: Seq<bool>) -> Seq<(StateV, ActionV)>
    decreases oks.len(),
{
    if oks.len() == 0 {
        Seq::empty()
    } else {
        let n = spec_sync_step(s, oks[0]);
        seq![n] + sync_run(n.0, oks.drop_first())
    }
}

proof fn lemma_sync_run_len(s: StateV, oks: Seq<bool>)
    ensures
        sync_run(s, oks).len() == oks.len(),
    decreases oks.len(),
{
    if oks.len() > 0 {
        lemma_sync_run_len(spec_sync_step(s, oks[0]).0, oks.drop_first());
    }
}

/// A sync of a branch with an upstream that succeeds has fetched `origin <branch>`
/// before it said it was done, whatever the outcomes of its steps: from its start, or
/// from any point before the fetch.
pub proof fn lemma_sync_done_has_fetched(s: StateV, oks: Seq<bool>, i: int)
    requires
        s.2,
        s.0 == SyncPhase::Start || s.0 == SyncPhase::Checked || s.0 == SyncPhase::Stashed,
        0 <= i < oks.len(),
        sync_run(s, oks)[i].1.1 is Done,
    ensures
        exists|j: int| 0 <= j < i && #[trigger] sync_run(s, oks)[j].1.1 == OpV::Git(seq!["fetch"@, "origin"@, s.1]),
    decreases oks.len(),
{
    let n = spec_sync_step(s, oks[0]);
    let rest = oks.drop_first();
    let run = sync_run(s, oks);
    assert(run == seq![n] + sync_run(n.0, rest));
    assert(run[0] == n);
    let fetch = OpV::Git(seq!["fetch"@, "origin"@, s.1]);
    lemma_sync_run_len(n.0, rest);
    if n.1.1 == fetch {
        assert(i != 0);
        assert(run[0].1.1 == fetch);
    } else {
        assert(n.0.0 == SyncPhase::Checked || n.0.0 == SyncPhase::Stashed);
        assert(n.0.1 == s.1 && n.0.2);
        assert(i != 0);
        assert(run[i] == sync_run(n.0, rest)[i - 1]);
        lemma_sync_done_has_fetched(n.0, rest, i - 1);
        let j = choose|j: int| 0 <= j < i - 1 && #[trigger] sync_run(n.0, rest)[j].1.1 == fetch;
        assert(run[j + 1] == sync_run(n.0, rest)[j]);
        assert(run[j + 1].1.1 == fetch);
    }
}

/// A sync that is to push (its branch has an upstream, or a push was asked for) and that
/// succeeds has pushed `origin <branch>` before it said it was done: whatever the
/// outcomes of its steps, the first step that ends it is `Done` only after the push.
pub proof fn lemma_sync_done_has_pushed(s: StateV, oks: Seq<bool>, i: int)
    requires
        s.3,
        s.0 != SyncPhase::Pushed && s.0 != SyncPhase::PushedUpstream && s.0 != SyncPhase::Finished,
        0 <= i < oks.len(),
        sync_run(s, oks)[i].1.1 is Done,
        forall|j: int| 0 <= j < i ==> !is_final(#[trigger] sync_run(s, oks)[j].1.1),
    ensures
        exists|j: int| 0 <= j < i && #[trigger] sync_run(s, oks)[j].1.1 == OpV::Git(seq!["push"@, "origin"@, s.1]),
    decreases oks.len(),
{
    let n = spec_sync_step(s, oks[0]);
    let rest = oks.drop_first();
    let run = sync_run(s, oks);
    assert(run == seq![n] + sync_run(n.0, rest));
    assert(run[0] == n);
    lemma_sync_run_len(n.0, rest);
    lemma_sync_terminates(s, oks[0]);
    let push = OpV::Git(seq!["push"@, "origin"@, s.1]);
    if n.1.1 == push {
        assert(i != 0);
        assert(run[0].1.1 == push);
    } else {
        assert(!(n.1.1 is Done));
        assert(i != 0);
        assert(!is_final(run[0].1.1));
        assert(n.0.0 != SyncPhase::Pushed && n.0.0 != SyncPhase::PushedUpstream && n.0.0 != SyncPhase::Finished);
        assert(n.0.1 == s.1 && n.0.3);
        assert(run[i] == sync_run(n.0, rest)[i - 1]);
        assert forall|j: int| 0 <= j < i - 1 implies !is_final(#[trigger] sync_run(n.0, rest)[j].1.1) by {
            assert(run[j + 1] == sync_run(n.0, rest)[j]);
        }
        lemma_sync_done_has_pushed(n.0, rest, i - 1);
        let j = choose|j: int| 0 <= j < i - 1 && #[trigger] sync_run(n.0, rest)[j].1.1 == push;
        assert(run[j + 1] == sync_run(n.0, rest)[j]);
        assert(run[j + 1].1.1 == push);
    }
}

} // verus!
