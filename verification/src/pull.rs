//! Bringing the issues up to date before work starts: fetch and rebase onto `origin/main`
//! (issues with the code, stashing other changes when asked), or onto the issues
//! branch's remote. As a machine from the outcome of each step to the next step.

use vstd::prelude::*;
use crate::text::{contains_seq, lines_of, push_str, to_owned_string};

verus! {

#[derive(Debug, Clone, Copy, PartialEq, Eq, Structural)]
pub enum PullPhase {
    Start,
    OriginChecked,
    CleanChecked,
    OutsideChecked,
    Stashed,
    Fetched,
    FetchFailedRestored,
    BranchChecked,
    Rebased,
    Aborted,
    AbortRestored,
    Restored,
    Finished,
}

/// A pull in progress: the branch pulled (`None` for `main`), whether other changes may
/// be stashed, and whether they were.
#[derive(Debug, Clone)]
pub struct PullState {
    pub phase: PullPhase,
    pub branch: Option<String>,
    pub stash: bool,
    pub stashed: bool,
}

#[derive(Debug, Clone)]
pub enum PullOp {
    /// report whether the remote `origin` exists
    HasOrigin,
    /// report whether the worktree is clean
    CheckClean,
    /// report whether there are changes outside `.braid` (see [`changes_outside_braid`])
    ChangesOutsideBraid,
    /// stash the changes; report whether a stash was made
    StashPush,
    /// restore the stash; report whether it came back
    StashPop,
    /// report whether `origin` has the branch pulled
    HasRemoteBranch,
    /// run git with these arguments; report whether it succeeded
    Git(Vec<String>),
    Done,
    Fail(String),
}

/// The next step, with a line to show first on standard error (unless output is JSON),
/// and whether a failure of the step itself is to be ignored.
#[derive(Debug, Clone)]
pub struct PullAction {
    pub say: Option<String>,
    pub op: PullOp,
    pub ignore_errors: bool,
}

pub enum PullOpV {
    HasOrigin,
    CheckClean,
    ChangesOutsideBraid,
    StashPush,
    StashPop,
    HasRemoteBranch,
    Git(Seq<Seq<char>>),
    Done,
    Fail(Seq<char>),
}

pub open spec fn pull_op_view(o: PullOp) -> PullOpV {
    match o {
        PullOp::HasOrigin => PullOpV::HasOrigin,
        PullOp::CheckClean => PullOpV::CheckClean,
        PullOp::ChangesOutsideBraid => PullOpV::ChangesOutsideBraid,
        PullOp::StashPush => PullOpV::StashPush,
        PullOp::StashPop => PullOpV::StashPop,
        PullOp::HasRemoteBranch => PullOpV::HasRemoteBranch,
        PullOp::Git(a) => PullOpV::Git(a@.map_values(|s: String| s@)),
        PullOp::Done => PullOpV::Done,
        PullOp::Fail(m) => PullOpV::Fail(m@),
    }
}

pub open spec fn say_text(o: Option<String>) -> Option<Seq<char>> {
    match o {
        Some(t) => Some(t@),
        None => None,
    }
}

pub type PullStateV = (PullPhase, Option<Seq<char>>, bool, bool);

pub type PullActionV = (Option<Seq<char>>, PullOpV, bool);

pub open spec fn pull_state_view(s: PullState) -> PullStateV {
    (s.phase, say_text(s.branch), s.stash, s.stashed)
}

pub open spec fn pull_action_view(a: PullAction) -> PullActionV {
    (say_text(a.say), pull_op_view(a.op), a.ignore_errors)
}

/// Whether `git status --porcelain` output shows a change outside `.braid/`.
pub open spec fn spec_outside_braid(status: Seq<char>) -> bool {
    exists|i: int| 0 <= i < lines_of(status).len() && !contains_seq(#[trigger] lines_of(status)[i], ".braid/"@)
}

/// Whether `git status --porcelain` output shows a change outside `.braid/`.
pub fn changes_outside_braid(status: &str) -> (r: bool)
    ensures
        r == spec_outside_braid(status@),
{
    let c = crate::text::chars_of(status);
    let ls = crate::text::lines(&c, 0, c.len());
    proof {
        assert(c@.subrange(0, c.len() as int) =~= c@);
    }
    let pat = crate::text::chars_of(".braid/");
    let mut i: usize = 0;
    while i < ls.len()
        invariant
            i <= ls.len(),
            ls@.map_values(|l: Vec<char>| l@) == lines_of(status@),
            pat@ == ".braid/"@,
            forall|j: int| 0 <= j < i ==> contains_seq(#[trigger] lines_of(status@)[j], ".braid/"@),
        decreases ls.len() - i,
    {
        let found = crate::text::find_chars(&ls[i], &pat, 0);
        assert(lines_of(status@)[i as int] == ls@[i as int]@);
        match found {
            None => {
                proof {
                    crate::text::lemma_find_from(ls@[i as int]@, ".braid/"@, 0);
                }
                return true;
            },
            Some(_) => {
                proof {
                    crate::text::lemma_find_from(ls@[i as int]@, ".braid/"@, 0);
                }
            },
        }
        i += 1;
    }
    false
}

/// The branch a pull is onto: the issues branch it names, else `main`.
pub open spec fn pull_branch(s: PullStateV) -> Seq<char> {
    match s.1 {
        Some(b) => b,
        None => "main"@,
    }
}

pub open spec fn go(s: PullStateV, p: PullPhase, say: Option<Seq<char>>, op: PullOpV, ignore: bool) -> (PullStateV, PullActionV) {
    ((p, s.1, s.2, s.3), (say, op, ignore))
}

pub open spec fn done(s: PullStateV, say: Option<Seq<char>>) -> (PullStateV, PullActionV) {
    go(s, PullPhase::Finished, say, PullOpV::Done, false)
}

pub open spec fn failed(s: PullStateV, m: Seq<char>) -> (PullStateV, PullActionV) {
    go(s, PullPhase::Finished, None, PullOpV::Fail(m), false)
}

pub open spec fn dirty_message() -> Seq<char> {
    "working tree has uncommitted changes outside .braid\n\noptions:\n  - commit or stash manually first\n  - use --stash to auto-stash and restore after sync\n  - use --no-sync to skip sync (trust local state)"@
}

pub open spec fn restore_failed_message() -> Seq<char> {
    "sync succeeded but failed to restore stashed changes\nyour changes are in `git stash` - run `git stash pop` to restore"@
}

pub open spec fn main_rebase_failed() -> Seq<char> {
    "rebase failed - resolve conflicts manually or use --no-sync"@
}

pub open spec fn branch_rebase_failed() -> Seq<char> {
    "rebase failed on issues branch - resolve conflicts manually or use --no-sync"@
}

pub open spec fn fetching(s: PullStateV) -> (PullStateV, PullActionV) {
    go(s, PullPhase::Fetched, None, PullOpV::Git(seq!["fetch"@, "origin"@, pull_branch(s)]), false)
}

/// After the rebase (or with nothing to rebase onto): restore the stash, if one was made.
pub open spec fn restoring(s: PullStateV) -> (PullStateV, PullActionV) {
    if s.3 {
        go(s, PullPhase::Restored, Some("  restoring stashed changes..."@), PullOpV::StashPop, false)
    } else {
        done(s, None)
    }
}

/// The step that follows the outcome `ok` of the last step.
pub open spec fn spec_pull_step(s: PullStateV, ok: bool) -> (PullStateV, PullActionV) {
    let main = s.1 is None;
    let b = pull_branch(s);
    match s.0 {
        PullPhase::Start => go(s, PullPhase::OriginChecked, None, PullOpV::HasOrigin, false),
        PullPhase::OriginChecked => if !ok {
            done(s, Some("(no origin remote, skipping sync)"@))
        } else if main {
            go(s, PullPhase::CleanChecked, Some("syncing with origin/main..."@), PullOpV::CheckClean, false)
        } else {
            go(s, PullPhase::Fetched, Some("syncing with origin/"@ + b + "..."@), PullOpV::Git(seq!["fetch"@, "origin"@, b]), false)
        },
        PullPhase::CleanChecked => if ok {
            fetching(s)
        } else {
            go(s, PullPhase::OutsideChecked, None, PullOpV::ChangesOutsideBraid, false)
        },
        PullPhase::OutsideChecked => if !ok {
            fetching(s)
        } else if s.2 {
            go(s, PullPhase::Stashed, Some("  stashing uncommitted changes..."@), PullOpV::StashPush, false)
        } else {
            failed(s, dirty_message())
        },
        PullPhase::Stashed => fetching((s.0, s.1, s.2, ok)),
        PullPhase::Fetched => if ok {
            go(s, PullPhase::BranchChecked, None, PullOpV::HasRemoteBranch, false)
        } else if s.3 {
            go(s, PullPhase::FetchFailedRestored, Some("  restoring stashed changes..."@), PullOpV::StashPop, true)
        } else {
            done(s, Some("  (origin/"@ + b + " not found, skipping rebase)"@))
        },
        PullPhase::FetchFailedRestored => done(s, Some("  (origin/"@ + b + " not found, skipping rebase)"@)),
        PullPhase::BranchChecked => if ok {
            go(s, PullPhase::Rebased, None, PullOpV::Git(seq!["rebase"@, "origin/"@ + b]), false)
        } else {
            restoring(s)
        },
        PullPhase::Rebased => if ok {
            restoring(s)
        } else {
            go(s, PullPhase::Aborted, None, PullOpV::Git(seq!["rebase"@, "--abort"@]), true)
        },
        PullPhase::Aborted => if s.3 {
            go(s, PullPhase::AbortRestored, Some("  restoring stashed changes..."@), PullOpV::StashPop, true)
        } else {
            failed(s, if main { main_rebase_failed() } else { branch_rebase_failed() })
        },
        PullPhase::AbortRestored => failed(s, if main { main_rebase_failed() } else { branch_rebase_failed() }),
        PullPhase::Restored => if ok {
            done(s, None)
        } else {
            failed(s, restore_failed_message())
        },
        PullPhase::Finished => done(s, None),
    }
}

/// A pull that is to begin.
pub fn pull_start(branch: Option<String>, stash: bool) -> (r: PullState)
    ensures
        pull_state_view(r) == (PullPhase::Start, say_text(branch), stash, false),
{
    PullState { phase: PullPhase::Start, branch, stash, stashed: false }
}

fn text(s: &str) -> (r: String)
    ensures
        r@ == s@,
{
    to_owned_string(s)
}

fn copy_branch(o: &Option<String>) -> (r: Option<String>)
    ensures
        say_text(r) == say_text(*o),
{
    match o {
        Some(t) => Some(text(t.as_str())),
        None => None,
    }
}

fn to(s: &PullState, p: PullPhase, stashed: bool) -> (r: PullState)
    ensures
        pull_state_view(r) == (p, say_text(s.branch), s.stash, stashed),
{
    PullState { phase: p, branch: copy_branch(&s.branch), stash: s.stash, stashed }
}

fn act(say: Option<String>, op: PullOp, ignore_errors: bool) -> (r: PullAction)
    ensures
        pull_action_view(r) == (say_text(say), pull_op_view(op), ignore_errors),
{
    PullAction { say, op, ignore_errors }
}

fn args2(a: String, b: String) -> (r: PullOp)
    ensures
        pull_op_view(r) == PullOpV::Git(seq![a@, b@]),
{
    let ghost (x, y) = (a@, b@);
    let v: Vec<String> = vec![a, b];
    assert(v@.map_values(|s: String| s@) =~= seq![x, y]);
    PullOp::Git(v)
}

fn args3(a: String, b: String, c: String) -> (r: PullOp)
    ensures
        pull_op_view(r) == PullOpV::Git(seq![a@, b@, c@]),
{
    let ghost (x, y, z) = (a@, b@, c@);
    let v: Vec<String> = vec![a, b, c];
    assert(v@.map_values(|s: String| s@) =~= seq![x, y, z]);
    PullOp::Git(v)
}

fn branch_text(s: &PullState) -> (r: String)
    ensures
        r@ == pull_branch(pull_state_view(*s)),
{
    match &s.branch {
        Some(b) => text(b.as_str()),
        None => text("main"),
    }
}

fn wrap(a: &str, b: &str, c: &str) -> (r: String)
    ensures
        r@ == a@ + b@ + c@,
{
    let mut t = String::new();
    push_str(&mut t, a);
    push_str(&mut t, b);
    push_str(&mut t, c);
    t
}

fn fetching_exec(s: &PullState, stashed: bool) -> (r: (PullState, PullAction))
    ensures
        (pull_state_view(r.0), pull_action_view(r.1)) == fetching((s.phase, say_text(s.branch), s.stash, stashed)),
{
    let b = branch_text(s);
    (to(s, PullPhase::Fetched, stashed), act(None, args3(text("fetch"), text("origin"), b), false))
}

fn restoring_exec(s: &PullState) -> (r: (PullState, PullAction))
    ensures
        (pull_state_view(r.0), pull_action_view(r.1)) == restoring(pull_state_view(*s)),
{
    if s.stashed {
        (to(s, PullPhase::Restored, s.stashed), act(Some(text("  restoring stashed changes...")), PullOp::StashPop, false))
    } else {
        (to(s, PullPhase::Finished, s.stashed), act(None, PullOp::Done, false))
    }
}

fn rebase_failure(s: &PullState) -> (r: String)
    ensures
        r@ == (if s.branch is None { main_rebase_failed() } else { branch_rebase_failed() }),
{
    if s.branch.is_none() {
        text("rebase failed - resolve conflicts manually or use --no-sync")
    } else {
        text("rebase failed on issues branch - resolve conflicts manually or use --no-sync")
    }
}

/// The step that follows the outcome `ok` of the last step (for the first step, `ok`
/// is not read); see [`spec_pull_step`].
pub fn pull_step(s: &PullState, ok: bool) -> (r: (PullState, PullAction))
    ensures
        (pull_state_view(r.0), pull_action_view(r.1)) == spec_pull_step(pull_state_view(*s), ok),
{
    let main = s.branch.is_none();
    match s.phase {
        PullPhase::Start => (to(s, PullPhase::OriginChecked, s.stashed), act(None, PullOp::HasOrigin, false)),
        PullPhase::OriginChecked => {
            if !ok {
                (to(s, PullPhase::Finished, s.stashed), act(Some(text("(no origin remote, skipping sync)")), PullOp::Done, false))
            } else if main {
                (to(s, PullPhase::CleanChecked, s.stashed), act(Some(text("syncing with origin/main...")), PullOp::CheckClean, false))
            } else {
                let b = branch_text(s);
                let say = wrap("syncing with origin/", b.as_str(), "...");
                (to(s, PullPhase::Fetched, s.stashed), act(Some(say), args3(text("fetch"), text("origin"), b), false))
            }
        },
        PullPhase::CleanChecked => {
            if ok {
                fetching_exec(s, s.stashed)
            } else {
                (to(s, PullPhase::OutsideChecked, s.stashed), act(None, PullOp::ChangesOutsideBraid, false))
            }
        },
        PullPhase::OutsideChecked => {
            if !ok {
                fetching_exec(s, s.stashed)
            } else if s.stash {
                (to(s, PullPhase::Stashed, s.stashed), act(Some(text("  stashing uncommitted changes...")), PullOp::StashPush, false))
            } else {
                (
                    to(s, PullPhase::Finished, s.stashed),
                    act(None, PullOp::Fail(text("working tree has uncommitted changes outside .braid\n\noptions:\n  - commit or stash manually first\n  - use --stash to auto-stash and restore after sync\n  - use --no-sync to skip sync (trust local state)")), false),
                )
            }
        },
        PullPhase::Stashed => fetching_exec(s, ok),
        PullPhase::Fetched => {
            if ok {
                (to(s, PullPhase::BranchChecked, s.stashed), act(None, PullOp::HasRemoteBranch, false))
            } else if s.stashed {
                (to(s, PullPhase::FetchFailedRestored, s.stashed), act(Some(text("  restoring stashed changes...")), PullOp::StashPop, true))
            } else {
                let b = branch_text(s);
                let say = wrap("  (origin/", b.as_str(), " not found, skipping rebase)");
                (to(s, PullPhase::Finished, s.stashed), act(Some(say), PullOp::Done, false))
            }
        },
        PullPhase::FetchFailedRestored => {
            let b = branch_text(s);
            let say = wrap("  (origin/", b.as_str(), " not found, skipping rebase)");
            (to(s, PullPhase::Finished, s.stashed), act(Some(say), PullOp::Done, false))
        },
        PullPhase::BranchChecked => {
            if ok {
                let b = branch_text(s);
                let mut target = String::new();
                push_str(&mut target, "origin/");
                push_str(&mut target, b.as_str());
                (to(s, PullPhase::Rebased, s.stashed), act(None, args2(text("rebase"), target), false))
            } else {
                restoring_exec(s)
            }
        },
        PullPhase::Rebased => {
            if ok {
                restoring_exec(s)
            } else {
                (to(s, PullPhase::Aborted, s.stashed), act(None, args2(text("rebase"), text("--abort")), true))
            }
        },
        PullPhase::Aborted => {
            if s.stashed {
                (to(s, PullPhase::AbortRestored, s.stashed), act(Some(text("  restoring stashed changes...")), PullOp::StashPop, true))
            } else {
                (to(s, PullPhase::Finished, s.stashed), act(None, PullOp::Fail(rebase_failure(s)), false))
            }
        },
        PullPhase::AbortRestored => (to(s, PullPhase::Finished, s.stashed), act(None, PullOp::Fail(rebase_failure(s)), false)),
        PullPhase::Restored => {
            if ok {
                (to(s, PullPhase::Finished, s.stashed), act(None, PullOp::Done, false))
            } else {
                (
                    to(s, PullPhase::Finished, s.stashed),
                    act(None, PullOp::Fail(text("sync succeeded but failed to restore stashed changes\nyour changes are in `git stash` - run `git stash pop` to restore")), false),
                )
            }
        },
        PullPhase::Finished => (to(s, PullPhase::Finished, s.stashed), act(None, PullOp::Done, false)),
    }
}

/// What holds of every state of a pull: only a pull onto `main` looks at other changes,
/// and stashing happens only when it was allowed and only in a pull onto `main`.
pub open spec fn pull_inv(s: PullStateV) -> bool {
    &&& (s.0 == PullPhase::CleanChecked || s.0 == PullPhase::OutsideChecked || s.0 == PullPhase::Stashed) ==> s.1 is None
    &&& s.0 == PullPhase::Stashed ==> s.2
    &&& s.3 ==> s.2 && s.1 is None
}

/// Every step keeps the invariant.
pub proof fn lemma_pull_inv_kept(s: PullStateV, ok: bool)
    requires
        pull_inv(s),
    ensures
        pull_inv(spec_pull_step(s, ok).0),
{
}

/// A pull never stashes unless asked to with `--stash`, and a pull onto an issues branch
/// never stashes at all.
pub proof fn lemma_pull_stashes_only_when_allowed(s: PullStateV, ok: bool)
    requires
        pull_inv(s),
        !s.2 || s.1 is Some,
    ensures
        !(spec_pull_step(s, ok).1.1 is StashPush),
{
}

/// Once the remote branch is known to exist, the pull rebases onto `origin/<branch>`
/// (`origin/main` for a pull onto `main`), before anything else.
pub proof fn lemma_pull_rebases_when_branch_found(s: PullStateV)
    requires
        s.0 == PullPhase::BranchChecked,
    ensures
        spec_pull_step(s, true).1.1 == PullOpV::Git(
            seq!["rebase"@, "origin/"@ + pull_branch(s)],
        ),
        spec_pull_step(s, true).0.0 == PullPhase::Rebased,
{
}

/// The states and steps of a pull from `s` when the steps have the outcomes `oks`, in
/// order: the `i`th entry is what follows the `i`th outcome.
pub open spec fn pull_run(s: PullStateV, oks: Seq<bool>) -> Seq<(PullStateV, PullActionV)>
    decreases oks.len(),
{
    if oks.len() == 0 {
        Seq::empty()
    } else {
        let n = spec_pull_step(s, oks[0]);
        seq![n] + pull_run(n.0, oks.drop_first())
    }
}

proof fn lemma_pull_run_len(s: PullStateV, oks: Seq<bool>)
    ensures
        pull_run(s, oks).len() == oks.len(),
    decreases oks.len(),
{
    if oks.len() > 0 {
        lemma_pull_run_len(spec_pull_step(s, oks[0]).0, oks.drop_first());
    }
}

/// In every pull, from its start or from any later point, a check that finds the remote
/// branch is followed at once by the rebase onto `origin/<branch>` of the branch the
/// pull was started for (`origin/main` for `main`).
pub proof fn lemma_pull_run_rebases(s: PullStateV, oks: Seq<bool>, k: int)
    requires
        0 <= k,
        k + 1 < oks.len(),
        pull_run(s, oks)[k].1.1 is HasRemoteBranch,
        oks[k + 1],
    ensures
        pull_run(s, oks)[k + 1].1.1 == PullOpV::Git(
            seq!["rebase"@, "origin/"@ + pull_branch(s)],
        ),
    decreases k,
{
    let n = spec_pull_step(s, oks[0]);
    let rest = oks.drop_first();
    let run = pull_run(s, oks);
    lemma_pull_run_len(n.0, rest);
    assert(run == seq![n] + pull_run(n.0, rest));
    assert(n.0.1 == s.1);
    assert(run[k + 1] == pull_run(n.0, rest)[k]);
    assert(rest[k] == oks[k + 1]);
    if k == 0 {
        assert(run[0] == n);
        assert(n.0.0 == PullPhase::BranchChecked);
        lemma_pull_run_len(spec_pull_step(n.0, rest[0]).0, rest.drop_first());
        assert(pull_run(n.0, rest)[0] == spec_pull_step(n.0, rest[0]));
        lemma_pull_rebases_when_branch_found(n.0);
    } else {
        assert(run[k] == pull_run(n.0, rest)[k - 1]);
        assert(rest[k] == oks[k + 1]);
        lemma_pull_run_rebases(n.0, rest, k - 1);
    }
}

/// Whether a step ends the pull.
pub open spec fn pull_final(o: PullOpV) -> bool {
    o is Done || o is Fail
}

/// A pull that has found the remote `origin` and then succeeds has fetched
/// `origin <branch>` before it said it was done: whatever the outcomes of its steps, the
/// first step that ends it is `Done` only after the fetch.
pub proof fn lemma_pull_done_has_fetched(s: PullStateV, oks: Seq<bool>, i: int)
    requires
        s.0 == PullPhase::CleanChecked || s.0 == PullPhase::OutsideChecked || s.0 == PullPhase::Stashed
            || s.0 == PullPhase::OriginChecked && oks.len() > 0 && oks[0],
        0 <= i < oks.len(),
        pull_run(s, oks)[i].1.1 is Done,
        forall|j: int| 0 <= j < i ==> !pull_final(#[trigger] pull_run(s, oks)[j].1.1),
    ensures
        exists|j: int|
            0 <= j < i && #[trigger] pull_run(s, oks)[j].1.1 == PullOpV::Git(seq!["fetch"@, "origin"@, pull_branch(s)]),
    decreases oks.len(),
{
    let n = spec_pull_step(s, oks[0]);
    let rest = oks.drop_first();
    let run = pull_run(s, oks);
    assert(run == seq![n] + pull_run(n.0, rest));
    assert(run[0] == n);
    lemma_pull_run_len(n.0, rest);
    let fetch = PullOpV::Git(seq!["fetch"@, "origin"@, pull_branch(s)]);
    if n.1.1 == fetch {
        assert(i != 0);
        assert(run[0].1.1 == fetch);
    } else {
        assert(!(n.1.1 is Done));
        assert(i != 0);
        assert(!pull_final(run[0].1.1));
        assert(n.0.0 == PullPhase::CleanChecked || n.0.0 == PullPhase::OutsideChecked || n.0.0 == PullPhase::Stashed);
        assert(pull_branch(n.0) == pull_branch(s));
        assert(run[i] == pull_run(n.0, rest)[i - 1]);
        assert forall|j: int| 0 <= j < i - 1 implies !pull_final(#[trigger] pull_run(n.0, rest)[j].1.1) by {
            assert(run[j + 1] == pull_run(n.0, rest)[j]);
        }
        lemma_pull_done_has_fetched(n.0, rest, i - 1);
        let j = choose|j: int| 0 <= j < i - 1 && #[trigger] pull_run(n.0, rest)[j].1.1 == fetch;
        assert(run[j + 1] == pull_run(n.0, rest)[j]);
        assert(run[j + 1].1.1 == fetch);
    }
}

} // verus!
