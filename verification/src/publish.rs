//! Publishing a change to the issues: stage `.braid`, commit it, and push, retrying a
//! rejected push after a fetch and rebase, at most twice. The push goes to `main` (issues
//! with the code) or to the issues branch. As a machine from the outcome of each step to
//! the next step; the caller runs each step and reports its outcome.

use vstd::prelude::*;
use crate::text::{dec, push_str, push_u64, to_owned_string};

verus! {

/// How many times a rejected push is retried.
pub const MAX_RETRIES: u32 = 2;

#[derive(Debug, Clone, Copy, PartialEq, Eq, Structural)]
pub enum PublishPhase {
    Start,
    Added,
    Committed,
    RemoteChecked,
    Pushing,
    Fetched,
    Rebased,
    Aborted,
    Finished,
}

/// A publication in progress: the branch pushed to (`None` for `main`), the action and
/// issue named in the commit message, and the number of retries made.
#[derive(Debug, Clone)]
pub struct PublishState {
    pub phase: PublishPhase,
    pub branch: Option<String>,
    pub action: String,
    pub issue_id: String,
    pub attempt: u32,
}

#[derive(Debug, Clone)]
pub enum PublishOp {
    /// run git with these arguments; report whether it succeeded
    Git(Vec<String>),
    /// report whether the remote `origin` exists
    HasOrigin,
    Done,
    Fail(String),
}

/// The next step, with a line to show first (unless output is JSON), and whether a
/// failure of the step itself is to be ignored.
#[derive(Debug, Clone)]
pub struct PublishAction {
    pub say: Option<String>,
    pub op: PublishOp,
    pub ignore_errors: bool,
}

pub enum PubOpV {
    Git(Seq<Seq<char>>),
    HasOrigin,
    Done,
    Fail(Seq<char>),
}

pub open spec fn pub_op_view(o: PublishOp) -> PubOpV {
    match o {
        PublishOp::Git(a) => PubOpV::Git(a@.map_values(|s: String| s@)),
        PublishOp::HasOrigin => PubOpV::HasOrigin,
        PublishOp::Done => PubOpV::Done,
        PublishOp::Fail(m) => PubOpV::Fail(m@),
    }
}

pub open spec fn opt_text(o: Option<String>) -> Option<Seq<char>> {
    match o {
        Some(t) => Some(t@),
        None => None,
    }
}

pub type PubStateV = (PublishPhase, Option<Seq<char>>, Seq<char>, Seq<char>, u32);

pub type PubActionV = (Option<Seq<char>>, PubOpV, bool);

pub open spec fn pub_state_view(s: PublishState) -> PubStateV {
    (s.phase, opt_text(s.branch), s.action@, s.issue_id@, s.attempt)
}

pub open spec fn pub_action_view(a: PublishAction) -> PubActionV {
    (opt_text(a.say), pub_op_view(a.op), a.ignore_errors)
}

pub open spec fn to_phase(s: PubStateV, p: PublishPhase) -> PubStateV {
    (p, s.1, s.2, s.3, s.4)
}

/// The remote branch pushed to: `main`, or the issues branch.
pub open spec fn remote_branch(s: PubStateV) -> Seq<char> {
    match s.1 {
        Some(b) => b,
        None => "main"@,
    }
}

pub open spec fn push_args(s: PubStateV) -> Seq<Seq<char>> {
    match s.1 {
        Some(b) => seq!["push"@, "origin"@, b],
        None => seq!["push"@, "origin"@, "HEAD:main"@],
    }
}

pub open spec fn pushing(s: PubStateV, say: Option<Seq<char>>) -> (PubStateV, PubActionV) {
    (to_phase(s, PublishPhase::Pushing), (say, PubOpV::Git(push_args(s)), false))
}

pub open spec fn pub_fail(s: PubStateV, m: Seq<char>) -> (PubStateV, PubActionV) {
    (to_phase(s, PublishPhase::Finished), (None, PubOpV::Fail(m), false))
}

/// The step that follows the outcome `ok` of the last step.
pub open spec fn spec_publish_step(s: PubStateV, ok: bool) -> (PubStateV, PubActionV) {
    let main = s.1 is None;
    match s.0 {
        PublishPhase::Start => (to_phase(s, PublishPhase::Added), (None, PubOpV::Git(seq!["add"@, ".braid"@]), false)),
        PublishPhase::Added => if ok {
            (
                to_phase(s, PublishPhase::Committed),
                (None, PubOpV::Git(seq!["commit"@, "-m"@, "chore(braid): "@ + s.2 + " "@ + s.3]), false),
            )
        } else {
            pub_fail(s, if main { "failed to stage .braid"@ } else { "failed to stage .braid in sync worktree"@ })
        },
        PublishPhase::Committed => {
            let note = if ok {
                None
            } else if main {
                Some("  (no changes to commit)"@)
            } else {
                Some("  (no changes to commit in sync branch)"@)
            };
            if main {
                (to_phase(s, PublishPhase::RemoteChecked), (note, PubOpV::HasOrigin, false))
            } else {
                pushing(s, note)
            }
        },
        PublishPhase::RemoteChecked => if ok {
            pushing(s, None)
        } else {
            (to_phase(s, PublishPhase::Finished), (Some("  (no origin remote, skipping push)"@), PubOpV::Done, false))
        },
        PublishPhase::Pushing => if ok {
            (to_phase(s, PublishPhase::Finished), (None, PubOpV::Done, false))
        } else if s.4 < MAX_RETRIES {
            let say = if main {
                "  push rejected, rebasing and retrying ("@ + dec((s.4 + 1) as nat) + "/2)..."@
            } else {
                "  push rejected, rebasing sync branch ("@ + dec((s.4 + 1) as nat) + "/2)..."@
            };
            (to_phase(s, PublishPhase::Fetched), (Some(say), PubOpV::Git(seq!["fetch"@, "origin"@, remote_branch(s)]), false))
        } else {
            pub_fail(
                s,
                if main {
                    "push failed after 2 retries - another agent may have pushed. run `git pull --rebase origin main` and check if issue is still available"@
                } else {
                    "push to sync branch failed after 2 retries"@
                },
            )
        },
        PublishPhase::Fetched => if ok {
            (to_phase(s, PublishPhase::Rebased), (None, PubOpV::Git(seq!["rebase"@, "origin/"@ + remote_branch(s)]), false))
        } else {
            pub_fail(s, if main { "failed to fetch during retry"@ } else { "failed to fetch sync branch during retry"@ })
        },
        PublishPhase::Rebased => if ok {
            pushing((s.0, s.1, s.2, s.3, (s.4 + 1) as u32), None)
        } else {
            (to_phase(s, PublishPhase::Aborted), (None, PubOpV::Git(seq!["rebase"@, "--abort"@]), true))
        },
        PublishPhase::Aborted => pub_fail(
            s,
            if main {
                "rebase failed during push retry - resolve manually"@
            } else {
                "rebase failed on sync branch - resolve manually"@
            },
        ),
        PublishPhase::Finished => (s, (None, PubOpV::Done, false)),
    }
}

/// A publication that is to begin.
pub fn publish_start(branch: Option<String>, action: &str, issue_id: &str) -> (r: PublishState)
    ensures
        pub_state_view(r) == (PublishPhase::Start, opt_text(branch), action@, issue_id@, 0u32),
        publish_inv(pub_state_view(r)),
{
    PublishState {
        phase: PublishPhase::Start,
        branch,
        action: to_owned_string(action),
        issue_id: to_owned_string(issue_id),
        attempt: 0,
    }
}

fn copy_opt(o: &Option<String>) -> (r: Option<String>)
    ensures
        opt_text(r) == opt_text(*o),
{
    match o {
        Some(t) => Some(to_owned_string(t.as_str())),
        None => None,
    }
}

fn at(s: &PublishState, p: PublishPhase, attempt: u32) -> (r: PublishState)
    ensures
        pub_state_view(r) == (p, opt_text(s.branch), s.action@, s.issue_id@, attempt),
{
    PublishState {
        phase: p,
        branch: copy_opt(&s.branch),
        action: to_owned_string(s.action.as_str()),
        issue_id: to_owned_string(s.issue_id.as_str()),
        attempt,
    }
}

fn text(s: &str) -> (r: String)
    ensures
        r@ == s@,
{
    to_owned_string(s)
}

fn args2(a: String, b: String) -> (r: PublishOp)
    ensures
        pub_op_view(r) == PubOpV::Git(seq![a@, b@]),
{
    let ghost (x, y) = (a@, b@);
    let v: Vec<String> = vec![a, b];
    assert(v@.map_values(|s: String| s@) =~= seq![x, y]);
    PublishOp::Git(v)
}

fn args3(a: String, b: String, c: String) -> (r: PublishOp)
    ensures
        pub_op_view(r) == PubOpV::Git(seq![a@, b@, c@]),
{
    let ghost (x, y, z) = (a@, b@, c@);
    let v: Vec<String> = vec![a, b, c];
    assert(v@.map_values(|s: String| s@) =~= seq![x, y, z]);
    PublishOp::Git(v)
}

fn remote_branch_exec(s: &PublishState) -> (r: String)
    ensures
        r@ == remote_branch(pub_state_view(*s)),
{
    match &s.branch {
        Some(b) => text(b.as_str()),
        None => text("main"),
    }
}

fn push_op(s: &PublishState) -> (r: PublishOp)
    ensures
        pub_op_view(r) == PubOpV::Git(push_args(pub_state_view(*s))),
{
    match &s.branch {
        Some(b) => args3(text("push"), text("origin"), text(b.as_str())),
        None => args3(text("push"), text("origin"), text("HEAD:main")),
    }
}

fn act(say: Option<String>, op: PublishOp, ignore_errors: bool) -> (r: PublishAction)
    ensures
        pub_action_view(r) == (opt_text(say), pub_op_view(op), ignore_errors),
{
    PublishAction { say, op, ignore_errors }
}

fn fail_with(s: &PublishState, main_msg: &str, branch_msg: &str) -> (r: (PublishState, PublishAction))
    ensures
        (pub_state_view(r.0), pub_action_view(r.1)) == pub_fail(
            pub_state_view(*s),
            if s.branch is None { main_msg@ } else { branch_msg@ },
        ),
{
    let m = if s.branch.is_none() { text(main_msg) } else { text(branch_msg) };
    (at(s, PublishPhase::Finished, s.attempt), act(None, PublishOp::Fail(m), false))
}

fn retry_note(s: &PublishState) -> (r: String)
    requires
        s.attempt < MAX_RETRIES,
    ensures
        r@ == (if s.branch is None {
            "  push rejected, rebasing and retrying ("@ + dec((s.attempt + 1) as nat) + "/2)..."@
        } else {
            "  push rejected, rebasing sync branch ("@ + dec((s.attempt + 1) as nat) + "/2)..."@
        }),
{
    let mut t = String::new();
    if s.branch.is_none() {
        push_str(&mut t, "  push rejected, rebasing and retrying (");
    } else {
        push_str(&mut t, "  push rejected, rebasing sync branch (");
    }
    push_u64(&mut t, (s.attempt + 1) as u64);
    push_str(&mut t, "/2)...");
    t
}

/// The step that follows the outcome `ok` of the last step (for the first step, `ok`
/// is not read); see [`spec_publish_step`].
pub fn publish_step(s: &PublishState, ok: bool) -> (r: (PublishState, PublishAction))
    requires
        publish_inv(pub_state_view(*s)),
    ensures
        (pub_state_view(r.0), pub_action_view(r.1)) == spec_publish_step(pub_state_view(*s), ok),
{
    let main = s.branch.is_none();
    match s.phase {
        PublishPhase::Start => (at(s, PublishPhase::Added, s.attempt), act(None, args2(text("add"), text(".braid")), false)),
        PublishPhase::Added => {
            if ok {
                let mut msg = String::new();
                push_str(&mut msg, "chore(braid): ");
                push_str(&mut msg, s.action.as_str());
                push_str(&mut msg, " ");
                push_str(&mut msg, s.issue_id.as_str());
                (at(s, PublishPhase::Committed, s.attempt), act(None, args3(text("commit"), text("-m"), msg), false))
            } else {
                fail_with(s, "failed to stage .braid", "failed to stage .braid in sync worktree")
            }
        },
        PublishPhase::Committed => {
            let note = if ok {
                None
            } else if main {
                Some(text("  (no changes to commit)"))
            } else {
                Some(text("  (no changes to commit in sync branch)"))
            };
            if main {
                (at(s, PublishPhase::RemoteChecked, s.attempt), act(note, PublishOp::HasOrigin, false))
            } else {
                (at(s, PublishPhase::Pushing, s.attempt), act(note, push_op(s), false))
            }
        },
        PublishPhase::RemoteChecked => {
            if ok {
                (at(s, PublishPhase::Pushing, s.attempt), act(None, push_op(s), false))
            } else {
                (
                    at(s, PublishPhase::Finished, s.attempt),
                    act(Some(text("  (no origin remote, skipping push)")), PublishOp::Done, false),
                )
            }
        },
        PublishPhase::Pushing => {
            if ok {
                (at(s, PublishPhase::Finished, s.attempt), act(None, PublishOp::Done, false))
            } else if s.attempt < MAX_RETRIES {
                let note = retry_note(s);
                let rb = remote_branch_exec(s);
                (at(s, PublishPhase::Fetched, s.attempt), act(Some(note), args3(text("fetch"), text("origin"), rb), false))
            } else {
                fail_with(
                    s,
                    "push failed after 2 retries - another agent may have pushed. run `git pull --rebase origin main` and check if issue is still available",
                    "push to sync branch failed after 2 retries",
                )
            }
        },
        PublishPhase::Fetched => {
            if ok {
                let rb = remote_branch_exec(s);
                let mut target = String::new();
                push_str(&mut target, "origin/");
                push_str(&mut target, rb.as_str());
                (at(s, PublishPhase::Rebased, s.attempt), act(None, args2(text("rebase"), target), false))
            } else {
                fail_with(s, "failed to fetch during retry", "failed to fetch sync branch during retry")
            }
        },
        PublishPhase::Rebased => {
            if ok {
                let next = at(s, PublishPhase::Pushing, s.attempt + 1);
                let op = push_op(s);
                (next, act(None, op, false))
            } else {
                (at(s, PublishPhase::Aborted, s.attempt), act(None, args2(text("rebase"), text("--abort")), true))
            }
        },
        PublishPhase::Aborted => fail_with(
            s,
            "rebase failed during push retry - resolve manually",
            "rebase failed on sync branch - resolve manually",
        ),
        PublishPhase::Finished => (at(s, PublishPhase::Finished, s.attempt), act(None, PublishOp::Done, false)),
    }
}

/// What holds of every state of a publication: at most two retries have been made, and
/// one more is under way only while fewer than two were made.
pub open spec fn publish_inv(s: PubStateV) -> bool {
    &&& s.4 <= MAX_RETRIES
    &&& (s.0 == PublishPhase::Fetched || s.0 == PublishPhase::Rebased || s.0 == PublishPhase::Aborted) ==> s.4 < MAX_RETRIES
}

/// How far a publication is from its end: it shrinks with every step until the end.
pub open spec fn publish_measure(s: PubStateV) -> int {
    (MAX_RETRIES - s.4) * 10 + match s.0 {
        PublishPhase::Start => 9int,
        PublishPhase::Added => 8,
        PublishPhase::Committed => 7,
        PublishPhase::RemoteChecked => 6,
        PublishPhase::Pushing => 5,
        PublishPhase::Fetched => 4,
        PublishPhase::Rebased => 3,
        PublishPhase::Aborted => 2,
        PublishPhase::Finished => 0,
    }
}

/// Every step keeps the bound on retries.
pub proof fn lemma_publish_inv_kept(s: PubStateV, ok: bool)
    requires
        publish_inv(s),
    ensures
        publish_inv(spec_publish_step(s, ok).0),
{
}

/// A publication always ends: each step before the end lowers a non-negative measure, so
/// whatever the outcomes, it finishes after a bounded number of steps (the push is tried
/// at most three times).
pub proof fn lemma_publish_terminates(s: PubStateV, ok: bool)
    requires
        publish_inv(s),
        s.0 != PublishPhase::Finished,
    ensures
        publish_measure(spec_publish_step(s, ok).0) < publish_measure(s),
        publish_measure(spec_publish_step(s, ok).0) >= 0,
{
}

/// A publication finishes exactly when its step says it is done or has failed.
pub proof fn lemma_publish_ends_with_outcome(s: PubStateV, ok: bool)
    requires
        s.0 != PublishPhase::Finished,
    ensures
        spec_publish_step(s, ok).0.0 == PublishPhase::Finished <==> (spec_publish_step(s, ok).1.1 is Done
            || spec_publish_step(s, ok).1.1 is Fail),
{
}

} // verus!
