//! Bringing `main` up to date before `brd agent branch` claims an issue (issues kept with
//! the code): fetch `origin/main` when there is an `origin`, switch to `main`, and rebase
//! onto `origin/main` when it exists, aborting a failed rebase. As a machine from the
//! outcome of each step to the next step.

use vstd::prelude::*;
use crate::git::args_view;
use crate::text::to_owned_string;

verus! {

#[derive(Debug, Clone, Copy, PartialEq, Eq, Structural)]
pub enum BranchPhase {
    Start,
    OriginChecked,
    Fetched,
    BranchChecked,
    CheckedOut,
    RemoteChecked,
    Rebased,
    Aborted,
    Finished,
}

#[derive(Debug, Clone)]
pub enum BranchOp {
    /// report whether the remote `origin` exists
    HasOrigin,
    /// report whether the current branch is `main`
    OnMain,
    /// report whether `origin/main` exists
    HasRemoteMain,
    /// run git with these arguments; report whether it succeeded
    Git(Vec<String>),
    Done,
    Fail(String),
}

/// The next step, with a line to show first on standard error (unless output is JSON),
/// and whether a failure of the step itself is to be ignored.
#[derive(Debug, Clone)]
pub struct BranchAction {
    pub say: Option<String>,
    pub op: BranchOp,
    pub ignore_errors: bool,
}

pub enum BranchOpV {
    HasOrigin,
    OnMain,
    HasRemoteMain,
    Git(Seq<Seq<char>>),
    Done,
    Fail(Seq<char>),
}

pub open spec fn branch_op_view(o: BranchOp) -> BranchOpV {
    match o {
        BranchOp::HasOrigin => BranchOpV::HasOrigin,
        BranchOp::OnMain => BranchOpV::OnMain,
        BranchOp::HasRemoteMain => BranchOpV::HasRemoteMain,
        BranchOp::Git(a) => BranchOpV::Git(args_view(a@)),
        BranchOp::Done => BranchOpV::Done,
        BranchOp::Fail(m) => BranchOpV::Fail(m@),
    }
}

pub open spec fn branch_action_view(a: BranchAction) -> (Option<Seq<char>>, BranchOpV, bool) {
    (match a.say {
        Some(t) => Some(t@),
        None => None,
    }, branch_op_view(a.op), a.ignore_errors)
}

/// The message when switching to `main` fails.
pub open spec fn checkout_failed() -> Seq<char> {
    "failed to checkout main"@
}

/// The message when the rebase onto `origin/main` fails.
pub open spec fn rebase_failed() -> Seq<char> {
    "rebase failed - resolve conflicts manually"@
}

/// The step after `phase`, given whether the step just taken succeeded (for a question,
/// its answer): the next phase, the line to show, the operation, and whether its own
/// failure is ignored.
pub open spec fn spec_branch_step(phase: BranchPhase, ok: bool) -> (BranchPhase, Option<Seq<char>>, BranchOpV, bool) {
    match phase {
        BranchPhase::Start => (BranchPhase::OriginChecked, Some("syncing with origin/main..."@), BranchOpV::HasOrigin, false),
        BranchPhase::OriginChecked => if ok {
            (BranchPhase::Fetched, None, BranchOpV::Git(seq!["fetch"@, "origin"@, "main"@]), true)
        } else {
            (BranchPhase::BranchChecked, None, BranchOpV::OnMain, false)
        },
        BranchPhase::Fetched => (BranchPhase::BranchChecked, None, BranchOpV::OnMain, false),
        BranchPhase::BranchChecked => if ok {
            (BranchPhase::RemoteChecked, None, BranchOpV::HasRemoteMain, false)
        } else {
            (BranchPhase::CheckedOut, Some("switching to main..."@), BranchOpV::Git(seq!["checkout"@, "main"@]), false)
        },
        BranchPhase::CheckedOut => if ok {
            (BranchPhase::RemoteChecked, None, BranchOpV::HasRemoteMain, false)
        } else {
            (BranchPhase::Finished, None, BranchOpV::Fail(checkout_failed()), false)
        },
        BranchPhase::RemoteChecked => if ok {
            (BranchPhase::Rebased, None, BranchOpV::Git(seq!["rebase"@, "origin/main"@]), false)
        } else {
            (BranchPhase::Finished, None, BranchOpV::Done, false)
        },
        BranchPhase::Rebased => if ok {
            (BranchPhase::Finished, None, BranchOpV::Done, false)
        } else {
            (BranchPhase::Aborted, None, BranchOpV::Git(seq!["rebase"@, "--abort"@]), true)
        },
        BranchPhase::Aborted => (BranchPhase::Finished, None, BranchOpV::Fail(rebase_failed()), false),
        BranchPhase::Finished => (BranchPhase::Finished, None, BranchOpV::Done, false),
    }
}

fn args2(a: &str, b: &str) -> (r: Vec<String>)
    ensures
        args_view(r@) == seq![a@, b@],
{
    let mut r: Vec<String> = Vec::new();
    r.push(to_owned_string(a));
    r.push(to_owned_string(b));
    assert(args_view(r@) =~= seq![a@, b@]);
    r
}

fn act(say: Option<String>, op: BranchOp, ignore_errors: bool) -> (r: BranchAction)
    ensures
        branch_action_view(r) == (match say {
            Some(t) => Some(t@),
            None => None,
        }, branch_op_view(op), ignore_errors),
{
    BranchAction { say, op, ignore_errors }
}

/// Takes one step of the machine: from the phase and the outcome of the last step to the
/// next phase and action; see [`spec_branch_step`].
pub fn branch_step(phase: BranchPhase, ok: bool) -> (r: (BranchPhase, BranchAction))
    ensures
        r.0 == spec_branch_step(phase, ok).0,
        branch_action_view(r.1).0 == spec_branch_step(phase, ok).1,
        branch_action_view(r.1).1 == spec_branch_step(phase, ok).2,
        branch_action_view(r.1).2 == spec_branch_step(phase, ok).3,
{
    match phase {
        BranchPhase::Start => (BranchPhase::OriginChecked, act(Some(to_owned_string("syncing with origin/main...")), BranchOp::HasOrigin, false)),
        BranchPhase::OriginChecked => if ok {
            let mut a = args2("fetch", "origin");
            let ghost a0 = args_view(a@);
            a.push(to_owned_string("main"));
            assert(args_view(a@) =~= a0.push("main"@));
            assert(args_view(a@) =~= seq!["fetch"@, "origin"@, "main"@]);
            (BranchPhase::Fetched, act(None, BranchOp::Git(a), true))
        } else {
            (BranchPhase::BranchChecked, act(None, BranchOp::OnMain, false))
        },
        BranchPhase::Fetched => (BranchPhase::BranchChecked, act(None, BranchOp::OnMain, false)),
        BranchPhase::BranchChecked => if ok {
            (BranchPhase::RemoteChecked, act(None, BranchOp::HasRemoteMain, false))
        } else {
            (BranchPhase::CheckedOut, act(Some(to_owned_string("switching to main...")), BranchOp::Git(args2("checkout", "main")), false))
        },
        BranchPhase::CheckedOut => if ok {
            (BranchPhase::RemoteChecked, act(None, BranchOp::HasRemoteMain, false))
        } else {
            (BranchPhase::Finished, act(None, BranchOp::Fail(to_owned_string("failed to checkout main")), false))
        },
        BranchPhase::RemoteChecked => if ok {
            (BranchPhase::Rebased, act(None, BranchOp::Git(args2("rebase", "origin/main")), false))
        } else {
            (BranchPhase::Finished, act(None, BranchOp::Done, false))
        },
        BranchPhase::Rebased => if ok {
            (BranchPhase::Finished, act(None, BranchOp::Done, false))
        } else {
            (BranchPhase::Aborted, act(None, BranchOp::Git(args2("rebase", "--abort")), true))
        },
        BranchPhase::Aborted => (BranchPhase::Finished, act(None, BranchOp::Fail(to_owned_string("rebase failed - resolve conflicts manually")), false)),
        BranchPhase::Finished => (BranchPhase::Finished, act(None, BranchOp::Done, false)),
    }
}

/// How many steps at most remain from a phase.
pub open spec fn branch_rank(p: BranchPhase) -> nat {
    match p {
        BranchPhase::Start => 8,
        BranchPhase::OriginChecked => 7,
        BranchPhase::Fetched => 6,
        BranchPhase::BranchChecked => 5,
        BranchPhase::CheckedOut => 4,
        BranchPhase::RemoteChecked => 3,
        BranchPhase::Rebased => 2,
        BranchPhase::Aborted => 1,
        BranchPhase::Finished => 0,
    }
}

/// The machine ends: every step before the end moves to a phase of lower rank, and at
/// the end it stays there, done.
pub proof fn lemma_branch_sync_terminates(p: BranchPhase, ok: bool)
    ensures
        p != BranchPhase::Finished ==> branch_rank(spec_branch_step(p, ok).0) < branch_rank(p),
        p == BranchPhase::Finished ==> spec_branch_step(p, ok).0 == BranchPhase::Finished
            && spec_branch_step(p, ok).2 is Done,
{
}

/// A failed rebase is always aborted before the command fails, so `main` is never left
/// in the middle of a rebase; and the command fails only after switching to `main` or
/// rebasing failed.
pub proof fn lemma_failed_rebase_aborted(p: BranchPhase, ok: bool)
    ensures
        p == BranchPhase::Rebased && !ok ==> spec_branch_step(p, ok).2 == BranchOpV::Git(
            seq!["rebase"@, "--abort"@],
        ) && spec_branch_step(spec_branch_step(p, ok).0, false).2 == BranchOpV::Fail(rebase_failed())
            && spec_branch_step(spec_branch_step(p, ok).0, true).2 == BranchOpV::Fail(rebase_failed()),
        spec_branch_step(p, ok).2 is Fail ==> (p == BranchPhase::CheckedOut && !ok) || p == BranchPhase::Aborted,
{
}

} // verus!
