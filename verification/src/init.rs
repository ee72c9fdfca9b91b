//! The workflow `brd init` sets up: from its flags, or from the answers to its two
//! questions.

use vstd::prelude::*;

use crate::text::{str_eq, to_owned_string};

verus! {

/// The branch that holds issues unless told otherwise.
pub const DEFAULT_ISSUES_BRANCH: &'static str = "braid-issues";

/// How a repository syncs its issues.
#[derive(Debug, Clone)]
pub struct WorkflowConfig {
    pub issues_branch: Option<String>,
    pub auto_pull: bool,
    pub auto_push: bool,
}

/// The workflow fixed by the flags, if they fix one: an explicit issues branch, or the
/// defaults (issues branch `braid-issues`, auto-sync on) when no question can be asked.
/// `None` means the questions are to be asked.
pub fn workflow_from_flags(issues_branch: Option<String>, can_ask: bool) -> (r: Option<WorkflowConfig>)
    ensures
        issues_branch matches Some(b) ==> (r matches Some(w) && w.issues_branch == Some(b)
            && w.auto_pull && w.auto_push),
        issues_branch is None && !can_ask ==> (r matches Some(w) && w.issues_branch matches Some(
            b,
        ) && b@ == DEFAULT_ISSUES_BRANCH@ && w.auto_pull && w.auto_push),
        issues_branch is None && can_ask ==> r is None,
{
    match issues_branch {
        Some(b) => Some(WorkflowConfig { issues_branch: Some(b), auto_pull: true, auto_push: true }),
        None => {
            if !can_ask {
                Some(
                    WorkflowConfig {
                        issues_branch: Some(to_owned_string(DEFAULT_ISSUES_BRANCH)),
                        auto_pull: true,
                        auto_push: true,
                    },
                )
            } else {
                None
            }
        },
    }
}

/// An answer that declines: `n` or `no`.
pub open spec fn declines(a: Seq<char>) -> bool {
    a == "n"@ || a == "no"@
}

/// An answer that accepts: empty, `y` or `yes`.
pub open spec fn accepts(a: Seq<char>) -> bool {
    a.len() == 0 || a == "y"@ || a == "yes"@
}

/// Reads a yes/no answer (trimmed and lower-cased): `(yes, understood)`. An answer that
/// is neither yes nor no counts as yes and is reported as not understood.
pub fn read_answer(answer: &str) -> (r: (bool, bool))
    ensures
        declines(answer@) ==> r == (false, true),
        !declines(answer@) && accepts(answer@) ==> r == (true, true),
        !declines(answer@) && !accepts(answer@) ==> r == (true, false),
{
    if str_eq(answer, "n") || str_eq(answer, "no") {
        (false, true)
    } else if str_eq(answer, "") || str_eq(answer, "y") || str_eq(answer, "yes") {
        proof {
            reveal_strlit("");
        }
        (true, true)
    } else {
        proof {
            reveal_strlit("");
            if answer@.len() == 0 {
                assert(answer@ =~= ""@);
            }
        }
        (true, false)
    }
}

/// The workflow from the answers to the two questions: a separate issues branch unless
/// the first is declined, and auto-sync unless the second is.
pub fn workflow_from_answers(q1: &str, q2: &str) -> (r: WorkflowConfig)
    ensures
        declines(q1@) ==> r.issues_branch is None,
        !declines(q1@) ==> (r.issues_branch matches Some(b) && b@ == DEFAULT_ISSUES_BRANCH@),
        r.auto_pull == !declines(q2@),
        r.auto_push == !declines(q2@),
{
    let (branch, _) = read_answer(q1);
    let (sync, _) = read_answer(q2);
    WorkflowConfig {
        issues_branch: if branch {
            Some(to_owned_string(DEFAULT_ISSUES_BRANCH))
        } else {
            None
        },
        auto_pull: sync,
        auto_push: sync,
    }
}

} // verus!
