//! The `brd status` summary: issue counts, the sync state of the issues branch, agents,
//! and their text rendering.

use vstd::prelude::*;

use crate::issue::{IssueMap, Issue, Status};
use crate::text::{
    chars_of, dec, int_dec, lines, lines_of, parse_usize, parse_usize_at, push_str, push_u64,
    push_i64, split_words, string_of, trim, trim_bounds, words,
};

verus! {

/// How many issues are in each status.
#[derive(Debug, Clone, Copy, PartialEq, Eq, Structural)]
pub struct IssueCounts {
    pub open: usize,
    pub doing: usize,
    pub done: usize,
    pub skip: usize,
}

/// The number of issues in `s` with status `st`.
pub open spec fn count_status(s: Seq<Issue>, st: Status) -> nat
    decreases s.len(),
{
    if s.len() == 0 {
        0
    } else {
        count_status(s.drop_last(), st) + if s.last().frontmatter.status == st {
            1nat
        } else {
            0nat
        }
    }
}

proof fn lemma_count_le(s: Seq<Issue>, st: Status)
    ensures
        count_status(s, st) <= s.len(),
    decreases s.len(),
{
    if s.len() > 0 {
        lemma_count_le(s.drop_last(), st);
    }
}

/// Counts the issues of each status (`open` counts the issues still to do).
pub fn count_issues(issues: &IssueMap) -> (r: IssueCounts)
    ensures
        r.open == count_status(issues@, Status::Open),
        r.doing == count_status(issues@, Status::Doing),
        r.done == count_status(issues@, Status::Done),
        r.skip == count_status(issues@, Status::Skip),
{
    let v = issues.values();
    let mut c = IssueCounts { open: 0, doing: 0, done: 0, skip: 0 };
    let mut i: usize = 0;
    while i < v.len()
        invariant
            v@ == issues@,
            i <= v.len(),
            c.open == count_status(v@.take(i as int), Status::Open),
            c.doing == count_status(v@.take(i as int), Status::Doing),
            c.done == count_status(v@.take(i as int), Status::Done),
            c.skip == count_status(v@.take(i as int), Status::Skip),
        decreases v.len() - i,
    {
        let ghost pre = v@.take(i as int);
        assert(v@.take(i + 1).drop_last() =~= pre);
        proof {
            lemma_count_le(pre, Status::Open);
            lemma_count_le(pre, Status::Doing);
            lemma_count_le(pre, Status::Done);
            lemma_count_le(pre, Status::Skip);
        }
        match v[i].frontmatter.status {
            Status::Open => c.open = c.open + 1,
            Status::Doing => c.doing = c.doing + 1,
            Status::Done => c.done = c.done + 1,
            Status::Skip => c.skip = c.skip + 1,
        }
        i += 1;
    }
    assert(v@.take(v.len() as int) =~= v@);
    c
}

/// `<open> open, <doing> doing, <done> done`, then `, <skip> skip` when some were skipped.
pub open spec fn spec_issue_counts_text(c: IssueCounts) -> Seq<char> {
    dec(c.open as nat) + " open, "@ + dec(c.doing as nat) + " doing, "@ + dec(c.done as nat)
        + " done"@ + if c.skip > 0 {
        ", "@ + dec(c.skip as nat) + " skip"@
    } else {
        Seq::<char>::empty()
    }
}

/// The issue counts as one line.
pub fn format_issue_counts(counts: IssueCounts) -> (r: String)
    ensures
        r@ == spec_issue_counts_text(counts),
{
    let mut r = String::new();
    push_u64(&mut r, counts.open as u64);
    push_str(&mut r, " open, ");
    push_u64(&mut r, counts.doing as u64);
    push_str(&mut r, " doing, ");
    push_u64(&mut r, counts.done as u64);
    push_str(&mut r, " done");
    if counts.skip > 0 {
        push_str(&mut r, ", ");
        push_u64(&mut r, counts.skip as u64);
        push_str(&mut r, " skip");
    }
    assert(r@ =~= spec_issue_counts_text(counts));
    r
}

/// Where the issues branch stands against its upstream.
#[derive(Debug, Clone, Copy, PartialEq, Eq, Structural)]
pub enum SyncState {
    UpToDate,
    Ahead(usize),
    Behind(usize),
    Diverged { ahead: usize, behind: usize },
    NoUpstream,
    MissingWorktree,
    Unknown,
}

/// The sync state of the issues branch, with its upstream and its uncommitted changes.
#[derive(Debug, Clone)]
pub struct SyncInfo {
    pub upstream: Option<String>,
    pub state: SyncState,
    pub dirty_count: usize,
}

/// ` (<n> dirty)` when there are uncommitted changes.
pub open spec fn dirty_suffix(n: usize) -> Seq<char> {
    if n > 0 {
        " ("@ + dec(n as nat) + " dirty)"@
    } else {
        Seq::<char>::empty()
    }
}

/// The sync line of the status summary.
pub open spec fn spec_sync_line(s: SyncInfo) -> Seq<char> {
    let d = dirty_suffix(s.dirty_count);
    match s.state {
        SyncState::UpToDate => match s.upstream {
            Some(u) => "up to date with "@ + u@ + d,
            None => "up to date"@ + d,
        },
        SyncState::Ahead(n) => match s.upstream {
            Some(u) => "ahead of "@ + u@ + " by "@ + dec(n as nat) + d,
            None => "ahead by "@ + dec(n as nat) + d,
        },
        SyncState::Behind(n) => match s.upstream {
            Some(u) => "behind "@ + u@ + " by "@ + dec(n as nat) + d,
            None => "behind by "@ + dec(n as nat) + d,
        },
        SyncState::Diverged { ahead, behind } => match s.upstream {
            Some(u) => "diverged from "@ + u@ + " (ahead "@ + dec(ahead as nat) + ", behind "@
                + dec(behind as nat) + ")"@ + d,
            None => "diverged (ahead "@ + dec(ahead as nat) + ", behind "@ + dec(behind as nat)
                + ")"@ + d,
        },
        SyncState::NoUpstream => "no upstream"@ + d,
        SyncState::MissingWorktree => "issues worktree missing"@,
        SyncState::Unknown => "unknown"@ + d,
    }
}

fn push_dirty(r: &mut String, n: usize)
    ensures
        final(r)@ == old(r)@ + dirty_suffix(n),
{
    if n > 0 {
        push_str(r, " (");
        push_u64(r, n as u64);
        push_str(r, " dirty)");
        assert(final(r)@ =~= old(r)@ + dirty_suffix(n));
    } else {
        assert(old(r)@ + dirty_suffix(n) =~= old(r)@);
    }
}

/// The sync line: the state against the upstream (named when known), and the number of
/// uncommitted changes.
pub fn format_sync_line(sync: &SyncInfo) -> (r: String)
    ensures
        r@ == spec_sync_line(*sync),
{
    let mut r = String::new();
    match sync.state {
        SyncState::UpToDate => {
            match &sync.upstream {
                Some(u) => {
                    push_str(&mut r, "up to date with ");
                    push_str(&mut r, u.as_str());
                },
                None => push_str(&mut r, "up to date"),
            }
        },
        SyncState::Ahead(n) => {
            match &sync.upstream {
                Some(u) => {
                    push_str(&mut r, "ahead of ");
                    push_str(&mut r, u.as_str());
                    push_str(&mut r, " by ");
                },
                None => push_str(&mut r, "ahead by "),
            }
            push_u64(&mut r, n as u64);
        },
        SyncState::Behind(n) => {
            match &sync.upstream {
                Some(u) => {
                    push_str(&mut r, "behind ");
                    push_str(&mut r, u.as_str());
                    push_str(&mut r, " by ");
                },
                None => push_str(&mut r, "behind by "),
            }
            push_u64(&mut r, n as u64);
        },
        SyncState::Diverged { ahead, behind } => {
            match &sync.upstream {
                Some(u) => {
                    push_str(&mut r, "diverged from ");
                    push_str(&mut r, u.as_str());
                    push_str(&mut r, " (ahead ");
                },
                None => push_str(&mut r, "diverged (ahead "),
            }
            push_u64(&mut r, ahead as u64);
            push_str(&mut r, ", behind ");
            push_u64(&mut r, behind as u64);
            push_str(&mut r, ")");
        },
        SyncState::NoUpstream => push_str(&mut r, "no upstream"),
        SyncState::MissingWorktree => {
            push_str(&mut r, "issues worktree missing");
            assert(r@ =~= spec_sync_line(*sync));
            return r;
        },
        SyncState::Unknown => push_str(&mut r, "unknown"),
    }
    push_dirty(&mut r, sync.dirty_count);
    assert(r@ =~= spec_sync_line(*sync));
    r
}

/// The machine-readable label of each sync state.
pub open spec fn spec_sync_label(s: SyncState) -> Seq<char> {
    match s {
        SyncState::UpToDate => "up-to-date"@,
        SyncState::Ahead(_) => "ahead"@,
        SyncState::Behind(_) => "behind"@,
        SyncState::Diverged { .. } => "diverged"@,
        SyncState::NoUpstream => "no-upstream"@,
        SyncState::MissingWorktree => "missing-worktree"@,
        SyncState::Unknown => "unknown"@,
    }
}

/// The sync state's label.
pub fn sync_status_label(state: &SyncState) -> (r: &'static str)
    ensures
        r@ == spec_sync_label(*state),
{
    match state {
        SyncState::UpToDate => "up-to-date",
        SyncState::Ahead(_) => "ahead",
        SyncState::Behind(_) => "behind",
        SyncState::Diverged { .. } => "diverged",
        SyncState::NoUpstream => "no-upstream",
        SyncState::MissingWorktree => "missing-worktree",
        SyncState::Unknown => "unknown",
    }
}

/// How many commits ahead and behind the state records, where it records them.
pub open spec fn spec_sync_counts(s: SyncState) -> (Option<usize>, Option<usize>) {
    match s {
        SyncState::UpToDate => (Some(0usize), Some(0usize)),
        SyncState::Ahead(a) => (Some(a), Some(0usize)),
        SyncState::Behind(b) => (Some(0usize), Some(b)),
        SyncState::Diverged { ahead, behind } => (Some(ahead), Some(behind)),
        _ => (None, None),
    }
}

/// The ahead and behind counts of a sync state.
pub fn sync_counts(state: &SyncState) -> (r: (Option<usize>, Option<usize>))
    ensures
        r == spec_sync_counts(*state),
{
    match state {
        SyncState::UpToDate => (Some(0), Some(0)),
        SyncState::Ahead(ahead) => (Some(*ahead), Some(0)),
        SyncState::Behind(behind) => (Some(0), Some(*behind)),
        SyncState::Diverged { ahead, behind } => (Some(*ahead), Some(*behind)),
        SyncState::NoUpstream | SyncState::MissingWorktree | SyncState::Unknown => (None, None),
    }
}

/// The state for a branch that is `ahead` commits ahead of and `behind` commits behind
/// its upstream.
pub open spec fn spec_classify(ahead: usize, behind: usize) -> SyncState {
    if ahead == 0 && behind == 0 {
        SyncState::UpToDate
    } else if ahead > 0 && behind == 0 {
        SyncState::Ahead(ahead)
    } else if ahead == 0 && behind > 0 {
        SyncState::Behind(behind)
    } else {
        SyncState::Diverged { ahead, behind }
    }
}

/// The counts read back from a classified state are the counts it was made from.
pub proof fn lemma_classify_counts(ahead: usize, behind: usize)
    ensures
        spec_sync_counts(spec_classify(ahead, behind)) == (Some(ahead), Some(behind)),
{
}

/// The sync information of the issues worktree: a missing worktree; otherwise its
/// upstream (if it has one), its uncommitted changes, and its position against the
/// upstream when git could count it.
pub fn sync_info(
    worktree_exists: bool,
    upstream: Option<String>,
    dirty_count: usize,
    ahead_behind: Option<(usize, usize)>,
) -> (r: SyncInfo)
    ensures
        !worktree_exists ==> r.upstream is None && r.state == SyncState::MissingWorktree
            && r.dirty_count == 0,
        worktree_exists ==> r.upstream == upstream && r.dirty_count == dirty_count && r.state == (
        match upstream {
            None => SyncState::NoUpstream,
            Some(_) => match ahead_behind {
                Some((a, b)) => spec_classify(a, b),
                None => SyncState::Unknown,
            },
        }),
{
    if !worktree_exists {
        return SyncInfo { upstream: None, state: SyncState::MissingWorktree, dirty_count: 0 };
    }
    let state = match &upstream {
        None => SyncState::NoUpstream,
        Some(_) => match ahead_behind {
            Some((ahead, behind)) => {
                if ahead == 0 && behind == 0 {
                    SyncState::UpToDate
                } else if ahead > 0 && behind == 0 {
                    SyncState::Ahead(ahead)
                } else if ahead == 0 && behind > 0 {
                    SyncState::Behind(behind)
                } else {
                    SyncState::Diverged { ahead, behind }
                }
            },
            None => SyncState::Unknown,
        },
    };
    SyncInfo { upstream, state, dirty_count }
}

/// The upstream argument for `git rev-parse --abbrev-ref`: `<branch>@{u}`.
pub fn upstream_arg(branch: &str) -> (r: String)
    ensures
        r@ == branch@ + "@{u}"@,
{
    let mut r = String::new();
    push_str(&mut r, branch);
    push_str(&mut r, "@{u}");
    r
}

/// The upstream of a branch, from what `git rev-parse` printed (`None` when the command
/// failed): the trimmed output, unless it is empty.
pub fn get_upstream(stdout: Option<&str>) -> (r: Option<String>)
    ensures
        match stdout {
            None => r is None,
            Some(s) => if trim(s@).len() == 0 {
                r is None
            } else {
                r matches Some(u) && u@ == trim(s@)
            },
        },
{
    match stdout {
        None => None,
        Some(s) => {
            let v = chars_of(s);
            let (a, b) = trim_bounds(&v, 0, v.len());
            assert(v@.subrange(0, v.len() as int) =~= s@);
            if a == b {
                None
            } else {
                Some(crate::text::substring(&v, a, b))
            }
        },
    }
}

/// `(ahead, behind)` from what `git rev-list --left-right --count <upstream>...HEAD`
/// printed: its first word counts the commits behind, its second the commits ahead.
pub open spec fn spec_ahead_behind(stdout: Seq<char>) -> Option<(usize, usize)> {
    let w = words(stdout);
    if w.len() >= 2 {
        match (parse_usize(w[0]), parse_usize(w[1])) {
            (Some(behind), Some(ahead)) => Some((ahead, behind)),
            _ => None,
        }
    } else {
        None
    }
}

fn parse_word(w: &Vec<char>) -> (r: Option<usize>)
    ensures
        r == parse_usize(w@),
{
    assert(w@.subrange(0, w.len() as int) =~= w@);
    parse_usize_at(w, 0, w.len())
}

/// The commits ahead of and behind the upstream, as git counted them.
pub fn get_ahead_behind(stdout: &str) -> (r: Option<(usize, usize)>)
    ensures
        r == spec_ahead_behind(stdout@),
{
    let v = chars_of(stdout);
    assert(v@.subrange(0, v.len() as int) =~= stdout@);
    let w = split_words(&v, 0, v.len());
    if w.len() < 2 {
        return None;
    }
    match parse_word(&w[0]) {
        Some(behind) => match parse_word(&w[1]) {
            Some(ahead) => Some((ahead, behind)),
            None => None,
        },
        None => None,
    }
}

/// The number of uncommitted changes, from what `git status --porcelain` printed (`None`
/// when the command failed): one per line of the trimmed output.
pub fn count_dirty_files(stdout: Option<&str>) -> (r: usize)
    ensures
        r == match stdout {
            None => 0,
            Some(s) => lines_of(trim(s@)).len(),
        },
{
    match stdout {
        None => 0,
        Some(s) => {
            let v = chars_of(s);
            let (a, b) = trim_bounds(&v, 0, v.len());
            assert(v@.subrange(0, v.len() as int) =~= s@);
            lines(&v, a, b).len()
        },
    }
}

/// A duration in minutes in short form: minutes under an hour, hours under a day, and
/// days beyond.
pub open spec fn spec_duration(mins: i64) -> Seq<char> {
    if mins < 60 {
        int_dec(mins as int) + "m"@
    } else if mins < 60 * 24 {
        dec((mins / 60) as nat) + "h"@
    } else {
        dec((mins / 1440i64) as nat) + "d"@
    }
}

/// Formats a duration given in minutes.
pub fn format_duration(mins: i64) -> (r: String)
    ensures
        r@ == spec_duration(mins),
{
    let mut r = String::new();
    if mins < 60 {
        push_i64(&mut r, mins);
        push_str(&mut r, "m");
    } else if mins < 60 * 24 {
        push_u64(&mut r, (mins / 60) as u64);
        push_str(&mut r, "h");
    } else {
        push_u64(&mut r, (mins / (60 * 24)) as u64);
        push_str(&mut r, "d");
    }
    r
}

/// An agent at work on an issue.
#[derive(Debug, Clone)]
pub struct ActiveAgent {
    pub name: String,
    pub issue_id: String,
    pub issue_title: String,
    pub duration_mins: Option<i64>,
}

/// The agents of the repository: how many worktrees there are, and who is working.
#[derive(Debug, Clone)]
pub struct AgentInfo {
    pub total: usize,
    pub active: Vec<ActiveAgent>,
}

/// The agents line of the status summary.
pub open spec fn spec_agent_line(a: AgentInfo) -> Seq<char> {
    let n = a.active@.len();
    let summary = dec(a.total as nat) + " total, "@ + dec(n) + " active"@;
    if a.total == 0 && n == 0 {
        "none"@
    } else if n == 1 {
        let x = a.active@[0];
        summary + " ("@ + x.name@ + " on "@ + x.issue_id@ + match x.duration_mins {
            Some(m) => " for "@ + spec_duration(m),
            None => Seq::<char>::empty(),
        } + ")"@
    } else {
        summary
    }
}

/// Summarizes the agents: their count and the active ones; a single active agent is
/// named with its issue and, when known, how long it has been at it.
pub fn format_agent_line(agents: &AgentInfo) -> (r: String)
    ensures
        r@ == spec_agent_line(*agents),
{
    let mut r = String::new();
    if agents.total == 0 && agents.active.len() == 0 {
        push_str(&mut r, "none");
        return r;
    }
    let n = agents.active.len();
    push_u64(&mut r, agents.total as u64);
    push_str(&mut r, " total, ");
    push_u64(&mut r, n as u64);
    push_str(&mut r, " active");
    if n == 1 {
        let x = &agents.active[0];
        push_str(&mut r, " (");
        push_str(&mut r, x.name.as_str());
        push_str(&mut r, " on ");
        push_str(&mut r, x.issue_id.as_str());
        match x.duration_mins {
            Some(m) => {
                push_str(&mut r, " for ");
                let d = format_duration(m);
                push_str(&mut r, d.as_str());
            },
            None => {},
        }
        push_str(&mut r, ")");
    }
    assert(r@ =~= spec_agent_line(*agents));
    r
}

/// The active agents: the owners of the issues in progress, in collection order, with
/// their issue; no duration is known.
pub open spec fn spec_active(s: Seq<Issue>) -> Seq<(Seq<char>, Seq<char>, Seq<char>)>
    decreases s.len(),
{
    if s.len() == 0 {
        Seq::empty()
    } else {
        let prev = spec_active(s.drop_last());
        let x = s.last();
        match x.frontmatter.owner {
            Some(o) => if x.frontmatter.status == Status::Doing {
                prev.push((o@, x.frontmatter.id@, x.frontmatter.title@))
            } else {
                prev
            },
            None => prev,
        }
    }
}

/// The views of active agents: name, issue id and title.
pub open spec fn active_view(v: Seq<ActiveAgent>) -> Seq<(Seq<char>, Seq<char>, Seq<char>)> {
    v.map_values(|a: ActiveAgent| (a.name@, a.issue_id@, a.issue_title@))
}

fn copy_string(s: &String) -> (r: String)
    ensures
        r@ == s@,
{
    crate::text::to_owned_string(s.as_str())
}

/// The agents working on issues: every issue in progress that has an owner.
pub fn get_active_agents(issues: &IssueMap) -> (r: Vec<ActiveAgent>)
    ensures
        active_view(r@) == spec_active(issues@),
        forall|k: int| 0 <= k < r.len() ==> (#[trigger] r@[k]).duration_mins is None,
{
    let v = issues.values();
    let mut r: Vec<ActiveAgent> = Vec::new();
    let mut i: usize = 0;
    while i < v.len()
        invariant
            v@ == issues@,
            i <= v.len(),
            active_view(r@) == spec_active(v@.take(i as int)),
            forall|k: int| 0 <= k < r.len() ==> (#[trigger] r@[k]).duration_mins is None,
        decreases v.len() - i,
    {
        assert(v@.take(i + 1).drop_last() =~= v@.take(i as int));
        let x = &v[i];
        match &x.frontmatter.owner {
            Some(o) => {
                if x.frontmatter.status == Status::Doing {
                    let a = ActiveAgent {
                        name: copy_string(o),
                        issue_id: copy_string(&x.frontmatter.id),
                        issue_title: copy_string(&x.frontmatter.title),
                        duration_mins: None,
                    };
                    let ghost r0 = active_view(r@);
                    r.push(a);
                    assert(active_view(r@) =~= r0.push((o@, x.frontmatter.id@, x.frontmatter.title@)));
                }
            },
            None => {},
        }
        i += 1;
    }
    assert(v@.take(v.len() as int) =~= v@);
    r
}

/// The text form of the status summary: a header, then one labelled line each for the
/// mode, agent, id prefix, issues and agents, and, when known, the sync state.
pub open spec fn spec_status_text(
    branch: Option<Seq<char>>,
    agent: Seq<char>,
    prefix: Seq<char>,
    counts: IssueCounts,
    sync: Option<SyncInfo>,
    agents: AgentInfo,
) -> Seq<char> {
    "braid status\n------------\n"@ + "Mode:     "@ + match branch {
        Some(b) => "local-sync (branch: "@ + b + ")"@,
        None => "git-native"@,
    } + "\n"@ + "Agent:    "@ + agent + "\n"@ + "Prefix:   "@ + prefix + "\n"@ + "Issues:   "@
        + spec_issue_counts_text(counts) + "\n"@ + "Agents:   "@ + spec_agent_line(agents) + "\n"@
        + match sync {
        Some(s) => "Sync:     "@ + spec_sync_line(s) + "\n"@,
        None => Seq::<char>::empty(),
    }
}

/// Renders the status summary as text.
pub fn format_status_output(
    branch: Option<&str>,
    agent: &str,
    prefix: &str,
    counts: IssueCounts,
    sync: Option<&SyncInfo>,
    agents: &AgentInfo,
) -> (r: String)
    ensures
        r@ == spec_status_text(
            match branch {
                Some(b) => Some(b@),
                None => None,
            },
            agent@,
            prefix@,
            counts,
            match sync {
                Some(s) => Some(*s),
                None => None,
            },
            *agents,
        ),
{
    let mut r = String::new();
    push_str(&mut r, "braid status\n------------\n");
    push_str(&mut r, "Mode:     ");
    match branch {
        Some(b) => {
            push_str(&mut r, "local-sync (branch: ");
            push_str(&mut r, b);
            push_str(&mut r, ")");
        },
        None => push_str(&mut r, "git-native"),
    }
    push_str(&mut r, "\n");
    push_str(&mut r, "Agent:    ");
    push_str(&mut r, agent);
    push_str(&mut r, "\n");
    push_str(&mut r, "Prefix:   ");
    push_str(&mut r, prefix);
    push_str(&mut r, "\n");
    push_str(&mut r, "Issues:   ");
    let c = format_issue_counts(counts);
    push_str(&mut r, c.as_str());
    push_str(&mut r, "\n");
    push_str(&mut r, "Agents:   ");
    let a = format_agent_line(agents);
    push_str(&mut r, a.as_str());
    push_str(&mut r, "\n");
    match sync {
        Some(s) => {
            push_str(&mut r, "Sync:     ");
            let l = format_sync_line(s);
            push_str(&mut r, l.as_str());
            push_str(&mut r, "\n");
        },
        None => {},
    }
    assert(r@ =~= spec_status_text(
        match branch {
            Some(b) => Some(b@),
            None => None,
        },
        agent@,
        prefix@,
        counts,
        match sync {
            Some(s) => Some(*s),
            None => None,
        },
        *agents,
    ));
    r
}

} // verus!
