//! What `brd config issues-branch` and `brd config external-repo` are asked to do, and
//! whether it is allowed, decided from the current configuration; and how `brd config`
//! shows the settings.

use vstd::prelude::*;

use crate::config::Config;
use crate::error::BrdError;
use crate::text::{
    chars_of, dec, has_prefix, join_seqs, join_strings, lines, lines_of, occurs_at, parse_u32,
    parse_u32_at, push_str, push_u64, starts_with_at, str_eq, substring, to_owned_string, trim,
    trim_bounds,
};

verus! {

/// The change a setting command makes.
#[derive(Debug, Clone)]
pub enum SettingChange {
    /// the setting already has the requested value: nothing to do
    AlreadySet,
    /// clearing a setting that is not set: nothing to do
    NotSet,
    /// set the setting to this value
    Assign(String),
    /// clear the setting, which had this value
    Clear(String),
}

/// The view of a change: its kind and value.
pub open spec fn change_view(c: SettingChange) -> (int, Seq<char>) {
    match c {
        SettingChange::AlreadySet => (0, Seq::<char>::empty()),
        SettingChange::NotSet => (1, Seq::<char>::empty()),
        SettingChange::Assign(v) => (2, v@),
        SettingChange::Clear(v) => (3, v@),
    }
}

fn opt_eq(o: &Option<String>, v: &str) -> (r: bool)
    ensures
        r == (o matches Some(s) && s@ == v@),
{
    match o {
        Some(s) => str_eq(s.as_str(), v),
        None => false,
    }
}

/// Decides `brd config issues-branch`: clearing reports the branch to clear (or that
/// none is set); setting needs a name, does nothing when that branch is already set, and
/// refuses while a different one is.
pub fn issues_branch_change(config: &Config, name: Option<&str>, clear: bool) -> (r: Result<SettingChange, BrdError>)
    ensures
        clear ==> match config.issues_branch {
            Some(b) => r matches Ok(c) && change_view(c) == (3int, b@),
            None => r matches Ok(c) && change_view(c).0 == 1,
        },
        !clear && name is None ==> (r matches Err(BrdError::Other(m)) && m@
            == "must provide branch name or use --clear"@),
        !clear && name is Some ==> {
            let n = name->0;
            match config.issues_branch {
                Some(b) => if b@ == n@ {
                    r matches Ok(c) && change_view(c).0 == 0
                } else {
                    r matches Err(BrdError::Other(m)) && m@ == "issues-branch already set to '"@ + b@
                        + "'. run `brd config issues-branch --clear` first."@
                },
                None => r matches Ok(c) && change_view(c) == (2int, n@),
            }
        },
{
    if clear {
        return match &config.issues_branch {
            Some(b) => Ok(SettingChange::Clear(to_owned_string(b.as_str()))),
            None => Ok(SettingChange::NotSet),
        };
    }
    let branch = match name {
        Some(b) => b,
        None => return Err(BrdError::Other(to_owned_string("must provide branch name or use --clear"))),
    };
    if opt_eq(&config.issues_branch, branch) {
        return Ok(SettingChange::AlreadySet);
    }
    match &config.issues_branch {
        Some(existing) => {
            let mut m = String::new();
            push_str(&mut m, "issues-branch already set to '");
            push_str(&mut m, existing.as_str());
            push_str(&mut m, "'. run `brd config issues-branch --clear` first.");
            Err(BrdError::Other(m))
        },
        None => Ok(SettingChange::Assign(to_owned_string(branch))),
    }
}

/// Decides `brd config external-repo`: clearing reports the path to clear (or that none
/// is set); setting needs a path, does nothing when that path is already set, and refuses
/// while a different path or an issues branch is set.
pub fn external_repo_change(config: &Config, path: Option<&str>, clear: bool) -> (r: Result<SettingChange, BrdError>)
    ensures
        clear ==> match config.issues_repo {
            Some(p) => r matches Ok(c) && change_view(c) == (3int, p@),
            None => r matches Ok(c) && change_view(c).0 == 1,
        },
        !clear && path is None ==> (r matches Err(BrdError::Other(m)) && m@
            == "must provide path or use --clear"@),
        !clear && path is Some ==> match config.issues_repo {
            Some(p) => if p@ == path->0@ {
                r matches Ok(c) && change_view(c).0 == 0
            } else {
                r matches Err(BrdError::Other(m)) && m@ == "external-repo already set to '"@ + p@
                    + "'. run `brd config external-repo --clear` first."@
            },
            None => if config.issues_branch is Some {
                r matches Err(BrdError::Other(m)) && m@
                    == "issues-branch is set. run `brd config issues-branch --clear` first."@
            } else {
                r matches Ok(c) && change_view(c) == (2int, path->0@)
            },
        },
{
    if clear {
        return match &config.issues_repo {
            Some(p) => Ok(SettingChange::Clear(to_owned_string(p.as_str()))),
            None => Ok(SettingChange::NotSet),
        };
    }
    let p = match path {
        Some(p) => p,
        None => return Err(BrdError::Other(to_owned_string("must provide path or use --clear"))),
    };
    if opt_eq(&config.issues_repo, p) {
        return Ok(SettingChange::AlreadySet);
    }
    match &config.issues_repo {
        Some(existing) => {
            let mut m = String::new();
            push_str(&mut m, "external-repo already set to '");
            push_str(&mut m, existing.as_str());
            push_str(&mut m, "'. run `brd config external-repo --clear` first.");
            Err(BrdError::Other(m))
        },
        None => {
            if config.issues_branch.is_some() {
                return Err(BrdError::Other(to_owned_string(
                    "issues-branch is set. run `brd config issues-branch --clear` first.",
                )));
            }
            Ok(SettingChange::Assign(to_owned_string(p)))
        },
    }
}

/// The commit message for setting the issues branch.
pub fn set_branch_commit_message(branch: &str) -> (r: String)
    ensures
        r@ == "chore(braid): set issues-branch to '"@ + branch@ + "'"@,
{
    let mut m = String::new();
    push_str(&mut m, "chore(braid): set issues-branch to '");
    push_str(&mut m, branch);
    push_str(&mut m, "'");
    m
}


/// Where the configured external repository path leads: to itself, to another
/// (canonical) path, or nowhere.
pub enum ExternalPath {
    Same,
    Resolved(String),
    NotFound,
}

pub open spec fn bool_text(b: bool) -> Seq<char> {
    if b { "true"@ } else { "false"@ }
}

pub open spec fn branch_line(c: Config, tracking: Option<Seq<char>>) -> Seq<char> {
    match c.issues_branch {
        Some(b) => "issues-branch: "@ + b@ + match tracking {
            Some(u) => " (tracking "@ + u + ")\n"@,
            None => " (local only)\n"@,
        },
        None => "issues-branch: (not set)\n"@,
    }
}

pub open spec fn external_line(c: Config, external: ExternalPath) -> Seq<char> {
    match c.issues_repo {
        Some(p) => "external-repo: "@ + p@ + match external {
            ExternalPath::Same => "\n"@,
            ExternalPath::Resolved(q) => " ("@ + q@ + ")\n"@,
            ExternalPath::NotFound => " (path not found)\n"@,
        },
        None => "external-repo: (not set)\n"@,
    }
}

pub open spec fn auto_sync_line(c: Config) -> Seq<char> {
    if c.auto_pull && c.auto_push {
        "auto-sync:     enabled\n"@
    } else if !c.auto_pull && !c.auto_push {
        "auto-sync:     disabled\n"@
    } else {
        "auto-sync:     partial (pull="@ + bool_text(c.auto_pull) + ", push="@ + bool_text(c.auto_push) + ")\n"@
    }
}

/// The text of `brd config`: the issues branch (with its upstream, `tracking`, or local
/// only), the external repository (with where its path leads), and auto-sync (enabled
/// when both pull and push are, disabled when neither is, else partial).
pub open spec fn spec_config_show(c: Config, tracking: Option<Seq<char>>, external: ExternalPath) -> Seq<char> {
    branch_line(c, tracking) + external_line(c, external) + auto_sync_line(c)
}

fn push_bool(m: &mut String, b: bool)
    ensures
        final(m)@ == old(m)@ + bool_text(b),
{
    if b {
        push_str(m, "true");
    } else {
        push_str(m, "false");
    }
}

fn push_branch_line(m: &mut String, c: &Config, tracking: Option<&str>)
    ensures
        final(m)@ == old(m)@ + branch_line(*c, match tracking {
            Some(u) => Some(u@),
            None => None,
        }),
{
    match &c.issues_branch {
        Some(b) => {
            push_str(m, "issues-branch: ");
            push_str(m, b.as_str());
            match tracking {
                Some(u) => {
                    push_str(m, " (tracking ");
                    push_str(m, u);
                    push_str(m, ")\n");
                },
                None => push_str(m, " (local only)\n"),
            }
        },
        None => push_str(m, "issues-branch: (not set)\n"),
    }
    proof {
        let t = match tracking {
            Some(u) => Some(u@),
            None => None,
        };
        assert(final(m)@ =~= old(m)@ + branch_line(*c, t));
    }
}

fn push_external_line(m: &mut String, c: &Config, external: &ExternalPath)
    ensures
        final(m)@ == old(m)@ + external_line(*c, *external),
{
    match &c.issues_repo {
        Some(p) => {
            push_str(m, "external-repo: ");
            push_str(m, p.as_str());
            match external {
                ExternalPath::Same => push_str(m, "\n"),
                ExternalPath::Resolved(q) => {
                    push_str(m, " (");
                    push_str(m, q.as_str());
                    push_str(m, ")\n");
                },
                ExternalPath::NotFound => push_str(m, " (path not found)\n"),
            }
        },
        None => push_str(m, "external-repo: (not set)\n"),
    }
    assert(final(m)@ =~= old(m)@ + external_line(*c, *external));
}

fn push_auto_sync_line(m: &mut String, c: &Config)
    ensures
        final(m)@ == old(m)@ + auto_sync_line(*c),
{
    if c.auto_pull && c.auto_push {
        push_str(m, "auto-sync:     enabled\n");
    } else if !c.auto_pull && !c.auto_push {
        push_str(m, "auto-sync:     disabled\n");
    } else {
        push_str(m, "auto-sync:     partial (pull=");
        push_bool(m, c.auto_pull);
        push_str(m, ", push=");
        push_bool(m, c.auto_push);
        push_str(m, ")\n");
    }
    assert(final(m)@ =~= old(m)@ + auto_sync_line(*c));
}

/// Shows the settings; see [`spec_config_show`].
pub fn config_show_text(c: &Config, tracking: Option<&str>, external: &ExternalPath) -> (r: String)
    ensures
        r@ == spec_config_show(*c, match tracking {
            Some(u) => Some(u@),
            None => None,
        }, *external),
{
    let mut m = String::new();
    push_branch_line(&mut m, c, tracking);
    push_external_line(&mut m, c, external);
    push_auto_sync_line(&mut m, c);
    proof {
        let t = match tracking {
            Some(u) => Some(u@),
            None => None,
        };
        assert(m@ =~= spec_config_show(*c, t, *external));
    }
    m
}

/// The state of reading `git worktree list --porcelain`: the path and branch of the entry
/// being read, and the entries with both that have ended so far.
pub type WorktreeScan = (Option<Seq<char>>, Option<Seq<char>>, Seq<(Seq<char>, Seq<char>)>);

/// One line of the listing: `worktree <path>` starts an entry, `branch refs/heads/<name>`
/// names its branch (another ref names none), and an empty line ends it, keeping it when
/// both are known.
pub open spec fn scan_worktree_line(st: WorktreeScan, line: Seq<char>) -> WorktreeScan {
    if has_prefix(line, "worktree "@) {
        (Some(line.subrange(9, line.len() as int)), None, st.2)
    } else if has_prefix(line, "branch "@) {
        let r = line.subrange(7, line.len() as int);
        (st.0, if has_prefix(r, "refs/heads/"@) {
            Some(r.subrange(11, r.len() as int))
        } else {
            None
        }, st.2)
    } else if line.len() == 0 {
        (None, None, match (st.0, st.1) {
            (Some(p), Some(b)) => st.2.push((p, b)),
            _ => st.2,
        })
    } else {
        st
    }
}

/// The listing read line by line.
pub open spec fn scan_worktree_lines(ls: Seq<Seq<char>>) -> WorktreeScan
    decreases ls.len(),
{
    if ls.len() == 0 {
        (None, None, Seq::empty())
    } else {
        scan_worktree_line(scan_worktree_lines(ls.drop_last()), ls.last())
    }
}

/// The worktrees of a porcelain listing that are on a local branch, as (path, branch).
pub open spec fn spec_worktree_list(out: Seq<char>) -> Seq<(Seq<char>, Seq<char>)> {
    scan_worktree_lines(lines_of(out)).2
}

/// A worktree of the listing: its path and branch.
pub struct ListedWorktree {
    pub path: String,
    pub branch: String,
}

/// The view of listed worktrees.
pub open spec fn listed_view(v: Seq<ListedWorktree>) -> Seq<(Seq<char>, Seq<char>)> {
    v.map_values(|w: ListedWorktree| (w.path@, w.branch@))
}

/// The text of an optional string.
pub open spec fn opt_chars(o: Option<String>) -> Option<Seq<char>> {
    match o {
        Some(s) => Some(s@),
        None => None,
    }
}

/// Reads the output of `git worktree list --porcelain` into the worktrees that are on a
/// local branch; an entry counts once its terminating empty line is read.
pub fn parse_worktree_list(out: &str) -> (r: Vec<ListedWorktree>)
    ensures
        listed_view(r@) == spec_worktree_list(out@),
{
    let v = chars_of(out);
    let ls = lines(&v, 0, v.len());
    assert(v@.subrange(0, v.len() as int) =~= v@);
    let ghost lv = lines_of(out@);
    let wt_pre: Vec<char> = chars_of("worktree ");
    let br_pre: Vec<char> = chars_of("branch ");
    let heads: Vec<char> = chars_of("refs/heads/");
    proof {
        reveal_strlit("worktree ");
        reveal_strlit("branch ");
        reveal_strlit("refs/heads/");
    }
    let mut path: Option<String> = None;
    let mut branch: Option<String> = None;
    let mut found: Vec<ListedWorktree> = Vec::new();
    let mut i: usize = 0;
    while i < ls.len()
        invariant
            i <= ls.len(),
            ls.len() == lv.len(),
            lv == lines_of(out@),
            forall|j: int| 0 <= j < ls.len() ==> #[trigger] ls[j]@ == lv[j],
            wt_pre@ == "worktree "@,
            br_pre@ == "branch "@,
            heads@ == "refs/heads/"@,
            (opt_chars(path), opt_chars(branch), listed_view(found@)) == scan_worktree_lines(
                lv.take(i as int),
            ),
        decreases ls.len() - i,
    {
        assert(lv.take(i + 1).drop_last() =~= lv.take(i as int));
        proof {
            reveal_strlit("worktree ");
            reveal_strlit("branch ");
            reveal_strlit("refs/heads/");
        }
        let line = &ls[i];
        let ghost l = line@;
        assert(l == lv[i as int]);
        if starts_with_at(line, 0, &wt_pre) {
            assert(has_prefix(l, "worktree "@));
            path = Some(substring(line, 9, line.len()));
            branch = None;
        } else if starts_with_at(line, 0, &br_pre) {
            assert(!has_prefix(l, "worktree "@)) by {
                if has_prefix(l, "worktree "@) {
                    assert(l.subrange(0, 9) =~= "worktree "@);
                    assert(occurs_at(l, wt_pre@, 0));
                }
            }
            assert(has_prefix(l, "branch "@));
            let ghost r = l.subrange(7, l.len() as int);
            if line.len() >= 18 && starts_with_at(line, 7, &heads) {
                assert(has_prefix(r, "refs/heads/"@)) by {
                    assert(r.subrange(0, 11) =~= l.subrange(7, 18));
                }
                let b = substring(line, 18, line.len());
                assert(b@ =~= r.subrange(11, r.len() as int));
                branch = Some(b);
            } else {
                assert(!has_prefix(r, "refs/heads/"@)) by {
                    if has_prefix(r, "refs/heads/"@) {
                        assert(r.subrange(0, 11) =~= l.subrange(7, 18));
                        assert(occurs_at(l, heads@, 7));
                    }
                }
                branch = None;
            }
        } else {
            assert(!has_prefix(l, "worktree "@)) by {
                if has_prefix(l, "worktree "@) {
                    assert(occurs_at(l, wt_pre@, 0));
                }
            }
            assert(!has_prefix(l, "branch "@)) by {
                if has_prefix(l, "branch "@) {
                    assert(occurs_at(l, br_pre@, 0));
                }
            }
            if line.len() == 0 {
                let p = path.take();
                let b = branch.take();
                match (p, b) {
                    (Some(pp), Some(bb)) => {
                        let ghost before = found@;
                        found.push(ListedWorktree { path: pp, branch: bb });
                        assert(listed_view(found@) =~= listed_view(before).push(
                            (found@.last().path@, found@.last().branch@),
                        ));
                    },
                    _ => {},
                }
            }
        }
        i += 1;
    }
    assert(lv.take(ls.len() as int) =~= lv);
    found
}

/// Whether `git rev-list --count HEAD..main` (its output, `None` when it failed) says
/// that main has commits the worktree lacks; output that is not a count reads as 0.
pub open spec fn spec_behind_main(out: Option<Seq<char>>) -> bool {
    match out {
        Some(o) => match parse_u32(trim(o)) {
            Some(n) => n > 0,
            None => false,
        },
        None => false,
    }
}

/// Reads the output of `git rev-list --count HEAD..main`.
pub fn behind_main(out: Option<&str>) -> (r: bool)
    ensures
        r == spec_behind_main(
            match out {
                Some(o) => Some(o@),
                None => None,
            },
        ),
{
    match out {
        Some(o) => {
            let v = chars_of(o);
            let (a, b) = trim_bounds(&v, 0, v.len());
            assert(v@.subrange(0, v.len() as int) =~= o@);
            match parse_u32_at(&v, a, b) {
                Some(n) => n > 0,
                None => false,
            }
        },
        None => false,
    }
}

/// The warning about agent worktrees that must rebase on main to pick up a new config,
/// line by line: none when there are none.
pub open spec fn spec_rebase_warning(w: Seq<(Seq<char>, Seq<char>)>) -> Seq<Seq<char>> {
    if w.len() == 0 {
        Seq::empty()
    } else {
        seq![Seq::empty(), "Warning: Found "@ + dec(w.len()) + " agent worktree(s) that need to rebase on main:"@]
            + Seq::new(w.len(), |i: int| "  - "@ + w[i].1 + " (at "@ + w[i].0 + ")"@) + seq![
            Seq::empty(),
            "Run `git rebase main` in each worktree to pick up the new config."@,
        ]
    }
}

/// The lines of the rebase warning for `worktrees`.
pub fn rebase_warning(worktrees: &Vec<ListedWorktree>) -> (r: Vec<String>)
    ensures
        r@.map_values(|s: String| s@) == spec_rebase_warning(listed_view(worktrees@)),
{
    let ghost w = listed_view(worktrees@);
    let mut r: Vec<String> = Vec::new();
    if worktrees.len() == 0 {
        assert(r@.map_values(|s: String| s@) =~= spec_rebase_warning(w));
        return r;
    }
    r.push(String::new());
    let mut head = String::new();
    push_str(&mut head, "Warning: Found ");
    push_u64(&mut head, worktrees.len() as u64);
    push_str(&mut head, " agent worktree(s) that need to rebase on main:");
    r.push(head);
    let ghost start = r@.map_values(|s: String| s@);
    assert(start =~= seq![Seq::empty(), "Warning: Found "@ + dec(w.len())
        + " agent worktree(s) that need to rebase on main:"@]);
    let mut i: usize = 0;
    while i < worktrees.len()
        invariant
            i <= worktrees.len(),
            w == listed_view(worktrees@),
            r@.map_values(|s: String| s@) == start + Seq::new(
                i as nat,
                |k: int| "  - "@ + w[k].1 + " (at "@ + w[k].0 + ")"@,
            ),
        decreases worktrees.len() - i,
    {
        let mut line = String::new();
        push_str(&mut line, "  - ");
        push_str(&mut line, worktrees[i].branch.as_str());
        push_str(&mut line, " (at ");
        push_str(&mut line, worktrees[i].path.as_str());
        push_str(&mut line, ")");
        let ghost before = r@.map_values(|s: String| s@);
        r.push(line);
        assert(r@.map_values(|s: String| s@) =~= start + Seq::new(
            (i + 1) as nat,
            |k: int| "  - "@ + w[k].1 + " (at "@ + w[k].0 + ")"@,
        )) by {
            assert(r@.map_values(|s: String| s@) =~= before.push(r@.last()@));
        }
        i += 1;
    }
    let ghost mid = r@.map_values(|s: String| s@);
    r.push(String::new());
    r.push(to_owned_string("Run `git rebase main` in each worktree to pick up the new config."));
    assert(r@.map_values(|s: String| s@) =~= spec_rebase_warning(w)) by {
        assert(r@.map_values(|s: String| s@) =~= mid.push(Seq::empty()).push(
            "Run `git rebase main` in each worktree to pick up the new config."@,
        ));
    }
    r
}

/// The commit message for clearing the issues branch.
pub fn clear_branch_commit_message(branch: &str) -> (r: String)
    ensures
        r@ == "chore(braid): clear issues-branch (was '"@ + branch@ + "')"@,
{
    let mut m = String::new();
    push_str(&mut m, "chore(braid): clear issues-branch (was '");
    push_str(&mut m, branch);
    push_str(&mut m, "')");
    m
}

/// The commit message for pointing the issues at an external repository.
pub fn set_external_commit_message(path: &str) -> (r: String)
    ensures
        r@ == "chore(braid): set external-repo to '"@ + path@ + "'"@,
{
    let mut m = String::new();
    push_str(&mut m, "chore(braid): set external-repo to '");
    push_str(&mut m, path);
    push_str(&mut m, "'");
    m
}

/// The commit message for clearing the external repository.
pub fn clear_external_commit_message(path: &str) -> (r: String)
    ensures
        r@ == "chore(braid): clear external-repo (was '"@ + path@ + "')"@,
{
    let mut m = String::new();
    push_str(&mut m, "chore(braid): clear external-repo (was '");
    push_str(&mut m, path);
    push_str(&mut m, "')");
    m
}

/// The lines of `ls` that, trimmed, are not `pattern`.
pub open spec fn kept_lines(ls: Seq<Seq<char>>, pattern: Seq<char>) -> Seq<Seq<char>>
    decreases ls.len(),
{
    if ls.len() == 0 {
        Seq::empty()
    } else {
        let r = kept_lines(ls.drop_last(), pattern);
        if trim(ls.last()) == pattern {
            r
        } else {
            r.push(ls.last())
        }
    }
}

/// A git exclude file without the lines that, trimmed, are `pattern`: the other lines
/// joined by newlines, with a final newline when the file had one and something is left.
pub open spec fn spec_exclude_without(content: Seq<char>, pattern: Seq<char>) -> Seq<char> {
    let j = join_seqs(kept_lines(lines_of(content), pattern), "\n"@);
    if content.len() > 0 && content.last() == '\n' && j.len() > 0 {
        j.push('\n')
    } else {
        j
    }
}

/// Removes a pattern from the content of `.git/info/exclude`.
pub fn exclude_without(content: &str, pattern: &str) -> (r: String)
    ensures
        r@ == spec_exclude_without(content@, pattern@),
{
    let v = chars_of(content);
    let ls = lines(&v, 0, v.len());
    assert(v@.subrange(0, v.len() as int) =~= v@);
    let ghost lv = lines_of(content@);
    let mut kept: Vec<String> = Vec::new();
    let mut i: usize = 0;
    while i < ls.len()
        invariant
            i <= ls.len(),
            ls.len() == lv.len(),
            lv == lines_of(content@),
            forall|j: int| 0 <= j < ls.len() ==> #[trigger] ls[j]@ == lv[j],
            kept@.map_values(|s: String| s@) == kept_lines(lv.take(i as int), pattern@),
        decreases ls.len() - i,
    {
        assert(lv.take(i + 1).drop_last() =~= lv.take(i as int));
        let line = &ls[i];
        let (a, b) = trim_bounds(line, 0, line.len());
        assert(line@.subrange(0, line.len() as int) =~= line@);
        let t = substring(line, a, b);
        if !str_eq(t.as_str(), pattern) {
            let ghost before = kept@.map_values(|s: String| s@);
            let whole = substring(line, 0, line.len());
            kept.push(whole);
            assert(kept@.map_values(|s: String| s@) =~= before.push(lv[i as int]));
        }
        i += 1;
    }
    assert(lv.take(ls.len() as int) =~= lv);
    let mut r = join_strings(kept.as_slice(), "\n");
    proof {
        reveal_strlit("\n");
    }
    let n = v.len();
    if n > 0 && v[n - 1] == '\n' && !r.as_str().is_empty() {
        let ghost before = r@;
        push_str(&mut r, "\n");
        assert(r@ =~= before.push('\n'));
    }
    r
}

} // verus!
