//! The issue listing of `brd ls`: which issues are shown, in which order, and how many
//! are held back.

use vstd::prelude::*;

use crate::graph::{compute_derived, spec_is_ready};
use crate::issue::{
    id_of, ids_unique, lemma_before_order, strings_view, Issue, IssueMap, IssueType, Priority, Status,
};
use crate::text::{
    chars_of, compare_str, dec, join_seqs, join_strings, lemma_seq_lt_irrefl, lemma_seq_lt_total,
    lemma_seq_lt_trans, push_char, push_str, push_u64, seq_lt, str_eq, substring,
};

verus! {

/// Most open issues shown without `--all`.
pub const DEFAULT_OPEN_LIMIT: usize = 15;

/// Most done or skipped issues shown without `--all`.
pub const DEFAULT_DONE_LIMIT: usize = 10;

/// What `brd ls` is asked to show.
#[derive(Debug, Clone)]
pub struct LsFilter {
    pub status: Option<Status>,
    pub priority: Option<Priority>,
    pub ready_only: bool,
    pub blocked_only: bool,
    pub tags: Vec<String>,
}

/// Issue `x` of graph `g` passes the filter.
pub open spec fn ls_keep(g: Seq<Issue>, x: Issue, f: LsFilter) -> bool {
    &&& f.status matches Some(s) ==> x.frontmatter.status == s
    &&& f.priority matches Some(p) ==> x.frontmatter.priority == p
    &&& f.ready_only ==> spec_is_ready(g, x)
    &&& f.blocked_only ==> (x.frontmatter.status == Status::Open && !spec_is_ready(g, x))
    &&& forall|t: int|
        0 <= t < f.tags@.len() ==> strings_view(x.frontmatter.tags@).contains(#[trigger] f.tags@[t]@)
}

/// The section an issue is listed in: 0 in progress, 1 open, 2 done or skipped.
pub open spec fn section(x: Issue) -> int {
    match x.frontmatter.status {
        Status::Doing => 0,
        Status::Open => 1,
        _ => 2,
    }
}

/// Resolved issues are listed most recently updated first, then by id.
pub open spec fn recent_before(a: Issue, b: Issue) -> bool {
    ||| a.frontmatter.updated_at > b.frontmatter.updated_at
    ||| a.frontmatter.updated_at == b.frontmatter.updated_at && seq_lt(a.frontmatter.id@, b.frontmatter.id@)
}

/// The order within section `c`.
pub open spec fn sec_before(c: int, a: Issue, b: Issue) -> bool {
    if c == 2 {
        recent_before(a, b)
    } else {
        a.spec_before(b)
    }
}

proof fn lemma_sec_order(c: int, a: Issue, b: Issue, d: Issue)
    ensures
        !sec_before(c, a, a),
        sec_before(c, a, b) && sec_before(c, b, d) ==> sec_before(c, a, d),
        !(sec_before(c, a, b) && sec_before(c, b, a)),
        id_of(a) != id_of(b) ==> sec_before(c, a, b) || sec_before(c, b, a),
{
    if c == 2 {
        lemma_seq_lt_irrefl(id_of(a));
        lemma_seq_lt_total(id_of(a), id_of(b));
        if recent_before(a, b) && recent_before(b, d) {
            if seq_lt(id_of(a), id_of(b)) && seq_lt(id_of(b), id_of(d)) {
                lemma_seq_lt_trans(id_of(a), id_of(b), id_of(d));
            }
        }
        if recent_before(a, b) && recent_before(b, a) {
            if seq_lt(id_of(a), id_of(b)) && seq_lt(id_of(b), id_of(a)) {
                lemma_seq_lt_trans(id_of(a), id_of(b), id_of(a));
            }
        }
    } else {
        lemma_before_order(a, b, d);
    }
}

/// The entries of `r` are in strictly increasing order for section `c`.
pub open spec fn sec_sorted(c: int, r: Seq<&Issue>) -> bool {
    forall|a: int, b: int| 0 <= a < b < r.len() ==> sec_before(c, *r[a], *r[b])
}

/// `x` is among the first `n` issues of `g`, passes the filter, and belongs to section `c`.
pub open spec fn in_sec(g: Seq<Issue>, f: LsFilter, c: int, x: Issue, n: int) -> bool {
    exists|j: int| 0 <= j < n && g[j] == x && ls_keep(g, g[j], f) && section(g[j]) == c
}

/// `x` is an entry of `r`.
pub open spec fn shown(r: Seq<&Issue>, x: Issue) -> bool {
    exists|a: int| 0 <= a < r.len() && *r[a] == x
}

/// Every entry of `r` is in section `c` among the first `n` issues.
pub open spec fn only_sec(g: Seq<Issue>, f: LsFilter, c: int, r: Seq<&Issue>, n: int) -> bool {
    forall|a: int| 0 <= a < r.len() ==> #[trigger] in_sec(g, f, c, *r[a], n)
}

/// Every issue of section `c` among the first `n` is an entry of `r`.
pub open spec fn all_sec(g: Seq<Issue>, f: LsFilter, c: int, r: Seq<&Issue>, n: int) -> bool {
    forall|j: int|
        0 <= j < n && ls_keep(g, g[j], f) && section(g[j]) == c ==> #[trigger] shown(r, g[j])
}

/// How many of the first `n` issues pass the filter and have status `st`.
pub open spec fn count_kept(g: Seq<Issue>, f: LsFilter, st: Status, n: int) -> nat
    decreases n,
{
    if n <= 0 {
        0
    } else {
        count_kept(g, f, st, n - 1) + if ls_keep(g, g[n - 1], f) && g[n - 1].frontmatter.status
            == st {
            1nat
        } else {
            0nat
        }
    }
}

proof fn lemma_count_kept_le(g: Seq<Issue>, f: LsFilter, st: Status, n: int)
    requires
        0 <= n,
    ensures
        count_kept(g, f, st, n) <= n,
    decreases n,
{
    if n > 0 {
        lemma_count_kept_le(g, f, st, n - 1);
    }
}

proof fn lemma_sec_insert(
    g: Seq<Issue>,
    f: LsFilter,
    c: int,
    r: Seq<&Issue>,
    idx: int,
    p: int,
    x: &Issue,
)
    requires
        ids_unique(g),
        0 <= idx < g.len(),
        *x == g[idx],
        ls_keep(g, g[idx], f),
        section(g[idx]) == c,
        0 <= p <= r.len(),
        sec_sorted(c, r),
        only_sec(g, f, c, r, idx),
        all_sec(g, f, c, r, idx),
        forall|a: int| 0 <= a < p ==> sec_before(c, *r[a], *x),
        p < r.len() ==> !sec_before(c, *r[p], *x),
    ensures
        sec_sorted(c, r.insert(p, x)),
        only_sec(g, f, c, r.insert(p, x), idx + 1),
        all_sec(g, f, c, r.insert(p, x), idx + 1),
{
    let nr = r.insert(p, x);
    assert forall|b: int| p <= b < r.len() implies sec_before(c, *x, *r[b]) by {
        assert(in_sec(g, f, c, *r[p], idx));
        let jp = choose|j: int| 0 <= j < idx && g[j] == *r[p] && ls_keep(g, g[j], f) && section(g[j]) == c;
        lemma_sec_order(c, *x, *r[p], *r[b]);
        lemma_sec_order(c, *r[p], *x, *r[b]);
        assert(id_of(g[jp]) != id_of(g[idx]));
        if b > p {
            assert(sec_before(c, *r[p], *r[b]));
        }
    }
    assert forall|a: int, b: int| 0 <= a < b < nr.len() implies sec_before(c, *nr[a], *nr[b]) by {
        if b < p {
        } else if b == p {
        } else if a < p {
            lemma_sec_order(c, *nr[a], *x, *nr[b]);
        } else if a == p {
        } else {
            assert(nr[a] == r[a - 1] && nr[b] == r[b - 1]);
        }
    }
    assert forall|a: int| 0 <= a < nr.len() implies #[trigger] in_sec(g, f, c, *nr[a], idx + 1) by {
        if a < p {
            assert(nr[a] == r[a]);
            assert(in_sec(g, f, c, *r[a], idx));
        } else if a == p {
            assert(g[idx] == *nr[a]);
        } else {
            assert(nr[a] == r[a - 1]);
            assert(in_sec(g, f, c, *r[a - 1], idx));
        }
    }
    assert forall|j: int|
        0 <= j < idx + 1 && ls_keep(g, g[j], f) && section(g[j]) == c implies #[trigger] shown(
        nr,
        g[j],
    ) by {
        if j == idx {
            assert(*nr[p] == g[j]);
        } else {
            assert(shown(r, g[j]));
            let a0 = choose|a: int| 0 <= a < r.len() && *r[a] == g[j];
            if a0 < p {
                assert(*nr[a0] == g[j]);
            } else {
                assert(*nr[a0 + 1] == g[j]);
            }
        }
    }
}

proof fn lemma_sec_skip(g: Seq<Issue>, f: LsFilter, c: int, r: Seq<&Issue>, idx: int)
    requires
        0 <= idx < g.len(),
        !(ls_keep(g, g[idx], f) && section(g[idx]) == c),
        only_sec(g, f, c, r, idx),
        all_sec(g, f, c, r, idx),
    ensures
        only_sec(g, f, c, r, idx + 1),
        all_sec(g, f, c, r, idx + 1),
{
    assert forall|a: int| 0 <= a < r.len() implies #[trigger] in_sec(g, f, c, *r[a], idx + 1) by {
        assert(in_sec(g, f, c, *r[a], idx));
    }
    assert forall|j: int|
        0 <= j < idx + 1 && ls_keep(g, g[j], f) && section(g[j]) == c implies #[trigger] shown(
        r,
        g[j],
    ) by {
        assert(j < idx);
    }
}

/// Whether `a` comes before `b` among resolved issues.
fn recent_precedes(a: &Issue, b: &Issue) -> (r: bool)
    ensures
        r == recent_before(*a, *b),
{
    if a.frontmatter.updated_at > b.frontmatter.updated_at {
        true
    } else if a.frontmatter.updated_at == b.frontmatter.updated_at {
        compare_str(a.frontmatter.id.as_str(), b.frontmatter.id.as_str()) < 0
    } else {
        false
    }
}

/// Whether `a` comes before `b` in section `c`.
fn sec_precedes(c: u8, a: &Issue, b: &Issue) -> (r: bool)
    requires
        c <= 2,
    ensures
        r == sec_before(c as int, *a, *b),
{
    if c == 2 {
        recent_precedes(a, b)
    } else {
        a.precedes(b)
    }
}

/// Whether an issue passes the filter.
fn keep(x: &Issue, issues: &IssueMap, f: &LsFilter) -> (r: bool)
    requires
        issues.wf(),
    ensures
        r == ls_keep(issues@, *x, *f),
{
    match f.status {
        Some(s) => {
            if x.frontmatter.status != s {
                return false;
            }
        },
        None => {},
    }
    match f.priority {
        Some(p) => {
            if x.frontmatter.priority != p {
                return false;
            }
        },
        None => {},
    }
    if f.ready_only || f.blocked_only {
        let d = compute_derived(x, issues);
        if f.ready_only && !d.is_ready {
            return false;
        }
        if f.blocked_only && !d.is_blocked {
            return false;
        }
    }
    let mut t: usize = 0;
    while t < f.tags.len()
        invariant
            t <= f.tags.len(),
            forall|q: int|
                0 <= q < t ==> strings_view(x.frontmatter.tags@).contains(#[trigger] f.tags@[q]@),
        decreases f.tags.len() - t,
    {
        if !crate::ops::has_tag(&x.frontmatter.tags, f.tags[t].as_str()) {
            return false;
        }
        t += 1;
    }
    true
}

/// The listing of `brd ls`: the issues in progress, the open issues and the resolved
/// ones, each in its order, with how many of each kind passed the filter and how many
/// are held back.
pub struct Listing<'a> {
    pub doing: Vec<&'a Issue>,
    pub open: Vec<&'a Issue>,
    pub resolved: Vec<&'a Issue>,
    pub total_doing: usize,
    pub total_open: usize,
    pub total_done: usize,
    pub total_skip: usize,
    pub hidden_open: usize,
    pub hidden_resolved: usize,
}

/// What a listed issue has, whatever the listing does with the others: the status and
/// the priority asked for, every tag asked for, readiness when only ready issues are
/// asked for, and an open issue that is not ready when only blocked ones are.
pub open spec fn fits_request(g: Seq<Issue>, f: LsFilter, x: Issue) -> bool {
    &&& f.status is Some ==> x.frontmatter.status == f.status->0
    &&& f.priority is Some ==> x.frontmatter.priority == f.priority->0
    &&& f.ready_only ==> spec_is_ready(g, x)
    &&& f.blocked_only ==> x.frontmatter.status == Status::Open && !spec_is_ready(g, x)
    &&& forall|t: int| 0 <= t < f.tags@.len() ==> has_tag_text(x.frontmatter.tags@, #[trigger] f.tags@[t]@)
}

/// One of `tags` reads `t`.
pub open spec fn has_tag_text(tags: Seq<String>, t: Seq<char>) -> bool {
    exists|k: int| 0 <= k < tags.len() && tags[k]@ == t
}

/// Every entry of a section list drawn from the issues that pass the filter has what
/// was asked for.
proof fn lemma_entries_fit(g: Seq<Issue>, f: LsFilter, c: int, r: Seq<&Issue>)
    requires
        only_sec(g, f, c, r, g.len() as int),
    ensures
        forall|a: int| 0 <= a < r.len() ==> #[trigger] fits_request(g, f, *r[a]),
{
    assert forall|a: int| 0 <= a < r.len() implies #[trigger] fits_request(g, f, *r[a]) by {
        assert(in_sec(g, f, c, *r[a], g.len() as int));
        let j = choose|j: int| 0 <= j < g.len() && g[j] == *r[a] && ls_keep(g, g[j], f) && section(g[j]) == c;
        let x = g[j];
        assert forall|t: int| 0 <= t < f.tags@.len() implies has_tag_text(
            x.frontmatter.tags@,
            #[trigger] f.tags@[t]@,
        ) by {
            assert(strings_view(x.frontmatter.tags@).contains(f.tags@[t]@));
            let k = choose|k: int| 0 <= k < strings_view(x.frontmatter.tags@).len()
                && strings_view(x.frontmatter.tags@)[k] == f.tags@[t]@;
            assert(x.frontmatter.tags@[k]@ == f.tags@[t]@);
        }
    }
}

/// `r` holds the issues of section `c` that come first in its order: each entry is in
/// the section, the entries are in order, and an issue of the section that is not shown
/// comes after every shown one.
pub open spec fn shows_first(g: Seq<Issue>, f: LsFilter, c: int, r: Seq<&Issue>) -> bool {
    &&& sec_sorted(c, r)
    &&& only_sec(g, f, c, r, g.len() as int)
    &&& forall|j: int|
        0 <= j < g.len() && ls_keep(g, g[j], f) && section(g[j]) == c ==> #[trigger] shown(r, g[j])
            || forall|a: int| 0 <= a < r.len() ==> sec_before(c, *r[a], g[j])
}

fn truncate_to(v: &mut Vec<&Issue>, n: usize)
    ensures
        final(v)@ == if old(v)@.len() > n {
            old(v)@.take(n as int)
        } else {
            old(v)@
        },
{
    let ghost o = v@;
    while v.len() > n
        invariant
            o == old(v)@,
            o.len() > n ==> (n <= v@.len() && v@.len() <= o.len() && v@ == o.take(v@.len() as int)),
            o.len() <= n ==> v@ == o,
        decreases v.len(),
    {
        let l = v.len();
        let ghost before = v@;
        assert(before == o.take(l as int));
        v.pop();
        assert(v@ =~= before.drop_last());
        assert(v@ =~= o.take(l - 1));
    }
}

proof fn lemma_truncated_first(g: Seq<Issue>, f: LsFilter, c: int, full: Seq<&Issue>, n: int)
    requires
        ids_unique(g),
        0 <= n,
        sec_sorted(c, full),
        only_sec(g, f, c, full, g.len() as int),
        all_sec(g, f, c, full, g.len() as int),
    ensures
        shows_first(g, f, c, if full.len() > n {
            full.take(n)
        } else {
            full
        }),
{
    let r = if full.len() > n {
        full.take(n)
    } else {
        full
    };
    assert forall|a: int| 0 <= a < r.len() implies #[trigger] in_sec(g, f, c, *r[a], g.len() as int) by {
        assert(r[a] == full[a]);
    }
    assert forall|j: int|
        0 <= j < g.len() && ls_keep(g, g[j], f) && section(g[j]) == c implies #[trigger] shown(r, g[j])
        || forall|a: int| 0 <= a < r.len() ==> sec_before(c, *r[a], g[j]) by {
        assert(shown(full, g[j]));
        let b = choose|b: int| 0 <= b < full.len() && *full[b] == g[j];
        if b < r.len() {
            assert(*r[b] == g[j]);
        } else {
            assert forall|a: int| 0 <= a < r.len() implies sec_before(c, *r[a], g[j]) by {
                assert(r[a] == full[a]);
            }
        }
    }
}

/// Inserts `x` into the ordered list of section `c`, after the entries that come before
/// it; returns where it went.
fn insert_sorted<'a>(c: u8, list: &mut Vec<&'a Issue>, x: &'a Issue) -> (p: usize)
    requires
        c <= 2,
    ensures
        p <= old(list)@.len(),
        final(list)@ == old(list)@.insert(p as int, x),
        forall|a: int| 0 <= a < p ==> sec_before(c as int, *old(list)@[a], *x),
        p < old(list)@.len() ==> !sec_before(c as int, *old(list)@[p as int], *x),
{
    let mut p: usize = 0;
    while p < list.len() && sec_precedes(c, list[p], x)
        invariant
            c <= 2,
            p <= list.len(),
            list@ == old(list)@,
            forall|a: int| 0 <= a < p ==> sec_before(c as int, *list@[a], *x),
        decreases list.len() - p,
    {
        p += 1;
    }
    list.insert(p, x);
    p
}

/// Lists the issues for `brd ls`: those passing the filter, split into in-progress, open
/// and resolved; in-progress and open ones by priority, creation time and id, resolved
/// ones most recently updated first. Without `show_all`, at most `DEFAULT_OPEN_LIMIT`
/// open and `DEFAULT_DONE_LIMIT` resolved issues are shown, the first in their order.
pub fn ls_listing<'a>(issues: &'a IssueMap, f: &LsFilter, show_all: bool) -> (r: Listing<'a>)
    requires
        issues.wf(),
    ensures
        shows_first(issues@, *f, 0, r.doing@) && all_sec(issues@, *f, 0, r.doing@, issues@.len() as int),
        shows_first(issues@, *f, 1, r.open@),
        shows_first(issues@, *f, 2, r.resolved@),
        r.total_doing == count_kept(issues@, *f, Status::Doing, issues@.len() as int),
        r.total_open == count_kept(issues@, *f, Status::Open, issues@.len() as int),
        r.total_done == count_kept(issues@, *f, Status::Done, issues@.len() as int),
        r.total_skip == count_kept(issues@, *f, Status::Skip, issues@.len() as int),
        r.doing@.len() == r.total_doing,
        show_all || r.total_open <= DEFAULT_OPEN_LIMIT ==> r.open@.len() == r.total_open,
        !show_all && r.total_open > DEFAULT_OPEN_LIMIT ==> r.open@.len() == DEFAULT_OPEN_LIMIT,
        show_all || r.total_done + r.total_skip <= DEFAULT_DONE_LIMIT ==> r.resolved@.len()
            == r.total_done + r.total_skip,
        !show_all && r.total_done + r.total_skip > DEFAULT_DONE_LIMIT ==> r.resolved@.len()
            == DEFAULT_DONE_LIMIT,
        r.hidden_open == r.total_open - r.open@.len(),
        r.hidden_resolved == r.total_done + r.total_skip - r.resolved@.len(),
        forall|a: int| 0 <= a < r.doing@.len() ==> #[trigger] fits_request(issues@, *f, *r.doing@[a]),
        forall|a: int| 0 <= a < r.open@.len() ==> #[trigger] fits_request(issues@, *f, *r.open@[a]),
        forall|a: int| 0 <= a < r.resolved@.len() ==> #[trigger] fits_request(issues@, *f, *r.resolved@[a]),
{
    let g = issues.values();
    let ghost gv = g@;
    let mut doing: Vec<&Issue> = Vec::new();
    let mut open: Vec<&Issue> = Vec::new();
    let mut resolved: Vec<&Issue> = Vec::new();
    let mut n_done: usize = 0;
    let mut n_skip: usize = 0;
    let mut idx: usize = 0;
    while idx < g.len()
        invariant
            g@ == issues@,
            gv == g@,
            issues.wf(),
            idx <= g.len(),
            sec_sorted(0, doing@),
            sec_sorted(1, open@),
            sec_sorted(2, resolved@),
            only_sec(gv, *f, 0, doing@, idx as int),
            only_sec(gv, *f, 1, open@, idx as int),
            only_sec(gv, *f, 2, resolved@, idx as int),
            all_sec(gv, *f, 0, doing@, idx as int),
            all_sec(gv, *f, 1, open@, idx as int),
            all_sec(gv, *f, 2, resolved@, idx as int),
            doing@.len() == count_kept(gv, *f, Status::Doing, idx as int),
            open@.len() == count_kept(gv, *f, Status::Open, idx as int),
            n_done == count_kept(gv, *f, Status::Done, idx as int),
            n_skip == count_kept(gv, *f, Status::Skip, idx as int),
            resolved@.len() == n_done + n_skip,
        decreases g.len() - idx,
    {
        let x = &g[idx];
        proof {
            lemma_count_kept_le(gv, *f, Status::Doing, idx as int);
            lemma_count_kept_le(gv, *f, Status::Open, idx as int);
            lemma_count_kept_le(gv, *f, Status::Done, idx as int);
            lemma_count_kept_le(gv, *f, Status::Skip, idx as int);
        }
        let kept = keep(x, issues, f);
        let ghost d0 = doing@;
        let ghost o0 = open@;
        let ghost r0 = resolved@;
        match x.frontmatter.status {
            Status::Doing => {
                if kept {
                    let p = insert_sorted(0, &mut doing, x);
                    proof {
                        lemma_sec_insert(gv, *f, 0, d0, idx as int, p as int, x);
                    }
                } else {
                    proof {
                        lemma_sec_skip(gv, *f, 0, d0, idx as int);
                    }
                }
                proof {
                    lemma_sec_skip(gv, *f, 1, o0, idx as int);
                    lemma_sec_skip(gv, *f, 2, r0, idx as int);
                }
            },
            Status::Open => {
                if kept {
                    let p = insert_sorted(1, &mut open, x);
                    proof {
                        lemma_sec_insert(gv, *f, 1, o0, idx as int, p as int, x);
                    }
                } else {
                    proof {
                        lemma_sec_skip(gv, *f, 1, o0, idx as int);
                    }
                }
                proof {
                    lemma_sec_skip(gv, *f, 0, d0, idx as int);
                    lemma_sec_skip(gv, *f, 2, r0, idx as int);
                }
            },
            _ => {
                if kept {
                    let p = insert_sorted(2, &mut resolved, x);
                    proof {
                        lemma_sec_insert(gv, *f, 2, r0, idx as int, p as int, x);
                    }
                    match x.frontmatter.status {
                        Status::Done => n_done = n_done + 1,
                        _ => n_skip = n_skip + 1,
                    }
                } else {
                    proof {
                        lemma_sec_skip(gv, *f, 2, r0, idx as int);
                    }
                }
                proof {
                    lemma_sec_skip(gv, *f, 0, d0, idx as int);
                    lemma_sec_skip(gv, *f, 1, o0, idx as int);
                }
            },
        }
        idx += 1;
    }
    let total_doing = doing.len();
    let total_open = open.len();
    proof {
        lemma_truncated_first(gv, *f, 0, doing@, doing@.len() as int);
        assert(doing@.take(doing@.len() as int) =~= doing@);
        lemma_truncated_first(gv, *f, 1, open@, if show_all { open@.len() as int } else { DEFAULT_OPEN_LIMIT as int });
        lemma_truncated_first(gv, *f, 2, resolved@, if show_all { resolved@.len() as int } else { DEFAULT_DONE_LIMIT as int });
    }
    let n_res = resolved.len();
    if !show_all {
        truncate_to(&mut open, DEFAULT_OPEN_LIMIT);
        truncate_to(&mut resolved, DEFAULT_DONE_LIMIT);
    }
    let hidden_open = total_open - open.len();
    let hidden_resolved = n_res - resolved.len();
    proof {
        lemma_entries_fit(gv, *f, 0, doing@);
        lemma_entries_fit(gv, *f, 1, open@);
        lemma_entries_fit(gv, *f, 2, resolved@);
    }
    Listing {
        doing,
        open,
        resolved,
        total_doing,
        total_open,
        total_done: n_done,
        total_skip: n_skip,
        hidden_open,
        hidden_resolved,
    }
}

/// An age given in whole minutes, in short form: minutes (at least 1) under an hour,
/// then hours, days, weeks, months (30 days) and years (365 days); a negative age
/// (a date in the future) reads `0m`.
pub open spec fn spec_age(m: i64) -> Seq<char> {
    if m < 0 {
        "0m"@
    } else if m < 60 {
        dec(if m < 1 { 1 } else { m as nat }) + "m"@
    } else if m < 1440 {
        dec((m / 60) as nat) + "h"@
    } else if m < 10080 {
        dec((m / 1440) as nat) + "d"@
    } else if m < 43200 {
        dec((m / 10080) as nat) + "w"@
    } else if m < 525600 {
        dec((m / 43200) as nat) + "mo"@
    } else {
        dec((m / 525600) as nat) + "y"@
    }
}

/// Formats an age given in whole minutes.
pub fn format_age_minutes(m: i64) -> (r: String)
    ensures
        r@ == spec_age(m),
{
    let mut r = String::new();
    if m < 0 {
        push_str(&mut r, "0m");
    } else if m < 60 {
        push_u64(&mut r, if m < 1 { 1 } else { m as u64 });
        push_str(&mut r, "m");
    } else if m < 1440 {
        push_u64(&mut r, (m / 60) as u64);
        push_str(&mut r, "h");
    } else if m < 10080 {
        push_u64(&mut r, (m / 1440) as u64);
        push_str(&mut r, "d");
    } else if m < 43200 {
        push_u64(&mut r, (m / 10080) as u64);
        push_str(&mut r, "w");
    } else if m < 525600 {
        push_u64(&mut r, (m / 43200) as u64);
        push_str(&mut r, "mo");
    } else {
        push_u64(&mut r, (m / 525600) as u64);
        push_str(&mut r, "y");
    }
    r
}

/// The whole minutes in a span of `d` nanoseconds, rounded toward zero.
pub open spec fn whole_minutes(d: int) -> int {
    if d >= 0 {
        d / 60_000_000_000
    } else {
        -((-d) / 60_000_000_000)
    }
}

/// The age of an issue created at `created_at`, seen at `now` (both nanoseconds since
/// the epoch, within the time library's range).
pub fn format_age_at(created_at: i128, now: i128) -> (r: String)
    requires
        crate::date::valid_instant(created_at as int),
        crate::date::valid_instant(now as int),
    ensures
        r@ == spec_age(whole_minutes(now - created_at) as i64),
{
    let d = now - created_at;
    let m: i128 = if d >= 0 {
        d / 60_000_000_000
    } else {
        -((-d) / 60_000_000_000)
    };
    format_age_minutes(m as i64)
}

/// The age of an issue created at `created_at`, seen now. What the time was is not known
/// to the caller: the text is the age at some valid instant.
pub fn format_age(created_at: i128) -> (r: String)
    requires
        crate::date::valid_instant(created_at as int),
    ensures
        exists|now: int| crate::date::valid_instant(now) && r@ == spec_age(whole_minutes(now - created_at) as i64),
{
    let now = crate::clock::now_utc_nanos();
    let r = format_age_at(created_at, now);
    assert(crate::date::valid_instant(now as int) && r@ == spec_age(whole_minutes(now - created_at) as i64));
    r
}

/// The dependency note of a row: nothing without dependencies; `(done/total)` for a
/// meta issue; otherwise `(deps:<total> open:<open>)`.
pub open spec fn spec_deps_info(x: Issue, open: nat) -> Seq<char> {
    let total = x.frontmatter.deps@.len();
    if total == 0 {
        Seq::<char>::empty()
    } else if x.frontmatter.issue_type == Some(IssueType::Meta) {
        " ("@ + dec((total - open) as nat) + "/"@ + dec(total) + ")"@
    } else {
        " (deps:"@ + dec(total) + " open:"@ + dec(open) + ")"@
    }
}

/// The dependency note of a row, given how many of the issue's dependencies are open.
pub fn deps_info(x: &Issue, open: usize) -> (r: String)
    requires
        open <= x.frontmatter.deps@.len(),
    ensures
        r@ == spec_deps_info(*x, open as nat),
{
    let total = x.frontmatter.deps.len();
    let mut r = String::new();
    if total == 0 {
        return r;
    }
    let meta = match x.frontmatter.issue_type {
        Some(IssueType::Meta) => true,
        _ => false,
    };
    if meta {
        push_str(&mut r, " (");
        push_u64(&mut r, (total - open) as u64);
        push_str(&mut r, "/");
        push_u64(&mut r, total as u64);
        push_str(&mut r, ")");
    } else {
        push_str(&mut r, " (deps:");
        push_u64(&mut r, total as u64);
        push_str(&mut r, " open:");
        push_u64(&mut r, open as u64);
        push_str(&mut r, ")");
    }
    r
}

/// The owner note of a row: for an issue in progress with an owner, the owner's first
/// twelve characters in parentheses.
pub open spec fn spec_owner_info(x: Issue) -> Seq<char> {
    match x.frontmatter.owner {
        Some(o) => if x.frontmatter.status == Status::Doing {
            " ("@ + o@.take(if o@.len() < 12 { o@.len() as int } else { 12 }) + ")"@
        } else {
            Seq::<char>::empty()
        },
        None => Seq::<char>::empty(),
    }
}

/// The owner note of a row.
pub fn owner_info(x: &Issue) -> (r: String)
    ensures
        r@ == spec_owner_info(*x),
{
    let mut r = String::new();
    match &x.frontmatter.owner {
        Some(o) => {
            if x.frontmatter.status == Status::Doing {
                let v = chars_of(o.as_str());
                let n = if v.len() < 12 { v.len() } else { 12 };
                push_str(&mut r, " (");
                let t = substring(&v, 0, n);
                push_str(&mut r, t.as_str());
                push_str(&mut r, ")");
                assert(v@.subrange(0, n as int) =~= o@.take(n as int));
            }
        },
        None => {},
    }
    r
}

/// The type column: `design`, `meta` or blank, eight wide.
pub open spec fn spec_type_col(x: Issue) -> Seq<char> {
    match x.frontmatter.issue_type {
        Some(IssueType::Design) => "design  "@,
        Some(IssueType::Meta) => "meta    "@,
        None => "        "@,
    }
}

/// The status column, five wide.
pub open spec fn spec_status_col(x: Issue) -> Seq<char> {
    match x.frontmatter.status {
        Status::Open => "open "@,
        Status::Doing => "doing"@,
        Status::Done => "done "@,
        Status::Skip => "skip "@,
    }
}

/// `s` padded on the left with spaces to width `w`.
pub open spec fn pad_left(s: Seq<char>, w: nat) -> Seq<char> {
    if s.len() >= w {
        s
    } else {
        Seq::new((w - s.len()) as nat, |i: int| ' ') + s
    }
}

/// The tags of a row: a space, then each tag after `#`, separated by spaces.
pub open spec fn spec_tags_col(tags: Seq<Seq<char>>) -> Seq<char> {
    if tags.len() == 0 {
        Seq::<char>::empty()
    } else {
        " "@ + join_seqs(tags.map_values(|t: Seq<char>| "#"@ + t), " "@)
    }
}

/// A listing row without colour: id, priority, age (right-aligned to four), type,
/// status, title, then the dependency note, the tags and the owner note.
pub open spec fn spec_row(x: Issue, age: Seq<char>, deps: Seq<char>) -> Seq<char> {
    x.frontmatter.id@ + "  "@ + x.frontmatter.priority.spec_text() + "  "@ + pad_left(age, 4)
        + "  "@ + spec_type_col(x) + spec_status_col(x) + "  "@ + x.frontmatter.title@ + deps
        + spec_tags_col(strings_view(x.frontmatter.tags@)) + spec_owner_info(x)
}

/// A listing row without colour, given the issue's age text and dependency note.
pub fn format_row(x: &Issue, age: &str, deps: &str) -> (r: String)
    ensures
        r@ == spec_row(*x, age@, deps@),
{
    let mut r = String::new();
    push_str(&mut r, x.frontmatter.id.as_str());
    push_str(&mut r, "  ");
    let p = x.frontmatter.priority.to_text();
    push_str(&mut r, p.as_str());
    push_str(&mut r, "  ");
    let a = chars_of(age);
    let mut k = a.len();
    while k < 4
        invariant
            a.len() <= k,
            a.len() <= 4 ==> k <= 4,
            k == a.len() || k <= 4,
            a@ == age@,
            r@ == (x.frontmatter.id@ + "  "@ + x.frontmatter.priority.spec_text() + "  "@) + Seq::new((k - a.len()) as nat, |i: int| ' '),
        decreases 4 - k,
    {
        push_char(&mut r, ' ');
        k += 1;
        assert(r@ =~= (x.frontmatter.id@ + "  "@ + x.frontmatter.priority.spec_text() + "  "@) + Seq::new((k - a.len()) as nat, |i: int| ' '));
    }
    push_str(&mut r, age);
    let ghost a0 = x.frontmatter.id@ + "  "@ + x.frontmatter.priority.spec_text() + "  "@;
    proof {
        if age@.len() < 4 {
            assert(k == 4);
            assert(r@ =~= a0 + pad_left(age@, 4));
        } else {
            assert(Seq::new((k - a.len()) as nat, |i: int| ' ') =~= Seq::<char>::empty());
            assert(r@ =~= a0 + pad_left(age@, 4));
        }
    }
    let ghost p1 = r@;
    push_str(&mut r, "  ");
    match x.frontmatter.issue_type {
        Some(IssueType::Design) => push_str(&mut r, "design  "),
        Some(IssueType::Meta) => push_str(&mut r, "meta    "),
        None => push_str(&mut r, "        "),
    }
    match x.frontmatter.status {
        Status::Open => push_str(&mut r, "open "),
        Status::Doing => push_str(&mut r, "doing"),
        Status::Done => push_str(&mut r, "done "),
        Status::Skip => push_str(&mut r, "skip "),
    }
    push_str(&mut r, "  ");
    push_str(&mut r, x.frontmatter.title.as_str());
    push_str(&mut r, deps);
    let ghost before_tags = r@;
    assert(before_tags =~= p1 + "  "@ + spec_type_col(*x) + spec_status_col(*x) + "  "@ + x.frontmatter.title@ + deps@);
    let tags = &x.frontmatter.tags;
    if tags.len() > 0 {
        push_str(&mut r, " ");
        let mut tagged: Vec<String> = Vec::new();
        let mut t: usize = 0;
        while t < tags.len()
            invariant
                t <= tags.len(),
                tagged@.map_values(|s: String| s@) == strings_view(tags@).take(t as int).map_values(|q: Seq<char>| "#"@ + q),
            decreases tags.len() - t,
        {
            let mut h = String::new();
            push_str(&mut h, "#");
            push_str(&mut h, tags[t].as_str());
            let ghost t0 = tagged@.map_values(|s: String| s@);
            assert(h@ == "#"@ + tags@[t as int]@);
            tagged.push(h);
            assert(tagged@.map_values(|s: String| s@) =~= t0.push(h@));
            assert(strings_view(tags@).take(t + 1) =~= strings_view(tags@).take(t as int).push(tags@[t as int]@));
            assert(tagged@.map_values(|s: String| s@) =~= strings_view(tags@).take(t + 1).map_values(|q: Seq<char>| "#"@ + q));
            t += 1;
        }
        assert(strings_view(tags@).take(tags.len() as int) =~= strings_view(tags@));
        let j = join_strings(tagged.as_slice(), " ");
        push_str(&mut r, j.as_str());
        assert(r@ =~= before_tags + spec_tags_col(strings_view(tags@)));
    } else {
        assert(r@ =~= before_tags + spec_tags_col(strings_view(tags@)));
    }
    let o = owner_info(x);
    push_str(&mut r, o.as_str());
    assert(r@ =~= spec_row(*x, age@, deps@));
    r
}

/// The terminal styles of a coloured listing row.
pub struct RowStyle {
    pub dim: String,
    pub underline: String,
    pub italic: String,
    pub bold: String,
    pub reset: String,
    pub red: String,
    pub yellow: String,
    pub cyan: String,
    pub magenta: String,
    pub color_reset: String,
}

/// A resolved issue (done or skipped) is shown dimmed.
pub open spec fn row_resolved(x: Issue) -> bool {
    x.frontmatter.status == Status::Done || x.frontmatter.status == Status::Skip
}

/// The style a row opens with: dim when resolved; otherwise underlined when in progress,
/// then italic for a design issue or bold for a meta issue.
pub open spec fn row_prefix(x: Issue, st: RowStyle) -> Seq<char> {
    if row_resolved(x) {
        st.dim@
    } else {
        (if x.frontmatter.status == Status::Doing {
            st.underline@
        } else {
            Seq::<char>::empty()
        }) + match x.frontmatter.issue_type {
            Some(IssueType::Design) => st.italic@,
            Some(IssueType::Meta) => st.bold@,
            None => Seq::<char>::empty(),
        }
    }
}

/// The priority column: red for P0 and yellow for P1 while the issue is not resolved.
pub open spec fn row_priority(x: Issue, st: RowStyle) -> Seq<char> {
    let p = x.frontmatter.priority.spec_text();
    if !row_resolved(x) && x.frontmatter.priority == Priority::P0 {
        st.red@ + p + st.color_reset@
    } else if !row_resolved(x) && x.frontmatter.priority == Priority::P1 {
        st.yellow@ + p + st.color_reset@
    } else {
        p
    }
}

/// The colour of a tag: red for `bug`, cyan otherwise.
pub open spec fn tag_color(t: Seq<char>, st: RowStyle) -> Seq<char> {
    if t == "bug"@ {
        st.red@
    } else {
        st.cyan@
    }
}

/// The coloured tags of a row.
pub open spec fn row_tags(tags: Seq<Seq<char>>, st: RowStyle) -> Seq<char> {
    if tags.len() == 0 {
        Seq::<char>::empty()
    } else {
        " "@ + join_seqs(tags.map_values(|t: Seq<char>| tag_color(t, st) + "#"@ + t + st.color_reset@), " "@)
    }
}

/// The reset after the title part, when the row opened with a style.
pub open spec fn row_reset(x: Issue, st: RowStyle) -> Seq<char> {
    if row_resolved(x) || x.frontmatter.status == Status::Doing || x.frontmatter.issue_type is Some {
        st.reset@
    } else {
        Seq::<char>::empty()
    }
}

/// The owner note in magenta.
pub open spec fn row_owner(x: Issue, st: RowStyle) -> Seq<char> {
    if spec_owner_info(x).len() > 0 {
        st.magenta@ + spec_owner_info(x) + st.reset@
    } else {
        Seq::<char>::empty()
    }
}

/// The columns between the priority and the tags: age (right-aligned to four), type,
/// status, title and the dependency note.
pub open spec fn row_middle(x: Issue, age: Seq<char>, deps: Seq<char>) -> Seq<char> {
    "  "@ + pad_left(age, 4) + "  "@ + spec_type_col(x) + spec_status_col(x) + "  "@
        + x.frontmatter.title@ + deps
}

/// A coloured listing row: the plain row's columns with the styles put around them.
pub open spec fn spec_styled_row(x: Issue, age: Seq<char>, deps: Seq<char>, st: RowStyle) -> Seq<char> {
    row_prefix(x, st) + x.frontmatter.id@ + "  "@ + row_priority(x, st) + row_middle(x, age, deps)
        + row_tags(strings_view(x.frontmatter.tags@), st) + row_reset(x, st) + row_owner(x, st)
}

fn middle_of(x: &Issue, age: &str, deps: &str) -> (r: String)
    ensures
        r@ == row_middle(*x, age@, deps@),
{
    let mut r = String::new();
    push_str(&mut r, "  ");
    proof {
        reveal_strlit("  ");
    }
    let a = chars_of(age);
    let mut k = a.len();
    while k < 4
        invariant
            a.len() <= k,
            a.len() <= 4 ==> k <= 4,
            k == a.len() || k <= 4,
            a@ == age@,
            r@ == "  "@ + Seq::new((k - a.len()) as nat, |i: int| ' '),
        decreases 4 - k,
    {
        push_char(&mut r, ' ');
        k += 1;
        assert(r@ =~= "  "@ + Seq::new((k - a.len()) as nat, |i: int| ' '));
    }
    push_str(&mut r, age);
    proof {
        if age@.len() < 4 {
            assert(r@ =~= "  "@ + pad_left(age@, 4));
        } else {
            assert(Seq::new((k - a.len()) as nat, |i: int| ' ') =~= Seq::<char>::empty());
            assert(r@ =~= "  "@ + pad_left(age@, 4));
        }
    }
    let ghost p1 = r@;
    push_str(&mut r, "  ");
    match x.frontmatter.issue_type {
        Some(IssueType::Design) => push_str(&mut r, "design  "),
        Some(IssueType::Meta) => push_str(&mut r, "meta    "),
        None => push_str(&mut r, "        "),
    }
    match x.frontmatter.status {
        Status::Open => push_str(&mut r, "open "),
        Status::Doing => push_str(&mut r, "doing"),
        Status::Done => push_str(&mut r, "done "),
        Status::Skip => push_str(&mut r, "skip "),
    }
    push_str(&mut r, "  ");
    push_str(&mut r, x.frontmatter.title.as_str());
    push_str(&mut r, deps);
    assert(r@ =~= row_middle(*x, age@, deps@));
    r
}

fn styled_tags(tags: &Vec<String>, st: &RowStyle) -> (r: String)
    ensures
        r@ == row_tags(strings_view(tags@), *st),
{
    let mut r = String::new();
    if tags.len() == 0 {
        assert(r@ =~= row_tags(strings_view(tags@), *st));
        return r;
    }
    push_str(&mut r, " ");
    let mut pieces: Vec<String> = Vec::new();
    let mut t: usize = 0;
    while t < tags.len()
        invariant
            t <= tags.len(),
            pieces@.map_values(|s: String| s@) == strings_view(tags@).take(t as int).map_values(
                |q: Seq<char>| tag_color(q, *st) + "#"@ + q + st.color_reset@,
            ),
        decreases tags.len() - t,
    {
        let mut h = String::new();
        if str_eq(tags[t].as_str(), "bug") {
            push_str(&mut h, st.red.as_str());
        } else {
            push_str(&mut h, st.cyan.as_str());
        }
        push_str(&mut h, "#");
        push_str(&mut h, tags[t].as_str());
        push_str(&mut h, st.color_reset.as_str());
        let ghost t0 = pieces@.map_values(|s: String| s@);
        assert(h@ == tag_color(tags@[t as int]@, *st) + "#"@ + tags@[t as int]@ + st.color_reset@);
        pieces.push(h);
        assert(pieces@.map_values(|s: String| s@) =~= t0.push(h@));
        assert(strings_view(tags@).take(t + 1) =~= strings_view(tags@).take(t as int).push(
            tags@[t as int]@,
        ));
        assert(pieces@.map_values(|s: String| s@) =~= strings_view(tags@).take(t + 1).map_values(
            |q: Seq<char>| tag_color(q, *st) + "#"@ + q + st.color_reset@,
        ));
        t += 1;
    }
    assert(strings_view(tags@).take(tags.len() as int) =~= strings_view(tags@));
    let j = join_strings(pieces.as_slice(), " ");
    push_str(&mut r, j.as_str());
    assert(r@ =~= row_tags(strings_view(tags@), *st));
    r
}

/// A coloured listing row, given the issue's age text and dependency note.
pub fn format_row_styled(x: &Issue, age: &str, deps: &str, st: &RowStyle) -> (r: String)
    ensures
        r@ == spec_styled_row(*x, age@, deps@, *st),
{
    let resolved = match x.frontmatter.status {
        Status::Done | Status::Skip => true,
        _ => false,
    };
    let doing = match x.frontmatter.status {
        Status::Doing => true,
        _ => false,
    };
    let mut r = String::new();
    if resolved {
        push_str(&mut r, st.dim.as_str());
    } else {
        if doing {
            push_str(&mut r, st.underline.as_str());
        }
        match x.frontmatter.issue_type {
            Some(IssueType::Design) => push_str(&mut r, st.italic.as_str()),
            Some(IssueType::Meta) => push_str(&mut r, st.bold.as_str()),
            None => {},
        }
    }
    assert(r@ =~= row_prefix(*x, *st));
    push_str(&mut r, x.frontmatter.id.as_str());
    push_str(&mut r, "  ");
    let p = x.frontmatter.priority.to_text();
    let ghost r1 = r@;
    if !resolved && x.frontmatter.priority == Priority::P0 {
        push_str(&mut r, st.red.as_str());
        push_str(&mut r, p.as_str());
        push_str(&mut r, st.color_reset.as_str());
    } else if !resolved && x.frontmatter.priority == Priority::P1 {
        push_str(&mut r, st.yellow.as_str());
        push_str(&mut r, p.as_str());
        push_str(&mut r, st.color_reset.as_str());
    } else {
        push_str(&mut r, p.as_str());
    }
    assert(r@ =~= r1 + row_priority(*x, *st));
    let m = middle_of(x, age, deps);
    push_str(&mut r, m.as_str());
    let tg = styled_tags(&x.frontmatter.tags, st);
    push_str(&mut r, tg.as_str());
    if resolved || doing || x.frontmatter.issue_type.is_some() {
        push_str(&mut r, st.reset.as_str());
    }
    let o = owner_info(x);
    if o.as_str().is_empty() {
    } else {
        push_str(&mut r, st.magenta.as_str());
        push_str(&mut r, o.as_str());
        push_str(&mut r, st.reset.as_str());
    }
    assert(r@ =~= spec_styled_row(*x, age@, deps@, *st));
    r
}

/// The note after the open issues when some are held back: `... +<n> more open`.
pub fn more_open_line(hidden: usize) -> (r: String)
    ensures
        r@ == "... +"@ + dec(hidden as nat) + " more open"@,
{
    let mut r = String::new();
    push_str(&mut r, "... +");
    push_u64(&mut r, hidden as u64);
    push_str(&mut r, " more open");
    r
}

/// The name of the resolved section in its note: the filtered status, or `resolved`.
pub open spec fn resolved_name(status_filter: Option<Status>) -> Seq<char> {
    match status_filter {
        Some(Status::Done) => "done"@,
        Some(Status::Skip) => "skip"@,
        _ => "resolved"@,
    }
}

/// The note after the resolved issues when some are held back:
/// `... +<n> more <name> (--all to show all)`.
pub fn more_resolved_line(hidden: usize, status_filter: Option<Status>) -> (r: String)
    ensures
        r@ == "... +"@ + dec(hidden as nat) + " more "@ + resolved_name(status_filter)
            + " (--all to show all)"@,
{
    let mut r = String::new();
    push_str(&mut r, "... +");
    push_u64(&mut r, hidden as u64);
    push_str(&mut r, " more ");
    match status_filter {
        Some(Status::Done) => push_str(&mut r, "done"),
        Some(Status::Skip) => push_str(&mut r, "skip"),
        _ => push_str(&mut r, "resolved"),
    }
    push_str(&mut r, " (--all to show all)");
    r
}

/// The totals line: the issues still open (in progress included), then the non-zero
/// counts in progress, done and skipped, separated by ` | `.
pub open spec fn spec_summary(open: nat, doing: nat, done: nat, skip: nat) -> Seq<char> {
    "open: "@ + dec(open + doing) + (if doing > 0 { " | doing: "@ + dec(doing) } else { Seq::<char>::empty() })
        + (if done > 0 { " | done: "@ + dec(done) } else { Seq::<char>::empty() })
        + (if skip > 0 { " | skip: "@ + dec(skip) } else { Seq::<char>::empty() })
}

/// The totals line of a listing (the time taken is added by the caller).
pub fn summary_line(l: &Listing) -> (r: String)
    requires
        l.total_open + l.total_doing <= u64::MAX,
    ensures
        r@ == spec_summary(l.total_open as nat, l.total_doing as nat, l.total_done as nat, l.total_skip as nat),
{
    let mut r = String::new();
    push_str(&mut r, "open: ");
    push_u64(&mut r, l.total_open as u64 + l.total_doing as u64);
    if l.total_doing > 0 {
        push_str(&mut r, " | doing: ");
        push_u64(&mut r, l.total_doing as u64);
    }
    if l.total_done > 0 {
        push_str(&mut r, " | done: ");
        push_u64(&mut r, l.total_done as u64);
    }
    if l.total_skip > 0 {
        push_str(&mut r, " | skip: ");
        push_u64(&mut r, l.total_skip as u64);
    }
    assert(r@ =~= spec_summary(l.total_open as nat, l.total_doing as nat, l.total_done as nat, l.total_skip as nat));
    r
}

} // verus!
