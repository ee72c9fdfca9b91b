//! Dependency graph operations: derived readiness, reachability and cycle detection.
//!
//! The graph has one node per id; issue `a` has an edge to every id in its dependency list.
//! Ids that name no issue are nodes without outgoing edges.

use vstd::prelude::*;

use crate::issue::{lemma_before_order, 
    deps_of, find_index, has_id, id_of, ids_unique, strings_view, Issue, IssueMap, Status,
};
use crate::text::{compare_str, lemma_seq_lt_irrefl, lemma_seq_lt_total, lemma_seq_lt_trans, seq_lt, str_eq, to_owned_string};

verus! {

/// Derived information about an issue's dependency state.
#[derive(Debug, Clone)]
pub struct DerivedState {
    /// whether the issue is ready to work on
    pub is_ready: bool,
    /// dependencies that are not yet done
    pub open_deps: Vec<String>,
    /// dependencies that don't exist
    pub missing_deps: Vec<String>,
    /// whether the issue is blocked (not ready due to deps)
    pub is_blocked: bool,
}

/// Some issue with id `k` exists and is not resolved.
pub open spec fn is_open_dep(g: Seq<Issue>, k: Seq<char>) -> bool {
    exists|i: int| 0 <= i < g.len() && id_of(g[i]) == k && !g[i].frontmatter.status.spec_is_resolved()
}

/// The dependencies in `d` that name an unresolved issue, in order.
pub open spec fn open_deps_of(g: Seq<Issue>, d: Seq<Seq<char>>) -> Seq<Seq<char>>
    decreases d.len(),
{
    if d.len() == 0 {
        Seq::<Seq<char>>::empty()
    } else {
        let prev = open_deps_of(g, d.drop_last());
        if has_id(g, d.last()) && is_open_dep(g, d.last()) {
            prev.push(d.last())
        } else {
            prev
        }
    }
}

/// The dependencies in `d` that name no issue, in order.
pub open spec fn missing_deps_of(g: Seq<Issue>, d: Seq<Seq<char>>) -> Seq<Seq<char>>
    decreases d.len(),
{
    if d.len() == 0 {
        Seq::<Seq<char>>::empty()
    } else {
        let prev = missing_deps_of(g, d.drop_last());
        if !has_id(g, d.last()) {
            prev.push(d.last())
        } else {
            prev
        }
    }
}

/// An issue is ready when it is open and every dependency exists and is resolved.
pub open spec fn spec_is_ready(g: Seq<Issue>, x: Issue) -> bool {
    &&& x.frontmatter.status == Status::Open
    &&& open_deps_of(g, deps_of(x)).len() == 0
    &&& missing_deps_of(g, deps_of(x)).len() == 0
}

/// Computes the derived state of `issue` against all issues.
pub fn compute_derived(issue: &Issue, all_issues: &IssueMap) -> (r: DerivedState)
    requires
        all_issues.wf(),
    ensures
        strings_view(r.open_deps@) == open_deps_of(all_issues@, deps_of(*issue)),
        strings_view(r.missing_deps@) == missing_deps_of(all_issues@, deps_of(*issue)),
        r.is_ready == spec_is_ready(all_issues@, *issue),
        r.is_blocked == (issue.frontmatter.status == Status::Open && !spec_is_ready(
            all_issues@,
            *issue,
        )),
{
    let g = all_issues.values();
    let deps = issue.deps();
    let ghost d = deps_of(*issue);
    let mut open_deps: Vec<String> = Vec::new();
    let mut missing_deps: Vec<String> = Vec::new();
    let mut k: usize = 0;
    while k < deps.len()
        invariant
            g@ == all_issues@,
            ids_unique(g@),
            deps@ == issue.frontmatter.deps@,
            d == deps_of(*issue),
            d.len() == deps.len(),
            k <= deps.len(),
            strings_view(open_deps@) == open_deps_of(g@, d.take(k as int)),
            strings_view(missing_deps@) == missing_deps_of(g@, d.take(k as int)),
        decreases deps.len() - k,
    {
        assert(d.take(k + 1).drop_last() =~= d.take(k as int));
        assert(d.take(k + 1).last() == deps@[k as int]@);
        match find_index(g, deps[k].as_str()) {
            Some(i) => {
                if !g[i].frontmatter.status.is_resolved() {
                    open_deps.push(to_owned_string(deps[k].as_str()));
                    assert(strings_view(open_deps@) =~= strings_view(open_deps@.drop_last()).push(
                        deps@[k as int]@,
                    ));
                } else {
                    assert(!is_open_dep(g@, deps@[k as int]@));
                }
            },
            None => {
                missing_deps.push(to_owned_string(deps[k].as_str()));
                assert(strings_view(missing_deps@) =~= strings_view(missing_deps@.drop_last()).push(
                    deps@[k as int]@,
                ));
            },
        }
        k += 1;
    }
    assert(d.take(deps.len() as int) =~= d);
    let open = match issue.status() {
        Status::Open => true,
        _ => false,
    };
    let is_ready = open && open_deps.len() == 0 && missing_deps.len() == 0;
    let is_blocked = open && (open_deps.len() != 0 || missing_deps.len() != 0);
    DerivedState { is_ready, open_deps, missing_deps, is_blocked }
}


/// Issue `a` exists and lists `b` among its dependencies.
pub open spec fn edge(g: Seq<Issue>, a: Seq<char>, b: Seq<char>) -> bool {
    exists|i: int| 0 <= i < g.len() && id_of(g[i]) == a && deps_of(g[i]).contains(b)
}

/// The `k`-th step of `p` is an edge.
pub open spec fn step(g: Seq<Issue>, p: Seq<Seq<char>>, k: int) -> bool {
    edge(g, p[k], p[k + 1])
}

/// `p` is a non-empty sequence of ids each linked to the next by an edge.
pub open spec fn is_walk(g: Seq<Issue>, p: Seq<Seq<char>>) -> bool {
    &&& p.len() >= 1
    &&& forall|k: int| 0 <= k < p.len() - 1 ==> #[trigger] step(g, p, k)
}

/// Some walk leads from `a` to `b` (every id reaches itself).
pub open spec fn reaches(g: Seq<Issue>, a: Seq<char>, b: Seq<char>) -> bool {
    exists|p: Seq<Seq<char>>| is_walk(g, p) && p[0] == a && p.last() == b
}

/// Number of unvisited entries.
pub open spec fn count_false(s: Seq<bool>) -> nat
    decreases s.len(),
{
    if s.len() == 0 {
        0
    } else {
        count_false(s.drop_last()) + if s.last() {
            0nat
        } else {
            1nat
        }
    }
}

/// `b` has every visited entry of `a`, and the same length.
pub open spec fn grows(a: Seq<bool>, b: Seq<bool>) -> bool {
    &&& a.len() == b.len()
    &&& forall|j: int| 0 <= j < a.len() && a[j] ==> b[j]
}

proof fn lemma_count_false_grows(a: Seq<bool>, b: Seq<bool>)
    requires
        grows(a, b),
    ensures
        count_false(b) <= count_false(a),
        (exists|j: int| 0 <= j < a.len() && !a[j] && b[j]) ==> count_false(b) < count_false(a),
    decreases a.len(),
{
    if a.len() > 0 {
        lemma_count_false_grows(a.drop_last(), b.drop_last());
        if exists|j: int| 0 <= j < a.len() && !a[j] && b[j] {
            let j = choose|j: int| 0 <= j < a.len() && !a[j] && b[j];
            if j < a.len() - 1 {
                assert(!a.drop_last()[j] && b.drop_last()[j]);
            }
        }
    }
}

/// Prepending an edge to a walk gives a walk.
proof fn lemma_walk_prepend(g: Seq<Issue>, a: Seq<char>, p: Seq<Seq<char>>)
    requires
        is_walk(g, p),
        edge(g, a, p[0]),
    ensures
        is_walk(g, seq![a] + p),
{
    let q = seq![a] + p;
    assert forall|k: int| 0 <= k < q.len() - 1 implies #[trigger] step(g, q, k) by {
        if k > 0 {
            assert(step(g, p, k - 1));
            assert(q[k] == p[k - 1] && q[k + 1] == p[k]);
        }
    }
}

/// A dependency `e` is settled for the search toward `to`: it is not `to`, and if it
/// names an issue, that issue has been visited.
pub open spec fn dep_ok(g: Seq<Issue>, to: Seq<char>, vis: Seq<bool>, e: Seq<char>) -> bool {
    &&& e != to
    &&& forall|j: int| 0 <= j < g.len() && id_of(g[j]) == e ==> vis[j]
}

/// Every dependency of issue `i` is settled.
pub open spec fn node_closed(g: Seq<Issue>, to: Seq<char>, vis: Seq<bool>, i: int) -> bool {
    forall|k: int| 0 <= k < deps_of(g[i]).len() ==> dep_ok(g, to, vis, #[trigger] deps_of(g[i])[k])
}

/// Every visited issue off the search stack has all its dependencies settled.
pub open spec fn closed(g: Seq<Issue>, to: Seq<char>, vis: Seq<bool>, stk: Set<int>) -> bool {
    forall|i: int|
        0 <= i < g.len() && vis[i] && !stk.contains(i) ==> #[trigger] node_closed(g, to, vis, i)
}

proof fn lemma_closed_grows(
    g: Seq<Issue>,
    to: Seq<char>,
    vis: Seq<bool>,
    vis2: Seq<bool>,
    stk: Set<int>,
    stk2: Set<int>,
)
    requires
        closed(g, to, vis, stk),
        grows(vis, vis2),
        vis.len() == g.len(),
        forall|i: int| 0 <= i < g.len() && vis2[i] && !stk2.contains(i) ==> vis[i] && !stk.contains(i),
    ensures
        closed(g, to, vis2, stk2),
{
    assert forall|i: int| 0 <= i < g.len() && vis2[i] && !stk2.contains(i) implies #[trigger] node_closed(
        g,
        to,
        vis2,
        i,
    ) by {
        assert(node_closed(g, to, vis, i));
        assert forall|k: int| 0 <= k < deps_of(g[i]).len() implies dep_ok(
            g,
            to,
            vis2,
            #[trigger] deps_of(g[i])[k],
        ) by {
            assert(dep_ok(g, to, vis, deps_of(g[i])[k]));
        }
    }
}

/// The views of a vector of strings.
pub open spec fn path_view(p: Seq<String>) -> Seq<Seq<char>> {
    strings_view(p)
}

/// Depth-first search: whether `to` is reachable from `from`, extending `path` with the
/// walk found.
fn can_reach(
    from: &String,
    to: &str,
    g: &[Issue],
    vis: &mut Vec<bool>,
    path: &mut Vec<String>,
    Ghost(stk): Ghost<Set<int>>,
) -> (r: bool)
    requires
        ids_unique(g@),
        old(vis).len() == g.len(),
        closed(g@, to@, old(vis)@, stk),
        forall|j: int| stk.contains(j) ==> 0 <= j < g.len() && old(vis)@[j],
    ensures
        grows(old(vis)@, final(vis)@),
        r ==> {
            let p = path_view(final(path)@);
            let q = seq![from@] + p.skip(old(path)@.len() as int);
            &&& p.len() >= old(path)@.len()
            &&& p.take(old(path)@.len() as int) == path_view(old(path)@)
            &&& is_walk(g@, q)
            &&& q.last() == to@
        },
        !r ==> {
            &&& final(path)@ == old(path)@
            &&& closed(g@, to@, final(vis)@, stk)
            &&& from@ != to@
            &&& forall|j: int| 0 <= j < g.len() && id_of(g@[j]) == from@ ==> final(vis)@[j]
        },
    decreases count_false(old(vis)@),
{
    if str_eq(from.as_str(), to) {
        assert(path_view(path@).skip(path@.len() as int) =~= Seq::<Seq<char>>::empty());
        assert(path_view(path@).take(path@.len() as int) =~= path_view(path@));
        assert(seq![from@] + Seq::<Seq<char>>::empty() =~= seq![from@]);
        return true;
    }
    let i = match find_index(g, from.as_str()) {
        Some(i) => i,
        None => {
            return false;
        },
    };
    if vis[i] {
        return false;
    }
    let ghost vis0 = vis@;
    let ghost path0 = path@;
    vis.set(i, true);
    let ghost stk2 = stk.insert(i as int);
    proof {
        lemma_closed_grows(g@, to@, vis0, vis@, stk, stk2);
        lemma_count_false_grows(vis0, vis@);
    }
    let deps = g[i].deps();
    let ghost d = deps_of(g@[i as int]);
    let mut k: usize = 0;
    while k < deps.len()
        invariant
            ids_unique(g@),
            0 <= i < g.len(),
            id_of(g@[i as int]) == from@,
            from@ != to@,
            deps@ == g@[i as int].frontmatter.deps@,
            d == deps_of(g@[i as int]),
            d.len() == deps.len(),
            k <= deps.len(),
            vis.len() == g.len(),
            grows(vis0, vis@),
            vis0 == old(vis)@,
            vis@[i as int],
            !vis0[i as int],
            count_false(vis@) < count_false(vis0),
            path@ == path0,
            path0 == old(path)@,
            closed(g@, to@, vis@, stk2),
            stk2 == stk.insert(i as int),
            forall|j: int| stk2.contains(j) ==> 0 <= j < g.len() && vis@[j],
            forall|kk: int| 0 <= kk < k ==> dep_ok(g@, to@, vis@, #[trigger] d[kk]),
        decreases deps.len() - k,
    {
        let ghost vis1 = vis@;
        path.push(to_owned_string(deps[k].as_str()));
        let ghost pushed = path@;
        assert(d[k as int] == deps@[k as int]@);
        assert(path_view(pushed) =~= path_view(path0).push(d[k as int]));
        let found = can_reach(&deps[k], to, g, vis, path, Ghost(stk2));
        proof {
            lemma_count_false_grows(vis1, vis@);
        }
        if found {
            proof {
                let p = path_view(path@);
                let n0 = path0.len() as int;
                let q1 = seq![d[k as int]] + p.skip(n0 + 1);
                assert(p.take(n0 + 1) == path_view(pushed));
                assert(d.contains(d[k as int]));
                assert(edge(g@, from@, q1[0]));
                lemma_walk_prepend(g@, from@, q1);
                assert(p.skip(n0) =~= seq![d[k as int]] + p.skip(n0 + 1)) by {
                    assert(p.take(n0 + 1)[n0] == d[k as int]);
                }
                assert(seq![from@] + p.skip(n0) =~= seq![from@] + q1);
                assert(p.take(n0) =~= p.take(n0 + 1).take(n0));
                assert(path_view(pushed).take(n0) =~= path_view(path0));
            }
            return true;
        }
        path.pop();
        proof {
            assert(path@ =~= path0);
            assert forall|kk: int| 0 <= kk <= k implies dep_ok(g@, to@, vis@, #[trigger] d[kk]) by {
                if kk < k {
                    assert(dep_ok(g@, to@, vis1, d[kk]));
                }
            }
        }
        k += 1;
    }
    proof {
        assert(node_closed(g@, to@, vis@, i as int));
        assert forall|ii: int| 0 <= ii < g.len() && vis@[ii] && !stk.contains(ii) implies #[trigger] node_closed(
            g@,
            to@,
            vis@,
            ii,
        ) by {
            if ii != i {
                assert(!stk2.contains(ii));
            }
        }
    }
    false
}

/// Whether adding a dependency from `child` on `parent` would create a cycle; if so, the
/// cycle `[child, parent, ..., child]`.
pub fn would_create_cycle(child_id: &str, parent_id: &str, issues: &IssueMap) -> (r: Option<
    Vec<String>,
>)
    requires
        issues.wf(),
    ensures
        r.is_none() <==> !reaches(issues@, parent_id@, child_id@),
        r matches Some(p) ==> {
            let v = path_view(p@);
            &&& v.len() >= 2
            &&& v[0] == child_id@
            &&& v[1] == parent_id@
            &&& is_walk(issues@, v.skip(1))
            &&& v.last() == child_id@
        },
{
    let g = issues.values();
    let mut vis: Vec<bool> = Vec::new();
    let mut n: usize = 0;
    while n < g.len()
        invariant
            n <= g.len(),
            vis.len() == n,
            forall|j: int| 0 <= j < n ==> !vis@[j],
        decreases g.len() - n,
    {
        vis.push(false);
        n += 1;
    }
    let parent = to_owned_string(parent_id);
    let mut path: Vec<String> = Vec::new();
    path.push(to_owned_string(child_id));
    path.push(to_owned_string(parent_id));
    let ghost vis0 = vis@;
    let found = can_reach(&parent, child_id, g, &mut vis, &mut path, Ghost(Set::<int>::empty()));
    if found {
        proof {
            let v = path_view(path@);
            assert(v.take(2)[0] == child_id@ && v.take(2)[1] == parent_id@);
            assert(v.skip(1) =~= seq![parent_id@] + v.skip(2));
            assert(is_walk(g@, v.skip(1)));
            assert(reaches(g@, parent_id@, child_id@));
        }
        Some(path)
    } else {
        proof {
            lemma_no_walk(g@, child_id@, vis@, parent_id@);
        }
        None
    }
}

/// When the search toward `to` has settled `from` and closed every visited issue, no walk
/// from `from` reaches `to`.
proof fn lemma_no_walk(g: Seq<Issue>, to: Seq<char>, vis: Seq<bool>, from: Seq<char>)
    requires
        vis.len() == g.len(),
        closed(g, to, vis, Set::<int>::empty()),
        from != to,
        forall|j: int| 0 <= j < g.len() && id_of(g[j]) == from ==> vis[j],
    ensures
        !reaches(g, from, to),
{
    assert forall|p: Seq<Seq<char>>| is_walk(g, p) && p[0] == from implies p.last() != to by {
        assert forall|k: int| 0 <= k < p.len() implies #[trigger] p[k] != to && (forall|j: int|
            0 <= j < g.len() && id_of(g[j]) == p[k] ==> vis[j]) by {
            lemma_walk_settled(g, to, vis, from, p, k);
        }
        assert(p[p.len() - 1] != to);
    }
}

proof fn lemma_walk_settled(
    g: Seq<Issue>,
    to: Seq<char>,
    vis: Seq<bool>,
    from: Seq<char>,
    p: Seq<Seq<char>>,
    k: int,
)
    requires
        vis.len() == g.len(),
        closed(g, to, vis, Set::<int>::empty()),
        from != to,
        forall|j: int| 0 <= j < g.len() && id_of(g[j]) == from ==> vis[j],
        is_walk(g, p),
        p[0] == from,
        0 <= k < p.len(),
    ensures
        p[k] != to,
        forall|j: int| 0 <= j < g.len() && id_of(g[j]) == p[k] ==> vis[j],
    decreases k,
{
    if k > 0 {
        lemma_walk_settled(g, to, vis, from, p, k - 1);
        assert(step(g, p, k - 1));
        let i = choose|i: int|
            0 <= i < g.len() && id_of(g[i]) == p[k - 1] && deps_of(g[i]).contains(p[k]);
        assert(node_closed(g, to, vis, i));
        let kk = choose|kk: int| 0 <= kk < deps_of(g[i]).len() && deps_of(g[i])[kk] == p[k];
        assert(dep_ok(g, to, vis, deps_of(g[i])[kk]));
    }
}


/// A closed walk of at least one step.
pub open spec fn is_cycle(g: Seq<Issue>, c: Seq<Seq<char>>) -> bool {
    &&& is_walk(g, c)
    &&& c.len() >= 2
    &&& c[0] == c.last()
}

/// The dependency graph has no cycle.
pub open spec fn acyclic(g: Seq<Issue>) -> bool {
    forall|c: Seq<Seq<char>>| !is_cycle(g, c)
}

/// Every listed path is a cycle.
pub open spec fn all_cycles(g: Seq<Issue>, cs: Seq<Vec<String>>) -> bool {
    forall|i: int| 0 <= i < cs.len() ==> is_cycle(g, #[trigger] path_view(cs[i]@))
}

/// Issue `j` has been fully explored.
pub open spec fn done(vis: Seq<bool>, stk: Seq<bool>, j: int) -> bool {
    vis[j] && !stk[j]
}

/// Every issue named `e` is explored and finished before issue `i`.
pub open spec fn dep_done(
    g: Seq<Issue>,
    vis: Seq<bool>,
    stk: Seq<bool>,
    ft: Seq<int>,
    i: int,
    e: Seq<char>,
) -> bool {
    forall|j: int| 0 <= j < g.len() && id_of(g[j]) == e ==> done(vis, stk, j) && ft[j] < ft[i]
}

/// All dependencies of issue `i` finished before it.
pub open spec fn node_ranked(
    g: Seq<Issue>,
    vis: Seq<bool>,
    stk: Seq<bool>,
    ft: Seq<int>,
    i: int,
) -> bool {
    forall|k: int|
        0 <= k < deps_of(g[i]).len() ==> dep_done(g, vis, stk, ft, i, #[trigger] deps_of(g[i])[k])
}

/// Every finished issue has all its dependencies finished before it.
pub open spec fn ranked(g: Seq<Issue>, vis: Seq<bool>, stk: Seq<bool>, ft: Seq<int>) -> bool {
    forall|i: int| 0 <= i < g.len() && done(vis, stk, i) ==> #[trigger] node_ranked(g, vis, stk, ft, i)
}

/// Every finished issue has a finishing time below `t`.
pub open spec fn below(vis: Seq<bool>, stk: Seq<bool>, ft: Seq<int>, t: int) -> bool {
    forall|j: int| 0 <= j < vis.len() && done(vis, stk, j) ==> ft[j] < t
}

/// Position of `e` in `path`, if present.
fn position_in(path: &Vec<String>, e: &String) -> (r: Option<usize>)
    ensures
        r matches Some(s) ==> s < path.len() && path@[s as int]@ == e@,
        r is None ==> !path_view(path@).contains(e@),
{
    let mut s: usize = 0;
    while s < path.len()
        invariant
            s <= path.len(),
            forall|q: int| 0 <= q < s ==> path@[q]@ != e@,
        decreases path.len() - s,
    {
        if str_eq(path[s].as_str(), e.as_str()) {
            return Some(s);
        }
        s += 1;
    }
    proof {
        if path_view(path@).contains(e@) {
            let q = choose|q: int| 0 <= q < path_view(path@).len() && path_view(path@)[q] == e@;
            assert(path@[q]@ == e@);
        }
    }
    None
}

/// A contiguous piece of a walk is a walk.
proof fn lemma_walk_subrange(g: Seq<Issue>, p: Seq<Seq<char>>, a: int, b: int)
    requires
        is_walk(g, p),
        0 <= a < b <= p.len(),
    ensures
        is_walk(g, p.subrange(a, b)),
{
    let q = p.subrange(a, b);
    assert forall|k: int| 0 <= k < q.len() - 1 implies #[trigger] step(g, q, k) by {
        assert(step(g, p, a + k));
    }
}

/// Depth-first search from issue `i` recording every back edge as a cycle.
fn find_cycles_dfs(
    i: usize,
    g: &[Issue],
    vis: &mut Vec<bool>,
    stk: &mut Vec<bool>,
    path: &mut Vec<String>,
    cycles: &mut Vec<Vec<String>>,
    Ghost(ft): Ghost<Seq<int>>,
    Ghost(t): Ghost<int>,
) -> (res: Ghost<(Seq<int>, int)>)
    requires
        ids_unique(g@),
        i < g.len(),
        old(vis).len() == g.len(),
        old(stk).len() == g.len(),
        ft.len() == g.len(),
        !old(vis)@[i as int],
        forall|j: int| 0 <= j < g.len() && old(stk)@[j] ==> old(vis)@[j],
        forall|j: int|
            0 <= j < g.len() && old(stk)@[j] ==> path_view(old(path)@).contains(id_of(g@[j])),
        is_walk(g@, path_view(old(path)@).push(id_of(g@[i as int]))),
        all_cycles(g@, old(cycles)@),
        old(cycles)@.len() == 0 ==> ranked(g@, old(vis)@, old(stk)@, ft) && below(
            old(vis)@,
            old(stk)@,
            ft,
            t,
        ),
    ensures
        grows(old(vis)@, final(vis)@),
        final(stk)@ == old(stk)@,
        final(path)@ == old(path)@,
        res@.0.len() == g.len(),
        res@.1 >= t,
        forall|j: int|
            0 <= j < g.len() && done(old(vis)@, old(stk)@, j) ==> done(final(vis)@, final(stk)@, j)
                && res@.0[j] == ft[j],
        done(final(vis)@, final(stk)@, i as int),
        all_cycles(g@, final(cycles)@),
        final(cycles)@.len() >= old(cycles)@.len(),
        final(cycles)@.len() == 0 ==> ranked(g@, final(vis)@, final(stk)@, res@.0) && below(
            final(vis)@,
            final(stk)@,
            res@.0,
            res@.1,
        ),
    decreases count_false(old(vis)@),
{
    let ghost vis0 = vis@;
    let ghost stk0 = stk@;
    let ghost path0 = path@;
    let ghost c0 = cycles@.len();
    vis.set(i, true);
    stk.set(i, true);
    path.push(to_owned_string(g[i].frontmatter.id.as_str()));
    let ghost pushed = path@;
    let ghost mut ftc = ft;
    let ghost mut tc = t;
    proof {
        assert(vis@ == vis0.update(i as int, true));
        assert(stk@ == stk0.update(i as int, true));
        lemma_count_false_grows(vis0, vis@);
        assert(path_view(path@) =~= path_view(path0).push(id_of(g@[i as int])));
        assert forall|j: int| 0 <= j < g.len() && stk@[j] implies path_view(path@).contains(
            id_of(g@[j]),
        ) by {
            if j == i {
                assert(path_view(path@)[path0.len() as int] == id_of(g@[i as int]));
            } else {
                let q = choose|q: int|
                    0 <= q < path_view(path0).len() && path_view(path0)[q] == id_of(g@[j]);
                assert(path_view(path@)[q] == id_of(g@[j]));
            }
        }
        if c0 == 0 {
            assert forall|ii: int| 0 <= ii < g.len() && done(vis@, stk@, ii) implies #[trigger] node_ranked(
                g@,
                vis@,
                stk@,
                ftc,
                ii,
            ) by {
                assert(node_ranked(g@, vis0, stk0, ft, ii));
                assert forall|k: int| 0 <= k < deps_of(g@[ii]).len() implies dep_done(
                    g@,
                    vis@,
                    stk@,
                    ftc,
                    ii,
                    #[trigger] deps_of(g@[ii])[k],
                ) by {
                    assert(dep_done(g@, vis0, stk0, ft, ii, deps_of(g@[ii])[k]));
                    assert forall|j: int|
                        0 <= j < g.len() && id_of(g@[j]) == deps_of(g@[ii])[k] implies done(
                        vis@,
                        stk@,
                        j,
                    ) && ftc[j] < ftc[ii] by {
                        assert(done(vis0, stk0, j));
                    }
                }
            }
            assert forall|j: int| 0 <= j < vis@.len() && done(vis@, stk@, j) implies ftc[j] < tc by {
                assert(j != i);
                assert(done(vis0, stk0, j));
            }
        }
    }
    let deps = g[i].deps();
    let ghost d = deps_of(g@[i as int]);
    let mut k: usize = 0;
    while k < deps.len()
        invariant
            ids_unique(g@),
            i < g.len(),
            deps@ == g@[i as int].frontmatter.deps@,
            d == deps_of(g@[i as int]),
            d.len() == deps.len(),
            k <= deps.len(),
            vis.len() == g.len(),
            stk.len() == g.len(),
            ftc.len() == g.len(),
            tc >= t,
            vis0 == old(vis)@,
            stk0 == old(stk)@,
            vis0.len() == g.len(),
            stk0.len() == g.len(),
            path0 == old(path)@,
            c0 == old(cycles)@.len(),
            !vis0[i as int],
            grows(vis0, vis@),
            vis@[i as int],
            stk@ == stk0.update(i as int, true),
            count_false(vis@) < count_false(vis0),
            path@ == pushed,
            pushed.len() == path0.len() + 1,
            pushed.drop_last() == path0,
            path_view(path@) == path_view(path0).push(id_of(g@[i as int])),
            is_walk(g@, path_view(path@)),
            forall|j: int| 0 <= j < g.len() && stk@[j] ==> vis@[j],
            forall|j: int| 0 <= j < g.len() && stk@[j] ==> path_view(path@).contains(id_of(g@[j])),
            forall|j: int|
                0 <= j < g.len() && done(vis0, stk0, j) ==> done(vis@, stk@, j) && ftc[j] == ft[j],
            all_cycles(g@, cycles@),
            cycles@.len() >= c0,
            cycles@.len() == 0 ==> ranked(g@, vis@, stk@, ftc) && below(vis@, stk@, ftc, tc),
            cycles@.len() == 0 ==> forall|kk: int|
                0 <= kk < k ==> forall|j: int|
                    0 <= j < g.len() && id_of(g@[j]) == #[trigger] d[kk] ==> done(vis@, stk@, j),
        decreases deps.len() - k,
    {
        let ghost vis1 = vis@;
        let ghost ftc1 = ftc;
        assert(d[k as int] == deps@[k as int]@);
        assert(d.contains(d[k as int]));
        assert(edge(g@, id_of(g@[i as int]), d[k as int]));
        match find_index(g, deps[k].as_str()) {
            None => {},
            Some(j) => {
                if !vis[j] {
                    proof {
                        let pv = path_view(path@);
                        assert(is_walk(g@, pv.push(id_of(g@[j as int])))) by {
                            let q = pv.push(id_of(g@[j as int]));
                            assert forall|kk: int| 0 <= kk < q.len() - 1 implies #[trigger] step(
                                g@,
                                q,
                                kk,
                            ) by {
                                if kk < pv.len() - 1 {
                                    assert(step(g@, pv, kk));
                                }
                            }
                        }
                    }
                    let ghost stk1 = stk@;
                    let r = find_cycles_dfs(j, g, vis, stk, path, cycles, Ghost(ftc), Ghost(tc));
                    proof {
                        lemma_count_false_grows(vis1, vis@);
                        assert forall|jj: int|
                            0 <= jj < g.len() && done(vis0, stk0, jj) implies done(vis@, stk@, jj)
                            && r@.0[jj] == ft[jj] by {
                            assert(jj != i);
                            assert(vis1[jj]);
                            assert(stk1 == stk0.update(i as int, true));
                            assert(stk1.len() == stk0.len());
                            assert(0 <= jj < stk0.len());
                            assert(stk1[jj] == stk0[jj]);
                            assert(done(vis1, stk1, jj));
                        }
                        ftc = r@.0;
                        tc = r@.1;
                    }
                } else if stk[j] {
                    let p = position_in(path, &deps[k]);
                    match p {
                        Some(st) => {
                            let mut cycle: Vec<String> = Vec::new();
                            let mut q = st;
                            while q < path.len()
                                invariant
                                    st <= q <= path.len(),
                                    path_view(cycle@) == path_view(path@).subrange(
                                        st as int,
                                        q as int,
                                    ),
                                decreases path.len() - q,
                            {
                                let ghost c1 = cycle@;
                                let item = to_owned_string(path[q].as_str());
                                assert(item@ == path@[q as int]@);
                                cycle.push(item);
                                assert(cycle@ == c1.push(item));
                                assert(path_view(cycle@) =~= path_view(c1).push(item@));
                                assert(path_view(cycle@) =~= path_view(path@).subrange(
                                    st as int,
                                    q + 1,
                                ));
                                q += 1;
                            }
                            cycle.push(to_owned_string(deps[k].as_str()));
                            proof {
                                let pv = path_view(path@);
                                let sub = pv.subrange(st as int, pv.len() as int);
                                lemma_walk_subrange(g@, pv, st as int, pv.len() as int);
                                assert(path_view(cycle@) =~= sub.push(d[k as int]));
                                let cv = path_view(cycle@);
                                assert forall|kk: int| 0 <= kk < cv.len() - 1 implies #[trigger] step(
                                    g@,
                                    cv,
                                    kk,
                                ) by {
                                    if kk < sub.len() - 1 {
                                        assert(step(g@, sub, kk));
                                    }
                                }
                                assert(is_cycle(g@, cv));
                            }
                            let ghost before = cycles@;
                            cycles.push(cycle);
                            proof {
                                assert forall|ci: int| 0 <= ci < cycles@.len() implies is_cycle(
                                    g@,
                                    #[trigger] path_view(cycles@[ci]@),
                                ) by {
                                    if ci < cycles@.len() - 1 {
                                        assert(cycles@[ci] == before[ci]);
                                    }
                                }
                            }
                        },
                        None => {
                            assert(false);
                        },
                    }
                }
            },
        }
        proof {
            if cycles@.len() == 0 {
                assert forall|kk: int| 0 <= kk <= k implies forall|j: int|
                    0 <= j < g.len() && id_of(g@[j]) == #[trigger] d[kk] ==> done(vis@, stk@, j) by {
                    if kk < k {
                        assert forall|j: int|
                            0 <= j < g.len() && id_of(g@[j]) == d[kk] implies done(vis@, stk@, j) by {
                            assert(done(vis1, stk@, j));
                        }
                    }
                }
            }
        }
        k += 1;
    }
    stk.set(i, false);
    path.pop();
    let ghost ft2 = ftc.update(i as int, tc);
    let ghost t2 = tc + 1;
    proof {
        assert(stk@ =~= stk0);
        if cycles@.len() == 0 {
            assert forall|ii: int| 0 <= ii < g.len() && done(vis@, stk@, ii) implies #[trigger] node_ranked(
                g@,
                vis@,
                stk@,
                ft2,
                ii,
            ) by {
                if ii == i {
                    assert forall|kk: int| 0 <= kk < d.len() implies dep_done(
                        g@,
                        vis@,
                        stk@,
                        ft2,
                        ii,
                        #[trigger] d[kk],
                    ) by {
                        assert forall|j: int| 0 <= j < g.len() && id_of(g@[j]) == d[kk] implies done(
                            vis@,
                            stk@,
                            j,
                        ) && ft2[j] < ft2[ii] by {
                            assert(done(vis@, stk0.update(i as int, true), j));
                        }
                    }
                } else {
                    assert(done(vis@, stk0.update(i as int, true), ii));
                    assert(node_ranked(g@, vis@, stk0.update(i as int, true), ftc, ii));
                    assert forall|kk: int| 0 <= kk < deps_of(g@[ii]).len() implies dep_done(
                        g@,
                        vis@,
                        stk@,
                        ft2,
                        ii,
                        #[trigger] deps_of(g@[ii])[kk],
                    ) by {
                        assert(dep_done(
                            g@,
                            vis@,
                            stk0.update(i as int, true),
                            ftc,
                            ii,
                            deps_of(g@[ii])[kk],
                        ));
                        assert forall|j: int|
                            0 <= j < g.len() && id_of(g@[j]) == deps_of(g@[ii])[kk] implies done(
                            vis@,
                            stk@,
                            j,
                        ) && ft2[j] < ft2[ii] by {
                            assert(done(vis@, stk0.update(i as int, true), j));
                            assert(j != i);
                        }
                    }
                }
            }
            assert forall|j: int| 0 <= j < vis@.len() && done(vis@, stk@, j) implies ft2[j] < t2 by {
                if j != i {
                    assert(done(vis@, stk0.update(i as int, true), j));
                }
            }
        }
    }
    Ghost((ft2, t2))
}


/// The index of the issue named `k` (meaningful when such an issue exists).
pub open spec fn index_of_id(g: Seq<Issue>, k: Seq<char>) -> int {
    choose|j: int| 0 <= j < g.len() && id_of(g[j]) == k
}

/// With every issue finished and ranked, finishing times strictly fall along a walk.
proof fn lemma_ranks_fall(
    g: Seq<Issue>,
    vis: Seq<bool>,
    stk: Seq<bool>,
    ft: Seq<int>,
    c: Seq<Seq<char>>,
    k: int,
)
    requires
        ids_unique(g),
        vis.len() == g.len(),
        stk.len() == g.len(),
        forall|j: int| 0 <= j < g.len() ==> done(vis, stk, j),
        ranked(g, vis, stk, ft),
        is_walk(g, c),
        has_id(g, c[0]),
        0 <= k < c.len(),
        has_id(g, c[k]),
    ensures
        ft[index_of_id(g, c[k])] <= ft[index_of_id(g, c[0])] - k,
    decreases k,
{
    if k > 0 {
        assert(step(g, c, k - 1));
        let i = choose|i: int|
            0 <= i < g.len() && id_of(g[i]) == c[k - 1] && deps_of(g[i]).contains(c[k]);
        assert(has_id(g, c[k - 1]));
        lemma_ranks_fall(g, vis, stk, ft, c, k - 1);
        assert(node_ranked(g, vis, stk, ft, i));
        let kk = choose|kk: int| 0 <= kk < deps_of(g[i]).len() && deps_of(g[i])[kk] == c[k];
        assert(dep_done(g, vis, stk, ft, i, deps_of(g[i])[kk]));
        let jk = index_of_id(g, c[k]);
        let jp = index_of_id(g, c[k - 1]);
        assert(0 <= jk < g.len() && id_of(g[jk]) == c[k]);
        assert(0 <= jp < g.len() && id_of(g[jp]) == c[k - 1]);
        assert(jp == i);
        assert(done(vis, stk, jk) && ft[jk] < ft[i]);
    }
}

/// A ranking of every issue rules out cycles.
proof fn lemma_ranked_acyclic(g: Seq<Issue>, vis: Seq<bool>, stk: Seq<bool>, ft: Seq<int>)
    requires
        ids_unique(g),
        vis.len() == g.len(),
        stk.len() == g.len(),
        forall|j: int| 0 <= j < g.len() ==> done(vis, stk, j),
        ranked(g, vis, stk, ft),
    ensures
        acyclic(g),
{
    assert forall|c: Seq<Seq<char>>| !is_cycle(g, c) by {
        if is_cycle(g, c) {
            assert(step(g, c, 0));
            assert(has_id(g, c[0]));
            let n = c.len() - 1;
            assert(c[n] == c[0]);
            lemma_ranks_fall(g, vis, stk, ft, c, n);
        }
    }
}

/// All cycles of the dependency graph found by depth-first search from every issue; each
/// returned cycle repeats its first id at the end.
pub fn find_cycles(issues: &IssueMap) -> (r: Vec<Vec<String>>)
    requires
        issues.wf(),
    ensures
        all_cycles(issues@, r@),
        r.len() == 0 <==> acyclic(issues@),
{
    let g = issues.values();
    let n = g.len();
    let mut vis: Vec<bool> = Vec::new();
    let mut stk: Vec<bool> = Vec::new();
    let mut m: usize = 0;
    while m < n
        invariant
            n == g.len(),
            m <= n,
            vis.len() == m,
            stk.len() == m,
            forall|j: int| 0 <= j < m ==> !vis@[j] && !stk@[j],
        decreases n - m,
    {
        vis.push(false);
        stk.push(false);
        m += 1;
    }
    let mut path: Vec<String> = Vec::new();
    let mut cycles: Vec<Vec<String>> = Vec::new();
    let ghost mut ft = Seq::new(n as nat, |j: int| 0int);
    let ghost mut t: int = 0;
    let mut idx: usize = 0;
    while idx < n
        invariant
            n == g.len(),
            ids_unique(g@),
            g@ == issues@,
            idx <= n,
            vis.len() == n,
            stk.len() == n,
            ft.len() == n,
            path@.len() == 0,
            forall|j: int| 0 <= j < n ==> !stk@[j],
            forall|j: int| 0 <= j < idx ==> vis@[j],
            all_cycles(g@, cycles@),
            cycles@.len() == 0 ==> ranked(g@, vis@, stk@, ft) && below(vis@, stk@, ft, t),
        decreases n - idx,
    {
        if !vis[idx] {
            proof {
                assert(path_view(path@).push(id_of(g@[idx as int])) =~= seq![id_of(g@[idx as int])]);
            }
            let r = find_cycles_dfs(
                idx,
                g,
                &mut vis,
                &mut stk,
                &mut path,
                &mut cycles,
                Ghost(ft),
                Ghost(t),
            );
            proof {
                ft = r@.0;
                t = r@.1;
            }
        }
        idx += 1;
    }
    proof {
        if cycles@.len() == 0 {
            lemma_ranked_acyclic(g@, vis@, stk@, ft);
        } else {
            assert(is_cycle(g@, path_view(cycles@[0]@)));
        }
    }
    cycles
}


/// The issues of `r` appear in strictly increasing canonical order.
pub open spec fn sorted_by_priority(r: Seq<&Issue>) -> bool {
    forall|a: int, b: int| 0 <= a < b < r.len() ==> (*r[a]).spec_before(*r[b])
}

/// `x` is a ready issue among the first `n` of `g`.
pub open spec fn ready_in(g: Seq<Issue>, x: Issue, n: int) -> bool {
    exists|j: int| 0 <= j < n && g[j] == x && spec_is_ready(g, g[j])
}

/// `x` is an entry of `r`.
pub open spec fn listed(r: Seq<&Issue>, x: Issue) -> bool {
    exists|a: int| 0 <= a < r.len() && *r[a] == x
}

/// Every entry of `r` is a ready issue among the first `n` of `g`.
pub open spec fn only_ready(g: Seq<Issue>, r: Seq<&Issue>, n: int) -> bool {
    forall|a: int| 0 <= a < r.len() ==> #[trigger] ready_in(g, *r[a], n)
}

/// Every ready issue among the first `n` of `g` is an entry of `r`.
pub open spec fn all_ready(g: Seq<Issue>, r: Seq<&Issue>, n: int) -> bool {
    forall|j: int| 0 <= j < n && spec_is_ready(g, g[j]) ==> #[trigger] listed(r, g[j])
}

proof fn lemma_ready_insert(
    g: Seq<Issue>,
    r: Seq<&Issue>,
    idx: int,
    p: int,
    x: &Issue,
)
    requires
        ids_unique(g),
        0 <= idx < g.len(),
        *x == g[idx],
        spec_is_ready(g, g[idx]),
        0 <= p <= r.len(),
        sorted_by_priority(r),
        only_ready(g, r, idx),
        all_ready(g, r, idx),
        forall|a: int| 0 <= a < p ==> (*r[a]).spec_before(*x),
        p < r.len() ==> !(*r[p]).spec_before(*x),
    ensures
        sorted_by_priority(r.insert(p, x)),
        only_ready(g, r.insert(p, x), idx + 1),
        all_ready(g, r.insert(p, x), idx + 1),
{
    let nr = r.insert(p, x);
    assert forall|b: int| p <= b < r.len() implies (*x).spec_before(*r[b]) by {
        assert(ready_in(g, *r[p], idx));
        let jp = choose|j: int| 0 <= j < idx && g[j] == *r[p] && spec_is_ready(g, g[j]);
        lemma_before_order(*x, *r[p], *r[b]);
        lemma_before_order(*r[p], *x, *r[b]);
        assert(id_of(g[jp]) != id_of(g[idx]));
        if b > p {
            assert((*r[p]).spec_before(*r[b]));
        }
    }
    assert forall|a: int, b: int| 0 <= a < b < nr.len() implies (*nr[a]).spec_before(*nr[b]) by {
        if b < p {
        } else if b == p {
        } else if a < p {
            lemma_before_order(*nr[a], *x, *nr[b]);
        } else if a == p {
        } else {
            assert(nr[a] == r[a - 1] && nr[b] == r[b - 1]);
        }
    }
    assert forall|a: int| 0 <= a < nr.len() implies #[trigger] ready_in(g, *nr[a], idx + 1) by {
        if a < p {
            assert(nr[a] == r[a]);
            assert(ready_in(g, *r[a], idx));
        } else if a == p {
            assert(g[idx] == *nr[a]);
        } else {
            assert(nr[a] == r[a - 1]);
            assert(ready_in(g, *r[a - 1], idx));
        }
    }
    assert forall|j: int| 0 <= j < idx + 1 && spec_is_ready(g, g[j]) implies #[trigger] listed(
        nr,
        g[j],
    ) by {
        if j == idx {
            assert(*nr[p] == g[j]);
        } else {
            assert(listed(r, g[j]));
            let a0 = choose|a: int| 0 <= a < r.len() && *r[a] == g[j];
            if a0 < p {
                assert(*nr[a0] == g[j]);
            } else {
                assert(*nr[a0 + 1] == g[j]);
            }
        }
    }
}

proof fn lemma_ready_skip(g: Seq<Issue>, r: Seq<&Issue>, idx: int)
    requires
        0 <= idx < g.len(),
        !spec_is_ready(g, g[idx]),
        only_ready(g, r, idx),
        all_ready(g, r, idx),
    ensures
        only_ready(g, r, idx + 1),
        all_ready(g, r, idx + 1),
{
    assert forall|a: int| 0 <= a < r.len() implies #[trigger] ready_in(g, *r[a], idx + 1) by {
        assert(ready_in(g, *r[a], idx));
    }
    assert forall|j: int| 0 <= j < idx + 1 && spec_is_ready(g, g[j]) implies #[trigger] listed(
        r,
        g[j],
    ) by {
        assert(j < idx);
    }
}

/// All ready issues, sorted by priority, then creation time, then id.
pub fn get_ready_issues(issues: &IssueMap) -> (r: Vec<&Issue>)
    requires
        issues.wf(),
    ensures
        sorted_by_priority(r@),
        only_ready(issues@, r@, issues@.len() as int),
        all_ready(issues@, r@, issues@.len() as int),
{
    let g = issues.values();
    let mut ready: Vec<&Issue> = Vec::new();
    let mut idx: usize = 0;
    while idx < g.len()
        invariant
            g@ == issues@,
            issues.wf(),
            idx <= g.len(),
            sorted_by_priority(ready@),
            only_ready(g@, ready@, idx as int),
            all_ready(g@, ready@, idx as int),
        decreases g.len() - idx,
    {
        let x = &g[idx];
        let der = compute_derived(x, issues);
        if der.is_ready {
            let mut p: usize = 0;
            while p < ready.len() && ready[p].precedes(x)
                invariant
                    p <= ready.len(),
                    forall|a: int| 0 <= a < p ==> (*ready@[a]).spec_before(*x),
                decreases ready.len() - p,
            {
                p += 1;
            }
            proof {
                lemma_ready_insert(g@, ready@, idx as int, p as int, x);
            }
            ready.insert(p, x);
        } else {
            proof {
                lemma_ready_skip(g@, ready@, idx as int);
            }
        }
        idx += 1;
    }
    ready
}

/// The ids of `r` are in strictly increasing text order.
pub open spec fn sorted_ids(r: Seq<String>) -> bool {
    forall|a: int, b: int| 0 <= a < b < r.len() ==> seq_lt(r[a]@, r[b]@)
}

/// `s` is the id of an issue, among the first `n` of `g`, that depends on `k`.
pub open spec fn dependent_in(g: Seq<Issue>, k: Seq<char>, s: Seq<char>, n: int) -> bool {
    exists|j: int| 0 <= j < n && id_of(g[j]) == s && deps_of(g[j]).contains(k)
}

/// `s` is an entry of `r`.
pub open spec fn id_listed(r: Seq<String>, s: Seq<char>) -> bool {
    exists|a: int| 0 <= a < r.len() && r[a]@ == s
}

/// Every entry of `r` names an issue among the first `n` of `g` that depends on `k`.
pub open spec fn only_dependents(g: Seq<Issue>, k: Seq<char>, r: Seq<String>, n: int) -> bool {
    forall|a: int| 0 <= a < r.len() ==> #[trigger] dependent_in(g, k, r[a]@, n)
}

/// Every issue among the first `n` of `g` that depends on `k` is named in `r`.
pub open spec fn all_dependents(g: Seq<Issue>, k: Seq<char>, r: Seq<String>, n: int) -> bool {
    forall|j: int| 0 <= j < n && deps_of(g[j]).contains(k) ==> #[trigger] id_listed(r, id_of(g[j]))
}

proof fn lemma_dependent_insert(
    g: Seq<Issue>,
    k: Seq<char>,
    r: Seq<String>,
    idx: int,
    p: int,
    x: String,
)
    requires
        ids_unique(g),
        0 <= idx < g.len(),
        x@ == id_of(g[idx]),
        deps_of(g[idx]).contains(k),
        0 <= p <= r.len(),
        sorted_ids(r),
        only_dependents(g, k, r, idx),
        all_dependents(g, k, r, idx),
        forall|a: int| 0 <= a < p ==> seq_lt(r[a]@, x@),
        p < r.len() ==> !seq_lt(r[p]@, x@),
    ensures
        sorted_ids(r.insert(p, x)),
        only_dependents(g, k, r.insert(p, x), idx + 1),
        all_dependents(g, k, r.insert(p, x), idx + 1),
{
    let nr = r.insert(p, x);
    assert forall|b: int| p <= b < r.len() implies seq_lt(x@, r[b]@) by {
        assert(dependent_in(g, k, r[p]@, idx));
        let jp = choose|j: int| 0 <= j < idx && id_of(g[j]) == r[p]@ && deps_of(g[j]).contains(k);
        assert(id_of(g[jp]) != id_of(g[idx]));
        lemma_seq_lt_total(x@, r[p]@);
        if b > p {
            lemma_seq_lt_trans(x@, r[p]@, r[b]@);
        }
    }
    assert forall|a: int, b: int| 0 <= a < b < nr.len() implies seq_lt(nr[a]@, nr[b]@) by {
        if b < p {
        } else if b == p {
        } else if a < p {
            lemma_seq_lt_trans(nr[a]@, x@, nr[b]@);
        } else if a == p {
        } else {
            assert(nr[a] == r[a - 1] && nr[b] == r[b - 1]);
        }
    }
    assert forall|a: int| 0 <= a < nr.len() implies #[trigger] dependent_in(
        g,
        k,
        nr[a]@,
        idx + 1,
    ) by {
        if a < p {
            assert(nr[a] == r[a]);
            assert(dependent_in(g, k, r[a]@, idx));
        } else if a == p {
            assert(id_of(g[idx]) == nr[a]@);
        } else {
            assert(nr[a] == r[a - 1]);
            assert(dependent_in(g, k, r[a - 1]@, idx));
        }
    }
    assert forall|j: int| 0 <= j < idx + 1 && deps_of(g[j]).contains(k) implies #[trigger] id_listed(
        nr,
        id_of(g[j]),
    ) by {
        if j == idx {
            assert(nr[p]@ == id_of(g[j]));
        } else {
            assert(id_listed(r, id_of(g[j])));
            let a0 = choose|a: int| 0 <= a < r.len() && r[a]@ == id_of(g[j]);
            if a0 < p {
                assert(nr[a0]@ == id_of(g[j]));
            } else {
                assert(nr[a0 + 1]@ == id_of(g[j]));
            }
        }
    }
}

proof fn lemma_dependent_skip(g: Seq<Issue>, k: Seq<char>, r: Seq<String>, idx: int)
    requires
        0 <= idx < g.len(),
        !deps_of(g[idx]).contains(k),
        only_dependents(g, k, r, idx),
        all_dependents(g, k, r, idx),
    ensures
        only_dependents(g, k, r, idx + 1),
        all_dependents(g, k, r, idx + 1),
{
    assert forall|a: int| 0 <= a < r.len() implies #[trigger] dependent_in(g, k, r[a]@, idx + 1) by {
        assert(dependent_in(g, k, r[a]@, idx));
    }
    assert forall|j: int| 0 <= j < idx + 1 && deps_of(g[j]).contains(k) implies #[trigger] id_listed(
        r,
        id_of(g[j]),
    ) by {
        assert(j < idx);
    }
}

/// Whether the dependency list `deps` names `k`.
fn lists_dep(deps: &[String], k: &str) -> (r: bool)
    ensures
        r == strings_view(deps@).contains(k@),
{
    let mut i: usize = 0;
    while i < deps.len()
        invariant
            i <= deps.len(),
            forall|q: int| 0 <= q < i ==> deps@[q]@ != k@,
        decreases deps.len() - i,
    {
        if str_eq(deps[i].as_str(), k) {
            assert(strings_view(deps@)[i as int] == k@);
            return true;
        }
        i += 1;
    }
    proof {
        if strings_view(deps@).contains(k@) {
            let q = choose|q: int| 0 <= q < deps@.len() && strings_view(deps@)[q] == k@;
            assert(deps@[q]@ == k@);
        }
    }
    false
}

/// All issues that depend on `issue_id`, as a sorted list of ids.
pub fn get_dependents(issue_id: &str, all_issues: &IssueMap) -> (r: Vec<String>)
    requires
        all_issues.wf(),
    ensures
        sorted_ids(r@),
        only_dependents(all_issues@, issue_id@, r@, all_issues@.len() as int),
        all_dependents(all_issues@, issue_id@, r@, all_issues@.len() as int),
{
    let g = all_issues.values();
    let mut out: Vec<String> = Vec::new();
    let mut idx: usize = 0;
    while idx < g.len()
        invariant
            g@ == all_issues@,
            ids_unique(g@),
            idx <= g.len(),
            sorted_ids(out@),
            only_dependents(g@, issue_id@, out@, idx as int),
            all_dependents(g@, issue_id@, out@, idx as int),
        decreases g.len() - idx,
    {
        if lists_dep(g[idx].deps(), issue_id) {
            let x = to_owned_string(g[idx].frontmatter.id.as_str());
            let mut p: usize = 0;
            while p < out.len() && compare_str(out[p].as_str(), x.as_str()) < 0
                invariant
                    p <= out.len(),
                    forall|a: int| 0 <= a < p ==> seq_lt(out@[a]@, x@),
                decreases out.len() - p,
            {
                p += 1;
            }
            proof {
                lemma_dependent_insert(g@, issue_id@, out@, idx as int, p as int, x);
            }
            out.insert(p, x);
        } else {
            proof {
                lemma_dependent_skip(g@, issue_id@, out@, idx as int);
            }
        }
        idx += 1;
    }
    out
}

} // verus!
