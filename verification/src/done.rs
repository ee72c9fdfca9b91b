//! Finishing an issue. A design issue hands its place in the graph to the issues that
//! result from it: they inherit its dependencies, and its dependents wait on them instead.

use vstd::prelude::*;

use crate::dep::{
    copy_strings, dep_added, deps_shrunk, lemma_add_dep_keeps_acyclic, lemma_push_contains,
    lemma_rm_dep_keeps_acyclic, lemma_without_sub, lists_dep_of, without,
};
use crate::error::BrdError;
use crate::graph::{acyclic, is_walk, path_view, reaches, would_create_cycle};
use crate::issue::{
    deps_of, find_index, has_id, id_of, ids_unique, strings_view, Issue, IssueFrontmatter, IssueMap,
};
use crate::text::{join_seqs, join_strings, push_str, str_eq, to_owned_string};

verus! {

/// Issue `x` lists `e` among its dependencies.
pub open spec fn has_dep(x: Issue, e: Seq<char>) -> bool {
    deps_of(x).contains(e)
}

/// `new` is `old` with only its dependencies possibly changed.
pub open spec fn deps_only(old: Issue, new: Issue) -> bool {
    new.body == old.body && new.frontmatter == IssueFrontmatter {
        deps: new.frontmatter.deps,
        ..old.frontmatter
    }
}

/// `g2` is `g` with the issue at `i` given the dependency lists `d`.
pub open spec fn deps_replaced_at(g: Seq<Issue>, g2: Seq<Issue>, i: int, d: Seq<Seq<char>>) -> bool {
    &&& g2.len() == g.len()
    &&& 0 <= i < g.len()
    &&& deps_only(g[i], g2[i])
    &&& deps_of(g2[i]) == d
    &&& forall|j: int| 0 <= j < g.len() && j != i ==> #[trigger] g2[j] == g[j]
}

/// The message when a dependency would close a cycle.
pub open spec fn cycle_message(c: Seq<Seq<char>>) -> Seq<char> {
    "cannot add dependency: would create cycle: "@ + join_seqs(c, " -> "@)
}

/// Makes the issue `child` (a full id, present) depend on `parent`: a self-dependency is
/// refused; a dependency already listed changes nothing; one that would close a cycle is
/// refused; otherwise it is appended. Returns whether the list changed.
pub fn add_dep_checked(issues: &mut IssueMap, child: &str, parent: &str) -> (r: Result<bool, BrdError>)
    requires
        old(issues).wf(),
        has_id(old(issues)@, child@),
    ensures
        final(issues).wf(),
        r matches Ok(true) ==> exists|i: int|
            0 <= i < old(issues)@.len() && id_of(old(issues)@[i]) == child@ && deps_replaced_at(
                old(issues)@,
                final(issues)@,
                i,
                deps_of(old(issues)@[i]).push(parent@),
            ) && !has_dep(old(issues)@[i], parent@),
        !(r matches Ok(true)) ==> final(issues)@ == old(issues)@,
        child@ == parent@ ==> (r matches Err(BrdError::Other(m)) && m@
            == "cannot add self-dependency"@),
        child@ != parent@ ==> {
            let i = crate::ops::index_of(old(issues)@, child@);
            &&& has_dep(old(issues)@[i], parent@) ==> r == Ok::<bool, BrdError>(false)
            &&& !has_dep(old(issues)@[i], parent@) && reaches(old(issues)@, parent@, child@) ==> (
            r matches Err(BrdError::Other(m)) && exists|c: Seq<Seq<char>>|
                is_walk(old(issues)@, c.skip(1)) && m@ == cycle_message(c))
            &&& !has_dep(old(issues)@[i], parent@) && !reaches(old(issues)@, parent@, child@) ==> r
                == Ok::<bool, BrdError>(true)
        },
        r is Ok ==> (acyclic(old(issues)@) ==> acyclic(final(issues)@)),
{
    let ghost g = issues@;
    if str_eq(child, parent) {
        return Err(BrdError::Other(to_owned_string("cannot add self-dependency")));
    }
    let i = match find_index(issues.values(), child) {
        Some(i) => i,
        None => return Err(BrdError::IssueNotFound(to_owned_string(child))),
    };
    proof {
        let i0 = crate::ops::index_of(g, child@);
        if i0 != i {
            assert(id_of(g[i0]) != id_of(g[i as int]));
        }
    }
    let deps = issues.values()[i].deps();
    if lists_dep_of(deps, parent) {
        return Ok(false);
    }
    match would_create_cycle(child, parent, issues) {
        Some(path) => {
            let mut msg = to_owned_string("cannot add dependency: would create cycle: ");
            let joined = join_strings(path.as_slice(), " -> ");
            push_str(&mut msg, joined.as_str());
            proof {
                assert(path@.map_values(|s: String| s@) =~= path_view(path@));
                assert(msg@ == cycle_message(path_view(path@)));
                assert(is_walk(g, path_view(path@).skip(1)));
            }
            return Err(BrdError::Other(msg));
        },
        None => {},
    }
    let mut nd = copy_strings(deps);
    nd.push(to_owned_string(parent));
    assert(strings_view(nd@) =~= deps_of(g[i as int]).push(parent@));
    issues.set_deps(child, nd);
    proof {
        assert(deps_replaced_at(g, issues@, i as int, deps_of(g[i as int]).push(parent@))) by {
            assert forall|j: int| 0 <= j < g.len() && j != i implies #[trigger] issues@[j] == g[j] by {
                assert(id_of(g[j]) != child@);
            }
        }
        if acyclic(g) {
            assert forall|ii: int| 0 <= ii < g.len() implies {
                &&& #[trigger] id_of(issues@[ii]) == id_of(g[ii])
                &&& id_of(g[ii]) != child@ ==> deps_of(issues@[ii]) == deps_of(g[ii])
                &&& id_of(g[ii]) == child@ ==> forall|e: Seq<char>|
                    deps_of(issues@[ii]).contains(e) <==> deps_of(g[ii]).contains(e) || e == parent@
            } by {
                if id_of(g[ii]) == child@ {
                    assert(ii == i);
                    assert forall|e: Seq<char>|
                        deps_of(issues@[ii]).contains(e) <==> deps_of(g[ii]).contains(e) || e
                            == parent@ by {
                        lemma_push_contains(deps_of(g[ii]), parent@, e);
                    }
                } else {
                    assert(ii != i);
                }
            }
            assert(dep_added(g, issues@, child@, parent@));
            lemma_add_dep_keeps_acyclic(g, issues@, child@, parent@);
        }
    }
    Ok(true)
}

/// Removes every occurrence of `parent` from the dependencies of the issue `child` (a
/// full id, present).
pub fn remove_dep(issues: &mut IssueMap, child: &str, parent: &str)
    requires
        old(issues).wf(),
        has_id(old(issues)@, child@),
    ensures
        final(issues).wf(),
        exists|i: int|
            0 <= i < old(issues)@.len() && id_of(old(issues)@[i]) == child@ && deps_replaced_at(
                old(issues)@,
                final(issues)@,
                i,
                without(deps_of(old(issues)@[i]), parent@),
            ),
        acyclic(old(issues)@) ==> acyclic(final(issues)@),
{
    let ghost g = issues@;
    let i = match find_index(issues.values(), child) {
        Some(i) => i,
        None => return,
    };
    let deps = issues.values()[i].deps();
    let ghost d = deps_of(g[i as int]);
    let mut nd: Vec<String> = Vec::new();
    let mut k: usize = 0;
    while k < deps.len()
        invariant
            k <= deps.len(),
            d == strings_view(deps@),
            strings_view(nd@) == without(d.take(k as int), parent@),
        decreases deps.len() - k,
    {
        assert(d.take(k + 1).drop_last() =~= d.take(k as int));
        if !str_eq(deps[k].as_str(), parent) {
            nd.push(to_owned_string(deps[k].as_str()));
            assert(strings_view(nd@) =~= strings_view(nd@.drop_last()).push(d[k as int]));
        }
        k += 1;
    }
    assert(d.take(deps.len() as int) =~= d);
    issues.set_deps(child, nd);
    proof {
        assert(deps_replaced_at(g, issues@, i as int, without(d, parent@))) by {
            assert forall|j: int| 0 <= j < g.len() && j != i implies #[trigger] issues@[j] == g[j] by {
                assert(id_of(g[j]) != child@);
            }
        }
        if acyclic(g) {
            assert forall|ii: int| 0 <= ii < g.len() implies {
                &&& #[trigger] id_of(issues@[ii]) == id_of(g[ii])
                &&& forall|e: Seq<char>| deps_of(issues@[ii]).contains(e) ==> deps_of(g[ii]).contains(e)
            } by {
                if ii == i {
                    assert forall|e: Seq<char>| deps_of(issues@[ii]).contains(e) implies deps_of(
                        g[ii],
                    ).contains(e) by {
                        lemma_without_sub(d, parent@, e);
                    }
                }
            }
            assert(deps_shrunk(g, issues@));
            lemma_rm_dep_keeps_acyclic(g, issues@);
        }
    }
}

/// Two graphs with the same ids and dependency lists at every position have the same
/// edges, so one is acyclic when the other is.
proof fn lemma_same_edges_acyclic(g: Seq<Issue>, g2: Seq<Issue>)
    requires
        acyclic(g),
        g2.len() == g.len(),
        forall|j: int| 0 <= j < g.len() ==> #[trigger] id_of(g2[j]) == id_of(g[j]) && deps_of(g2[j])
            == deps_of(g[j]),
    ensures
        acyclic(g2),
{
    assert forall|c: Seq<Seq<char>>| !crate::graph::is_cycle(g2, c) by {
        if crate::graph::is_cycle(g2, c) {
            assert forall|k: int| 0 <= k < c.len() - 1 implies #[trigger] crate::graph::step(g, c, k) by {
                assert(crate::graph::step(g2, c, k));
                let i = choose|i: int|
                    0 <= i < g2.len() && id_of(g2[i]) == c[k] && deps_of(g2[i]).contains(c[k + 1]);
                assert(id_of(g[i]) == c[k] && deps_of(g[i]).contains(c[k + 1]));
            }
            assert(crate::graph::is_cycle(g, c));
        }
    }
}

/// `s` with later repeats of an entry dropped.
pub open spec fn dedup(s: Seq<Seq<char>>) -> Seq<Seq<char>>
    decreases s.len(),
{
    if s.len() == 0 {
        s
    } else {
        let p = dedup(s.drop_last());
        if p.contains(s.last()) {
            p
        } else {
            p.push(s.last())
        }
    }
}

proof fn lemma_dedup_contains(s: Seq<Seq<char>>, e: Seq<char>)
    ensures
        dedup(s).contains(e) <==> s.contains(e),
    decreases s.len(),
{
    if s.len() > 0 {
        lemma_dedup_contains(s.drop_last(), e);
        lemma_push_contains(s.drop_last(), s.last(), e);
        assert(s =~= s.drop_last().push(s.last()));
        lemma_push_contains(dedup(s.drop_last()), s.last(), e);
    }
}

proof fn lemma_dedup_unique(s: Seq<Seq<char>>)
    ensures
        forall|a: int, b: int| 0 <= a < b < dedup(s).len() ==> dedup(s)[a] != dedup(s)[b],
    decreases s.len(),
{
    if s.len() > 0 {
        lemma_dedup_unique(s.drop_last());
        let p = dedup(s.drop_last());
        if !p.contains(s.last()) {
            assert forall|a: int, b: int| 0 <= a < b < p.push(s.last()).len() implies p.push(
                s.last(),
            )[a] != p.push(s.last())[b] by {
                if b == p.len() {
                    assert(p[a] == p.push(s.last())[a]);
                }
            }
        }
    }
}

/// What each of `rs` resolves to.
pub open spec fn resolved_all(g: Seq<Issue>, rs: Seq<Seq<char>>) -> Seq<Seq<char>> {
    rs.map_values(|x: Seq<char>| crate::issue::spec_resolve(g, x)->0)
}

/// Every one of `rs` resolves, and not to `id`.
pub open spec fn results_ok(g: Seq<Issue>, rs: Seq<Seq<char>>, id: Seq<char>) -> bool {
    forall|k: int|
        0 <= k < rs.len() ==> (#[trigger] crate::issue::spec_resolve(g, rs[k])) is Some
            && crate::issue::spec_resolve(g, rs[k])->0 != id
}

/// After the results inherit the design's dependencies `dd`: issue `i` lists `e`.
pub open spec fn inherited(g: Seq<Issue>, i: int, rs: Seq<Seq<char>>, dd: Seq<Seq<char>>, e: Seq<char>) -> bool {
    has_dep(g[i], e) || (rs.contains(id_of(g[i])) && dd.contains(e) && e != id_of(g[i]))
}

/// After the whole hand-over from design `d` to results `rs`: issue `i` lists `e`. A
/// dependent of the design no longer waits on it, and, unless it is a result itself,
/// waits on every result instead.
pub open spec fn transferred(
    g: Seq<Issue>,
    i: int,
    rs: Seq<Seq<char>>,
    dd: Seq<Seq<char>>,
    d: Seq<char>,
    e: Seq<char>,
) -> bool {
    let k = id_of(g[i]);
    if rs.len() > 0 && inherited(g, i, rs, dd, d) {
        (inherited(g, i, rs, dd, e) && e != d) || (!rs.contains(k) && rs.contains(e) && e != k)
    } else {
        inherited(g, i, rs, dd, e)
    }
}

/// The ids of the issues of `s` that depend on `d`, in order.
pub open spec fn dependents_of(s: Seq<Issue>, d: Seq<char>) -> Seq<Seq<char>>
    decreases s.len(),
{
    if s.len() == 0 {
        Seq::<Seq<char>>::empty()
    } else {
        let p = dependents_of(s.drop_last(), d);
        if has_dep(s.last(), d) {
            p.push(id_of(s.last()))
        } else {
            p
        }
    }
}

proof fn lemma_dependents_of(s: Seq<Issue>, d: Seq<char>)
    requires
        ids_unique(s),
    ensures
        forall|j: int|
            0 <= j < s.len() ==> (dependents_of(s, d).contains(#[trigger] id_of(s[j])) <==> has_dep(
                s[j],
                d,
            )),
        forall|x: int, y: int|
            0 <= x < y < dependents_of(s, d).len() ==> dependents_of(s, d)[x] != dependents_of(
                s,
                d,
            )[y],
        forall|q: int|
            0 <= q < dependents_of(s, d).len() ==> has_id(s, #[trigger] dependents_of(s, d)[q]),
    decreases s.len(),
{
    if s.len() > 0 {
        let s1 = s.drop_last();
        assert forall|a: int, b: int| 0 <= a < s1.len() && 0 <= b < s1.len() && a != b implies id_of(
            s1[a],
        ) != id_of(s1[b]) by {
            assert(s1[a] == s[a] && s1[b] == s[b]);
        }
        lemma_dependents_of(s1, d);
        let p = dependents_of(s1, d);
        let last = id_of(s.last());
        assert(!p.contains(last)) by {
            if p.contains(last) {
                let q = choose|q: int| 0 <= q < p.len() && p[q] == last;
                assert(has_id(s1, p[q]));
                let w = choose|w: int| 0 <= w < s1.len() && id_of(s1[w]) == p[q];
                assert(id_of(s[w]) == id_of(s[s.len() - 1]));
            }
        }
        assert forall|j: int| 0 <= j < s.len() implies (dependents_of(s, d).contains(
            #[trigger] id_of(s[j]),
        ) <==> has_dep(s[j], d)) by {
            if j < s.len() - 1 {
                assert(s[j] == s1[j]);
                assert(id_of(s[j]) != last);
                if has_dep(s.last(), d) {
                    lemma_push_contains(p, last, id_of(s[j]));
                }
            } else if has_dep(s.last(), d) {
                lemma_push_contains(p, last, last);
            }
        }
        if has_dep(s.last(), d) {
            assert forall|x: int, y: int| 0 <= x < y < p.push(last).len() implies p.push(last)[x]
                != p.push(last)[y] by {
                if y == p.len() {
                    assert(p[x] == p.push(last)[x]);
                }
            }
            assert forall|q: int| 0 <= q < p.push(last).len() implies has_id(s, #[trigger] p.push(last)[q]) by {
                if q < p.len() {
                    let w = choose|w: int| 0 <= w < s1.len() && id_of(s1[w]) == p[q];
                    assert(id_of(s[w]) == p[q]);
                } else {
                    assert(id_of(s[s.len() - 1]) == last);
                }
            }
        } else {
            assert forall|q: int| 0 <= q < p.len() implies has_id(s, #[trigger] p[q]) by {
                let w = choose|w: int| 0 <= w < s1.len() && id_of(s1[w]) == p[q];
                assert(id_of(s[w]) == p[q]);
            }
        }
    }
}

/// The message when a design issue is closed without results or force.
pub open spec fn design_message() -> Seq<char> {
    "design issues require --result <issue-id> to specify resulting issues\nuse --force to close without results"@
}

/// Issue `x` is a design issue.
pub open spec fn is_design(x: Issue) -> bool {
    x.frontmatter.issue_type == Some(crate::issue::IssueType::Design)
}

/// The graph keeps its ids, and each issue keeps everything but its dependencies.
pub open spec fn frame_kept(g: Seq<Issue>, cur: Seq<Issue>) -> bool {
    &&& cur.len() == g.len()
    &&& forall|j: int| 0 <= j < g.len() ==> #[trigger] deps_only(g[j], cur[j])
}

fn push_unique(v: &mut Vec<String>, k: &str)
    ensures
        forall|e: Seq<char>| strings_view(final(v)@).contains(e) <==> strings_view(old(v)@).contains(e) || e == k@,
{
    let ghost v0 = strings_view(v@);
    if !lists_dep_of(v.as_slice(), k) {
        v.push(to_owned_string(k));
        assert(strings_view(v@) =~= v0.push(k@));
        assert forall|e: Seq<char>| strings_view(v@).contains(e) <==> v0.contains(e) || e == k@ by {
            lemma_push_contains(v0, k@, e);
        }
    }
}

/// The first of the results `rs`, from position `k` on, that does not resolve or
/// resolves to the issue being closed (`id`).
pub open spec fn first_bad_result(g: Seq<Issue>, rs: Seq<Seq<char>>, id: Seq<char>, k: int) -> Option<int>
    decreases rs.len() - k,
{
    if k < 0 || k >= rs.len() {
        None
    } else if crate::issue::spec_resolve(g, rs[k]) is None || crate::issue::spec_resolve(g, rs[k])->0
        == id {
        Some(k)
    } else {
        first_bad_result(g, rs, id, k + 1)
    }
}

/// The error a bad result `r` gives: the resolution's failure, or the message that the
/// issue is its own result.
pub open spec fn bad_result_error(g: Seq<Issue>, r: Seq<char>, e: BrdError) -> bool {
    match crate::issue::spec_resolve(g, r) {
        None => crate::issue::resolve_failure(g, r, e),
        Some(_) => e matches BrdError::Other(m) && m@ == "design issue cannot list itself as a result"@,
    }
}

/// An error of the dependency hand-over: a dependency that would close a cycle.
pub open spec fn handover_error(e: BrdError) -> bool {
    e matches BrdError::Other(m) && exists|c: Seq<Seq<char>>| m@ == cycle_message(c)
}

/// Issue `j` lists `e` at some point of the hand-over from design `d` to results `rs`:
/// before it (its own and the inherited dependencies) or after it.
pub open spec fn handover_dep(g: Seq<Issue>, j: int, rs: Seq<Seq<char>>, dd: Seq<Seq<char>>, d: Seq<char>, e: Seq<char>) -> bool {
    inherited(g, j, rs, dd, e) || transferred(g, j, rs, dd, d, e)
}

/// An edge of the hand-over: the issue `a` lists `b` at some point of it.
pub open spec fn handover_edge(g: Seq<Issue>, rs: Seq<Seq<char>>, dd: Seq<Seq<char>>, d: Seq<char>, a: Seq<char>, b: Seq<char>) -> bool {
    exists|j: int| 0 <= j < g.len() && id_of(g[j]) == a && handover_dep(g, j, rs, dd, d, b)
}

/// Step `k` of `c` is an edge of the hand-over.
pub open spec fn handover_step(g: Seq<Issue>, rs: Seq<Seq<char>>, dd: Seq<Seq<char>>, d: Seq<char>, c: Seq<Seq<char>>, k: int) -> bool {
    handover_edge(g, rs, dd, d, c[k], c[k + 1])
}

/// No cycle runs along the edges of the hand-over: the dependencies before it, the
/// inherited ones and the ones after it, taken together, close no cycle.
pub open spec fn handover_acyclic(g: Seq<Issue>, rs: Seq<Seq<char>>, dd: Seq<Seq<char>>, d: Seq<char>) -> bool {
    forall|c: Seq<Seq<char>>|
        !(c.len() >= 2 && c[0] == c.last() && forall|k: int|
            0 <= k < c.len() - 1 ==> #[trigger] handover_step(g, rs, dd, d, c, k))
}

/// A dependency refused during the hand-over closes a cycle along its edges: if the
/// graph part-way through lists only hand-over edges and `parent` already reaches
/// `child` in it, the edge `child -> parent` of the hand-over completes a cycle.
proof fn lemma_refusal_breaks_handover(
    g: Seq<Issue>,
    cur: Seq<Issue>,
    rs: Seq<Seq<char>>,
    dd: Seq<Seq<char>>,
    d: Seq<char>,
    child: Seq<char>,
    parent: Seq<char>,
)
    requires
        cur.len() == g.len(),
        forall|j: int| 0 <= j < g.len() ==> #[trigger] id_of(cur[j]) == id_of(g[j]),
        forall|j: int, e: Seq<char>| 0 <= j < g.len() && #[trigger] has_dep(cur[j], e) ==> handover_dep(g, j, rs, dd, d, e),
        handover_edge(g, rs, dd, d, child, parent),
        reaches(cur, parent, child),
    ensures
        !handover_acyclic(g, rs, dd, d),
{
    let p = choose|p: Seq<Seq<char>>| is_walk(cur, p) && p[0] == parent && p.last() == child;
    let c = p.push(parent);
    assert forall|k: int| 0 <= k < c.len() - 1 implies #[trigger] handover_step(g, rs, dd, d, c, k) by {
        if k < p.len() - 1 {
            assert(crate::graph::step(cur, p, k));
            let i = choose|i: int| 0 <= i < cur.len() && id_of(cur[i]) == p[k] && deps_of(cur[i]).contains(p[k + 1]);
            assert(has_dep(cur[i], p[k + 1]));
            assert(id_of(g[i]) == c[k]);
            assert(handover_dep(g, i, rs, dd, d, c[k + 1]));
        } else {
            assert(c[k] == child && c[k + 1] == parent);
        }
    }
    assert(c.len() >= 2 && c[0] == c.last());
}

/// Marks an issue done, given its full id or a part of it. A design issue needs
/// resulting issues (`result_ids`) or `force`. With results, they inherit the design's
/// dependencies, and every issue that depended on the design depends on the results
/// instead. Returns the resolved id and the ids of the issues that changed; on an error
/// nothing of the collection is to be kept. The hand-over is refused (with the cycle
/// found) only when its dependencies, before, inherited and after, close a cycle; with
/// no results, or when they close none, it succeeds.
pub fn done_issue(issues: &mut IssueMap, partial: &str, force: bool, result_ids: &Vec<String>) -> (r:
    Result<(String, Vec<String>), BrdError>)
    requires
        old(issues).wf(),
    ensures
        final(issues).wf(),
        crate::issue::spec_resolve(old(issues)@, partial@) is None ==> (r matches Err(e)
            && crate::issue::resolve_failure(old(issues)@, partial@, e)),
        crate::issue::spec_resolve(old(issues)@, partial@) matches Some(k) ==> {
            let x = old(issues)@[crate::ops::index_of(old(issues)@, k)];
            is_design(x) && result_ids.len() == 0 && !force ==> (r matches Err(BrdError::Other(m))
                && m@ == design_message())
        },
        crate::issue::spec_resolve(old(issues)@, partial@) matches Some(k) ==> {
            let g = old(issues)@;
            let x = g[crate::ops::index_of(g, k)];
            let rs = strings_view(result_ids@);
            !(is_design(x) && result_ids.len() == 0 && !force) ==> {
                &&& result_ids.len() == 0 ==> r is Ok
                &&& first_bad_result(g, rs, k, 0) matches Some(b) ==> (r matches Err(e)
                    && bad_result_error(g, rs[b], e))
                &&& first_bad_result(g, rs, k, 0) is None ==> (r is Ok || (r matches Err(e)
                    && handover_error(e) && !handover_acyclic(
                    g,
                    dedup(resolved_all(g, rs)),
                    deps_of(x),
                    k,
                )))
                &&& first_bad_result(g, rs, k, 0) is None && handover_acyclic(
                    g,
                    dedup(resolved_all(g, rs)),
                    deps_of(x),
                    k,
                ) ==> r is Ok
            }
        },
        r matches Ok((id, changed)) ==> {
            let g = old(issues)@;
            let f = final(issues)@;
            let i0 = crate::ops::index_of(g, id@);
            let rs = strings_view(result_ids@);
            let res = dedup(resolved_all(g, rs));
            let dd = deps_of(g[i0]);
            &&& crate::issue::spec_resolve(g, partial@) == Some(id@)
            &&& !(is_design(g[i0]) && rs.len() == 0 && !force)
            &&& results_ok(g, rs, id@)
            &&& f.len() == g.len()
            &&& forall|j: int| 0 <= j < g.len() && j != i0 ==> #[trigger] deps_only(g[j], f[j])
            &&& f[i0].body == g[i0].body
            &&& f[i0].frontmatter == IssueFrontmatter {
                status: crate::issue::Status::Done,
                owner: None,
                deps: f[i0].frontmatter.deps,
                updated_at: f[i0].frontmatter.updated_at,
                ..g[i0].frontmatter
            }
            &&& forall|j: int, e: Seq<char>|
                0 <= j < g.len() ==> (#[trigger] has_dep(f[j], e) <==> transferred(g, j, res, dd, id@, e))
            &&& forall|j: int| 0 <= j < g.len() && f[j] != g[j] ==> strings_view(changed@).contains(#[trigger] id_of(g[j]))
            &&& acyclic(g) ==> acyclic(f)
            &&& crate::date::valid_instant(f[i0].frontmatter.updated_at as int)
        },
{
    let ghost g = issues@;
    let full = match crate::issue::resolve_issue_id(partial, issues) {
        Ok(k) => k,
        Err(e) => return Err(e),
    };
    proof {
        crate::dep::lemma_resolved_exists(g, partial@);
    }
    assert(crate::issue::spec_resolve(g, partial@) is Some);
    let ghost i0 = crate::ops::index_of(g, full@);
    let i0x = match find_index(issues.values(), full.as_str()) {
        Some(i) => i,
        None => return Err(BrdError::IssueNotFound(full)),
    };
    proof {
        if i0x != i0 {
            assert(id_of(g[i0x as int]) != id_of(g[i0]));
        }
    }
    let design = match issues.values()[i0x].frontmatter.issue_type {
        Some(crate::issue::IssueType::Design) => true,
        _ => false,
    };
    if design && result_ids.len() == 0 && !force {
        return Err(BrdError::Other(to_owned_string(
            "design issues require --result <issue-id> to specify resulting issues\nuse --force to close without results",
        )));
    }
    // resolve the results, keeping each once
    let ghost rs = strings_view(result_ids@);
    let mut res: Vec<String> = Vec::new();
    let mut k: usize = 0;
    while k < result_ids.len()
        invariant
            k <= result_ids.len(),
            issues@ == g,
            g == old(issues)@,
            crate::issue::spec_resolve(g, partial@) == Some(full@),
            !(is_design(g[crate::ops::index_of(g, full@)]) && result_ids.len() == 0 && !force),
            issues.wf(),
            rs == strings_view(result_ids@),
            results_ok(g, rs.take(k as int), full@),
            strings_view(res@) == dedup(resolved_all(g, rs.take(k as int))),
            first_bad_result(g, rs, full@, 0) == first_bad_result(g, rs, full@, k as int),
        decreases result_ids.len() - k,
    {
        let rr = match crate::issue::resolve_issue_id(result_ids[k].as_str(), issues) {
            Ok(x) => x,
            Err(e) => return Err(e),
        };
        if str_eq(rr.as_str(), full.as_str()) {
            return Err(BrdError::Other(to_owned_string("design issue cannot list itself as a result")));
        }
        let ghost before = strings_view(res@);
        assert(rs.take(k + 1).drop_last() =~= rs.take(k as int));
        assert(resolved_all(g, rs.take(k + 1)).drop_last() =~= resolved_all(g, rs.take(k as int)));
        if !lists_dep_of(res.as_slice(), rr.as_str()) {
            res.push(rr);
            assert(strings_view(res@) =~= before.push(rr@));
        }
        proof {
            assert forall|q: int| 0 <= q < k + 1 implies (#[trigger] crate::issue::spec_resolve(
                g,
                rs.take(k + 1)[q],
            )) is Some && crate::issue::spec_resolve(g, rs.take(k + 1)[q])->0 != full@ by {
                if q < k {
                    assert(rs.take(k + 1)[q] == rs.take(k as int)[q]);
                }
            }
        }
        k += 1;
    }
    assert(rs.take(result_ids.len() as int) =~= rs);
    let ghost rv = strings_view(res@);
    assert(first_bad_result(g, rs, full@, 0) is None);
    assert(rv.len() > 0 ==> result_ids.len() > 0) by {
        if result_ids.len() == 0 {
            assert(resolved_all(g, rs) =~= Seq::<Seq<char>>::empty());
        }
    }
    proof {
        lemma_dedup_unique(resolved_all(g, rs));
        assert forall|q: int| 0 <= q < rv.len() implies has_id(g, #[trigger] rv[q]) by {
            lemma_dedup_contains(resolved_all(g, rs), rv[q]);
            assert(rv.contains(rv[q]));
            let t = choose|t: int| 0 <= t < rs.len() && resolved_all(g, rs)[t] == rv[q];
            assert(crate::issue::spec_resolve(g, rs[t]) is Some);
            crate::dep::lemma_resolved_exists(g, rs[t]);
        }
    }
    let ghost dd = deps_of(g[i0]);
    let mut changed: Vec<String> = Vec::new();
    if res.len() > 0 {
        let dd_vec = copy_strings(issues.values()[i0x].deps());
        assert(strings_view(dd_vec@) == dd);
        // the results inherit the design's dependencies
        let mut a: usize = 0;
        while a < res.len()
            invariant
                a <= res.len(),
                issues.wf(),
                g == old(issues)@,
                crate::issue::spec_resolve(g, partial@) == Some(full@),
            !(is_design(g[crate::ops::index_of(g, full@)]) && result_ids.len() == 0 && !force),
                first_bad_result(g, strings_view(result_ids@), full@, 0) is None,
                result_ids.len() > 0,
                ids_unique(g),
                rv == dedup(resolved_all(g, strings_view(result_ids@))),
                dd == deps_of(g[crate::ops::index_of(g, full@)]),
                rv == strings_view(res@),
                dd == strings_view(dd_vec@),
                forall|q: int| 0 <= q < rv.len() ==> has_id(g, #[trigger] rv[q]),
                forall|x: int, y: int| 0 <= x < y < rv.len() ==> rv[x] != rv[y],
                frame_kept(g, issues@),
                forall|j: int| 0 <= j < g.len() ==> #[trigger] id_of(issues@[j]) == id_of(g[j]),
                forall|j: int, e: Seq<char>|
                    0 <= j < g.len() ==> (#[trigger] has_dep(issues@[j], e) <==> inherited(
                        g,
                        j,
                        rv.take(a as int),
                        dd,
                        e,
                    )),
                forall|j: int| 0 <= j < g.len() && issues@[j] != g[j] ==> strings_view(changed@).contains(#[trigger] id_of(g[j])),
                acyclic(g) ==> acyclic(issues@),
            decreases res.len() - a,
        {
            let mut b: usize = 0;
            while b < dd_vec.len()
                invariant
                    a < res.len(),
                    b <= dd_vec.len(),
                    issues.wf(),
                    g == old(issues)@,
                    crate::issue::spec_resolve(g, partial@) == Some(full@),
            !(is_design(g[crate::ops::index_of(g, full@)]) && result_ids.len() == 0 && !force),
                first_bad_result(g, strings_view(result_ids@), full@, 0) is None,
                result_ids.len() > 0,
                ids_unique(g),
                rv == dedup(resolved_all(g, strings_view(result_ids@))),
                dd == deps_of(g[crate::ops::index_of(g, full@)]),
                    rv == strings_view(res@),
                    dd == strings_view(dd_vec@),
                    forall|q: int| 0 <= q < rv.len() ==> has_id(g, #[trigger] rv[q]),
                    forall|x: int, y: int| 0 <= x < y < rv.len() ==> rv[x] != rv[y],
                    frame_kept(g, issues@),
                    forall|j: int| 0 <= j < g.len() ==> #[trigger] id_of(issues@[j]) == id_of(g[j]),
                    forall|j: int, e: Seq<char>|
                        0 <= j < g.len() ==> (#[trigger] has_dep(issues@[j], e) <==> (inherited(
                            g,
                            j,
                            rv.take(a as int),
                            dd,
                            e,
                        ) || (id_of(g[j]) == rv[a as int] && dd.take(b as int).contains(e) && e != id_of(
                            g[j],
                        )))),
                    forall|j: int| 0 <= j < g.len() && issues@[j] != g[j] ==> strings_view(changed@).contains(#[trigger] id_of(g[j])),
                    acyclic(g) ==> acyclic(issues@),
                decreases dd_vec.len() - b,
            {
                let ghost cur = issues@;
                let child = res[a].as_str();
                let parent = dd_vec[b].as_str();
                proof {
                    let w = choose|w: int| 0 <= w < g.len() && id_of(g[w]) == rv[a as int];
                    assert(id_of(cur[w]) == rv[a as int]);
                    assert(has_id(cur, child@));
                }
                if !str_eq(child, parent) {
                    match add_dep_checked(issues, child, parent) {
                        Ok(true) => {
                            push_unique(&mut changed, child);
                        },
                        Ok(false) => {},
                        Err(e) => {
                            proof {
                                assert(issues@ == cur);
                                let w = choose|w: int| 0 <= w < g.len() && id_of(g[w]) == rv[a as int];
                                assert(rv.contains(rv[a as int]));
                                assert(dd.contains(dd[b as int]));
                                assert(handover_dep(g, w, rv, dd, full@, parent@));
                                assert(handover_edge(g, rv, dd, full@, child@, parent@));
                                assert forall|j: int, e2: Seq<char>| 0 <= j < g.len() && #[trigger] has_dep(cur[j], e2) implies handover_dep(g, j, rv, dd, full@, e2) by {
                                    if inherited(g, j, rv.take(a as int), dd, e2) {
                                        if rv.take(a as int).contains(id_of(g[j])) {
                                            let q = choose|q: int| 0 <= q < a && rv.take(a as int)[q] == id_of(g[j]);
                                            assert(rv[q] == id_of(g[j]));
                                        }
                                    } else {
                                        let q = choose|q: int| 0 <= q < b && dd.take(b as int)[q] == e2;
                                        assert(dd[q] == e2);
                                        assert(rv.contains(id_of(g[j])));
                                    }
                                }
                                lemma_refusal_breaks_handover(g, cur, rv, dd, full@, child@, parent@);
                            }
                            return Err(e);
                        },
                    }
                }
                proof {
                    assert forall|j: int, e: Seq<char>| 0 <= j < g.len() implies (#[trigger] has_dep(issues@[j], e) <==> (inherited(
                            g,
                            j,
                            rv.take(a as int),
                            dd,
                            e,
                        ) || (id_of(g[j]) == rv[a as int] && dd.take(b + 1).contains(e) && e != id_of(
                            g[j],
                        )))) by {
                        lemma_push_contains(dd.take(b as int), dd[b as int], e);
                        assert(dd.take(b + 1) =~= dd.take(b as int).push(dd[b as int]));
                        assert(has_dep(cur[j], e) <==> (inherited(g, j, rv.take(a as int), dd, e) || (id_of(g[j]) == rv[a as int] && dd.take(b as int).contains(e) && e != id_of(g[j]))));
                        if issues@ != cur {
                            let w = choose|w: int|
                                0 <= w < cur.len() && id_of(cur[w]) == child@ && deps_replaced_at(
                                    cur,
                                    issues@,
                                    w,
                                    deps_of(cur[w]).push(parent@),
                                ) && !has_dep(cur[w], parent@);
                            if j == w {
                                lemma_push_contains(deps_of(cur[w]), parent@, e);
                            } else {
                                assert(issues@[j] == cur[j]);
                                assert(id_of(g[j]) != rv[a as int]);
                            }
                        } else {
                            if id_of(g[j]) == rv[a as int] && e == dd[b as int] && e != id_of(g[j]) {
                                assert(has_dep(cur[j], parent@)) by {
                                    assert(crate::ops::index_of(cur, child@) == j) by {
                                        let ii = crate::ops::index_of(cur, child@);
                                        if ii != j {
                                            assert(id_of(cur[ii]) != id_of(cur[j]));
                                        }
                                    }
                                }
                            }
                        }
                    }
                    assert forall|j: int| 0 <= j < g.len() implies #[trigger] deps_only(g[j], issues@[j]) by {
                        if issues@ != cur {
                            let w = choose|w: int|
                                0 <= w < cur.len() && id_of(cur[w]) == child@ && deps_replaced_at(
                                    cur,
                                    issues@,
                                    w,
                                    deps_of(cur[w]).push(parent@),
                                ) && !has_dep(cur[w], parent@);
                            if j != w {
                                assert(issues@[j] == cur[j]);
                            } else {
                                assert(deps_only(cur[j], issues@[j]));
                                assert(deps_only(g[j], cur[j]));
                                assert(issues@[j].frontmatter == IssueFrontmatter {
                                    deps: issues@[j].frontmatter.deps,
                                    ..g[j].frontmatter
                                });
                            }
                        }
                    }
                    assert forall|j: int| 0 <= j < g.len() && issues@[j] != g[j] implies strings_view(changed@).contains(#[trigger] id_of(g[j])) by {
                        if issues@[j] != cur[j] {
                            let w = choose|w: int|
                                0 <= w < cur.len() && id_of(cur[w]) == child@ && deps_replaced_at(
                                    cur,
                                    issues@,
                                    w,
                                    deps_of(cur[w]).push(parent@),
                                ) && !has_dep(cur[w], parent@);
                            assert(j == w);
                        }
                    }
                }
                b += 1;
            }
            proof {
                assert(dd.take(dd_vec.len() as int) =~= dd);
                assert forall|j: int, e: Seq<char>| 0 <= j < g.len() implies (#[trigger] has_dep(issues@[j], e) <==> inherited(
                        g,
                        j,
                        rv.take(a + 1),
                        dd,
                        e,
                    )) by {
                    lemma_push_contains(rv.take(a as int), rv[a as int], id_of(g[j]));
                    assert(rv.take(a + 1) =~= rv.take(a as int).push(rv[a as int]));
                }
            }
            a += 1;
        }
        assert(rv.take(res.len() as int) =~= rv);
        // the issues that waited on the design now wait on the results
        let ghost g1 = issues@;
        let mut dependents: Vec<String> = Vec::new();
        {
            let vals = issues.values();
            let mut j: usize = 0;
            while j < vals.len()
                invariant
                    j <= vals.len(),
                    vals@ == g1,
                    strings_view(dependents@) == dependents_of(g1.take(j as int), full@),
                decreases vals.len() - j,
            {
                assert(g1.take(j + 1).drop_last() =~= g1.take(j as int));
                if lists_dep_of(vals[j].deps(), full.as_str()) {
                    let ghost d0 = strings_view(dependents@);
                    dependents.push(to_owned_string(vals[j].frontmatter.id.as_str()));
                    assert(strings_view(dependents@) =~= d0.push(id_of(g1[j as int])));
                }
                j += 1;
            }
            assert(g1.take(vals.len() as int) =~= g1);
        }
        let ghost dl = strings_view(dependents@);
        proof {
            lemma_dependents_of(g1, full@);
            assert forall|j: int| 0 <= j < g.len() implies (dl.contains(#[trigger] id_of(g[j]))
                <==> inherited(g, j, rv, dd, full@)) by {
                assert(id_of(g1[j]) == id_of(g[j]));
            }
        }
        let mut c: usize = 0;
        while c < dependents.len()
            invariant
                c <= dependents.len(),
                issues.wf(),
                rv.len() > 0,
                g == old(issues)@,
                crate::issue::spec_resolve(g, partial@) == Some(full@),
                !(is_design(g[crate::ops::index_of(g, full@)]) && result_ids.len() == 0 && !force),
                first_bad_result(g, strings_view(result_ids@), full@, 0) is None,
                result_ids.len() > 0,
                ids_unique(g),
                rv == dedup(resolved_all(g, strings_view(result_ids@))),
                dd == deps_of(g[crate::ops::index_of(g, full@)]),
                rv == strings_view(res@),
                dl == strings_view(dependents@),
                forall|q: int| 0 <= q < rv.len() ==> has_id(g, #[trigger] rv[q]),
                forall|q: int| 0 <= q < dl.len() ==> has_id(g, #[trigger] dl[q]),
                forall|x: int, y: int| 0 <= x < y < dl.len() ==> dl[x] != dl[y],
                forall|j: int| 0 <= j < g.len() ==> (dl.contains(#[trigger] id_of(g[j])) <==> inherited(g, j, rv, dd, full@)),
                frame_kept(g, issues@),
                forall|j: int| 0 <= j < g.len() ==> #[trigger] id_of(issues@[j]) == id_of(g[j]),
                forall|j: int, e: Seq<char>|
                    0 <= j < g.len() ==> (#[trigger] has_dep(issues@[j], e) <==> if dl.take(c as int).contains(id_of(g[j])) {
                        (inherited(g, j, rv, dd, e) && e != full@) || (!rv.contains(id_of(g[j])) && rv.contains(e) && e != id_of(g[j]))
                    } else {
                        inherited(g, j, rv, dd, e)
                    }),
                forall|j: int| 0 <= j < g.len() && issues@[j] != g[j] ==> strings_view(changed@).contains(#[trigger] id_of(g[j])),
                acyclic(g) ==> acyclic(issues@),
            decreases dependents.len() - c,
        {
            let ghost cur = issues@;
            let y = dependents[c].as_str();
            proof {
                let w = choose|w: int| 0 <= w < g.len() && id_of(g[w]) == dl[c as int];
                assert(id_of(cur[w]) == dl[c as int]);
                assert(!dl.take(c as int).contains(dl[c as int])) by {
                    if dl.take(c as int).contains(dl[c as int]) {
                        let q = choose|q: int| 0 <= q < c && dl.take(c as int)[q] == dl[c as int];
                        assert(dl[q] == dl[c as int]);
                    }
                }
                assert(dl.take(c + 1) =~= dl.take(c as int).push(dl[c as int]));
            }
            remove_dep(issues, y, full.as_str());
            push_unique(&mut changed, y);
            let ghost yw = choose|w: int|
                0 <= w < cur.len() && id_of(cur[w]) == y@ && deps_replaced_at(
                    cur,
                    issues@,
                    w,
                    without(deps_of(cur[w]), full@),
                );
            proof {
                assert forall|j: int, e: Seq<char>| 0 <= j < g.len() implies (#[trigger] has_dep(issues@[j], e) <==> if dl.take(c as int).contains(id_of(g[j])) {
                        (inherited(g, j, rv, dd, e) && e != full@) || (!rv.contains(id_of(g[j])) && rv.contains(e) && e != id_of(g[j]))
                    } else if j == yw {
                        inherited(g, j, rv, dd, e) && e != full@
                    } else {
                        inherited(g, j, rv, dd, e)
                    }) by {
                    assert(has_dep(cur[j], e) <==> if dl.take(c as int).contains(id_of(g[j])) {
                        (inherited(g, j, rv, dd, e) && e != full@) || (!rv.contains(id_of(g[j])) && rv.contains(e) && e != id_of(g[j]))
                    } else {
                        inherited(g, j, rv, dd, e)
                    });
                    if j == yw {
                        lemma_without_sub(deps_of(cur[j]), full@, e);
                        assert(id_of(g[j]) == dl[c as int]);
                        assert(!dl.take(c as int).contains(id_of(g[j])));
                    } else {
                        assert(issues@[j] == cur[j]);
                    }
                }
                assert forall|j: int| 0 <= j < g.len() implies #[trigger] deps_only(g[j], issues@[j]) by {
                    if j != yw {
                        assert(issues@[j] == cur[j]);
                    } else {
                        assert(deps_only(cur[j], issues@[j]));
                        assert(deps_only(g[j], cur[j]));
                    }
                }
                assert forall|j: int| 0 <= j < g.len() && issues@[j] != g[j] implies strings_view(changed@).contains(#[trigger] id_of(g[j])) by {
                    if j == yw {
                        assert(id_of(g[j]) == y@);
                    } else {
                        assert(issues@[j] == cur[j]);
                    }
                }
            }
            if !lists_dep_of(res.as_slice(), y) {
                proof {
                    assert(dl.contains(dl[c as int]));
                    assert(id_of(g[yw]) == dl[c as int]);
                }
                let mut a2: usize = 0;
                while a2 < res.len()
                    invariant
                        a2 <= res.len(),
                        issues.wf(),
                        g == old(issues)@,
                        crate::issue::spec_resolve(g, partial@) == Some(full@),
                        !(is_design(g[crate::ops::index_of(g, full@)]) && result_ids.len() == 0 && !force),
                first_bad_result(g, strings_view(result_ids@), full@, 0) is None,
                result_ids.len() > 0,
                ids_unique(g),
                rv == dedup(resolved_all(g, strings_view(result_ids@))),
                dd == deps_of(g[crate::ops::index_of(g, full@)]),
                        !dl.take(c as int).contains(y@),
                        rv == strings_view(res@),
                        !rv.contains(y@),
                        rv.len() > 0,
                        c < dl.len(),
                        inherited(g, yw, rv, dd, full@),
                        forall|j: int| 0 <= j < g.len() ==> (dl.contains(#[trigger] id_of(g[j])) <==> inherited(g, j, rv, dd, full@)),
                        0 <= yw < g.len(),
                        id_of(g[yw]) == y@,
                        forall|q: int| 0 <= q < rv.len() ==> has_id(g, #[trigger] rv[q]),
                        frame_kept(g, issues@),
                        forall|j: int| 0 <= j < g.len() ==> #[trigger] id_of(issues@[j]) == id_of(g[j]),
                        forall|j: int, e: Seq<char>|
                            0 <= j < g.len() ==> (#[trigger] has_dep(issues@[j], e) <==> if dl.take(c as int).contains(id_of(g[j])) {
                                (inherited(g, j, rv, dd, e) && e != full@) || (!rv.contains(id_of(g[j])) && rv.contains(e) && e != id_of(g[j]))
                            } else if j == yw {
                                (inherited(g, j, rv, dd, e) && e != full@) || (rv.take(a2 as int).contains(e) && e != id_of(g[j]))
                            } else {
                                inherited(g, j, rv, dd, e)
                            }),
                        forall|j: int| 0 <= j < g.len() && issues@[j] != g[j] ==> strings_view(changed@).contains(#[trigger] id_of(g[j])),
                        acyclic(g) ==> acyclic(issues@),
                    decreases res.len() - a2,
                {
                    let ghost cur2 = issues@;
                    let target = res[a2].as_str();
                    proof {
                        assert(id_of(cur2[yw]) == y@);
                        assert(rv.take(a2 + 1) =~= rv.take(a2 as int).push(rv[a2 as int]));
                    }
                    if !str_eq(y, target) {
                        match add_dep_checked(issues, y, target) {
                            Ok(true) => {
                                push_unique(&mut changed, y);
                            },
                            Ok(false) => {},
                            Err(e) => {
                                proof {
                                    assert(issues@ == cur2);
                                    assert(rv.contains(rv[a2 as int]));
                                    assert(handover_dep(g, yw, rv, dd, full@, target@));
                                    assert(handover_edge(g, rv, dd, full@, y@, target@));
                                    assert forall|j: int, e2: Seq<char>| 0 <= j < g.len() && #[trigger] has_dep(cur2[j], e2) implies handover_dep(g, j, rv, dd, full@, e2) by {
                                        if dl.take(c as int).contains(id_of(g[j])) {
                                            let q = choose|q: int| 0 <= q < c && dl.take(c as int)[q] == id_of(g[j]);
                                            assert(dl[q] == id_of(g[j]));
                                            assert(dl.contains(id_of(g[j])));
                                        } else if j == yw {
                                            if rv.take(a2 as int).contains(e2) && e2 != id_of(g[j]) {
                                                let q = choose|q: int| 0 <= q < a2 && rv.take(a2 as int)[q] == e2;
                                                assert(rv[q] == e2);
                                            }
                                        }
                                    }
                                    lemma_refusal_breaks_handover(g, cur2, rv, dd, full@, y@, target@);
                                }
                                return Err(e);
                            },
                        }
                    }
                    proof {
                        assert forall|j: int, e: Seq<char>| 0 <= j < g.len() implies (#[trigger] has_dep(issues@[j], e) <==> if dl.take(c as int).contains(id_of(g[j])) {
                                (inherited(g, j, rv, dd, e) && e != full@) || (!rv.contains(id_of(g[j])) && rv.contains(e) && e != id_of(g[j]))
                            } else if j == yw {
                                (inherited(g, j, rv, dd, e) && e != full@) || (rv.take(a2 + 1).contains(e) && e != id_of(g[j]))
                            } else {
                                inherited(g, j, rv, dd, e)
                            }) by {
                            lemma_push_contains(rv.take(a2 as int), rv[a2 as int], e);
                            assert(has_dep(cur2[j], e) <==> if dl.take(c as int).contains(id_of(g[j])) {
                                (inherited(g, j, rv, dd, e) && e != full@) || (!rv.contains(id_of(g[j])) && rv.contains(e) && e != id_of(g[j]))
                            } else if j == yw {
                                (inherited(g, j, rv, dd, e) && e != full@) || (rv.take(a2 as int).contains(e) && e != id_of(g[j]))
                            } else {
                                inherited(g, j, rv, dd, e)
                            });
                            if issues@ != cur2 {
                                let w = choose|w: int|
                                    0 <= w < cur2.len() && id_of(cur2[w]) == y@ && deps_replaced_at(
                                        cur2,
                                        issues@,
                                        w,
                                        deps_of(cur2[w]).push(target@),
                                    ) && !has_dep(cur2[w], target@);
                                if w != yw {
                                    assert(id_of(cur2[w]) != id_of(cur2[yw]));
                                }
                                if j == w {
                                    lemma_push_contains(deps_of(cur2[w]), target@, e);
                                } else {
                                    assert(issues@[j] == cur2[j]);
                                }
                            } else if j == yw && e == target@ && e != y@ {
                                assert(crate::ops::index_of(cur2, y@) == yw) by {
                                    let ii = crate::ops::index_of(cur2, y@);
                                    if ii != yw {
                                        assert(id_of(cur2[ii]) != id_of(cur2[yw]));
                                    }
                                }
                            }
                        }
                        assert forall|j: int| 0 <= j < g.len() implies #[trigger] deps_only(g[j], issues@[j]) by {
                            if issues@ != cur2 {
                                let w = choose|w: int|
                                    0 <= w < cur2.len() && id_of(cur2[w]) == y@ && deps_replaced_at(
                                        cur2,
                                        issues@,
                                        w,
                                        deps_of(cur2[w]).push(target@),
                                    ) && !has_dep(cur2[w], target@);
                                if j != w {
                                    assert(issues@[j] == cur2[j]);
                                } else {
                                    assert(deps_only(cur2[j], issues@[j]));
                                    assert(deps_only(g[j], cur2[j]));
                                }
                            }
                        }
                        assert forall|j: int| 0 <= j < g.len() && issues@[j] != g[j] implies strings_view(changed@).contains(#[trigger] id_of(g[j])) by {
                            if issues@[j] != cur2[j] {
                                let w = choose|w: int|
                                    0 <= w < cur2.len() && id_of(cur2[w]) == y@ && deps_replaced_at(
                                        cur2,
                                        issues@,
                                        w,
                                        deps_of(cur2[w]).push(target@),
                                    ) && !has_dep(cur2[w], target@);
                                assert(j == w);
                            }
                        }
                    }
                    a2 += 1;
                }
                assert(rv.take(res.len() as int) =~= rv);
            }
            proof {
                assert forall|j: int, e: Seq<char>| 0 <= j < g.len() implies (#[trigger] has_dep(issues@[j], e) <==> if dl.take(c + 1).contains(id_of(g[j])) {
                        (inherited(g, j, rv, dd, e) && e != full@) || (!rv.contains(id_of(g[j])) && rv.contains(e) && e != id_of(g[j]))
                    } else {
                        inherited(g, j, rv, dd, e)
                    }) by {
                    lemma_push_contains(dl.take(c as int), dl[c as int], id_of(g[j]));
                    if j != yw {
                        assert(id_of(g[j]) != y@) by {
                            if id_of(g[j]) == y@ {
                                assert(id_of(g[yw]) == id_of(g[j]));
                            }
                        }
                    }
                }
            }
            c += 1;
        }
        assert(dl.take(dependents.len() as int) =~= dl);
    }
    // the issue itself is done
    let ghost pre = issues@;
    proof {
        assert(id_of(pre[i0]) == full@);
        assert(results_ok(g, rs, full@));
        assert(rv == dedup(resolved_all(g, rs)));
        assert(frame_kept(g, pre));
        assert forall|j: int, e: Seq<char>| 0 <= j < g.len() implies (#[trigger] has_dep(pre[j], e)
            <==> transferred(g, j, rv, dd, full@, e)) by {
            if rv.len() == 0 {
                assert(!rv.contains(id_of(g[j])));
                assert(pre[j] == g[j]);
            }
        }
        assert forall|j: int| 0 <= j < g.len() && pre[j] != g[j] implies strings_view(changed@).contains(#[trigger] id_of(g[j])) by {
            if rv.len() == 0 {
                assert(pre[j] == g[j]);
            }
        }
    }
    let upd = crate::ops::update_status(issues, full.as_str(), crate::issue::Status::Done, None, true);
    push_unique(&mut changed, full.as_str());
    proof {
        let iu = upd->0;
        if iu != i0 {
            assert(id_of(pre[iu as int]) != id_of(pre[i0]));
        }
        assert forall|j: int| 0 <= j < g.len() implies #[trigger] id_of(issues@[j]) == id_of(g[j])
            && deps_of(issues@[j]) == deps_of(pre[j]) by {
            if j != i0 {
                assert(issues@[j] == pre[j]);
            }
        }
        if acyclic(g) {
            lemma_same_edges_acyclic(pre, issues@);
        }
        assert forall|j: int, e: Seq<char>| 0 <= j < g.len() implies (#[trigger] has_dep(issues@[j], e)
            <==> transferred(g, j, rv, dd, full@, e)) by {
            assert(has_dep(pre[j], e) <==> transferred(g, j, rv, dd, full@, e));
        }
        assert forall|j: int| 0 <= j < g.len() && j != i0 implies #[trigger] deps_only(g[j], issues@[j]) by {
            assert(issues@[j] == pre[j]);
            assert(deps_only(g[j], pre[j]));
        }
        assert(deps_only(g[i0], pre[i0]));
        assert forall|j: int| 0 <= j < g.len() && issues@[j] != g[j] implies strings_view(changed@).contains(#[trigger] id_of(g[j])) by {
            if j != i0 {
                assert(issues@[j] == pre[j]);
            }
        }
    }
    Ok((full, changed))
}

} // verus!
