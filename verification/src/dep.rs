//! Adding and removing dependencies between issues.

use vstd::prelude::*;

use crate::error::BrdError;
use crate::graph::{
    acyclic, edge, is_cycle, is_walk, path_view, reaches, step, would_create_cycle,
};
use crate::issue::{
    IssueFrontmatter, has_id, matching_ids, strings_view, deps_of, find_index, id_of, ids_unique, resolve_issue_id, spec_resolve, IssueMap, Issue,
};
use crate::text::{join_seqs, join_strings, push_str, str_eq, to_owned_string};
use vstd::string::StringExecFns;

verus! {

/// `g2` is `g` with `p` added to the dependencies of the issue named `b`.
pub open spec fn dep_added(g: Seq<Issue>, g2: Seq<Issue>, b: Seq<char>, p: Seq<char>) -> bool {
    &&& g2.len() == g.len()
    &&& forall|i: int|
        0 <= i < g.len() ==> {
            &&& #[trigger] id_of(g2[i]) == id_of(g[i])
            &&& id_of(g[i]) != b ==> deps_of(g2[i]) == deps_of(g[i])
            &&& id_of(g[i]) == b ==> forall|e: Seq<char>|
                deps_of(g2[i]).contains(e) <==> deps_of(g[i]).contains(e) || e == p
        }
}

/// `g2` is `g` with only dependencies taken away: same ids, and no issue gains a dependency.
pub open spec fn deps_shrunk(g: Seq<Issue>, g2: Seq<Issue>) -> bool {
    &&& g2.len() == g.len()
    &&& forall|i: int|
        0 <= i < g.len() ==> {
            &&& #[trigger] id_of(g2[i]) == id_of(g[i])
            &&& forall|e: Seq<char>| deps_of(g2[i]).contains(e) ==> deps_of(g[i]).contains(e)
        }
}

proof fn lemma_added_edge(g: Seq<Issue>, g2: Seq<Issue>, b: Seq<char>, p: Seq<char>, x: Seq<char>, y: Seq<char>)
    requires
        dep_added(g, g2, b, p),
        edge(g2, x, y),
    ensures
        edge(g, x, y) || (x == b && y == p),
{
    let i = choose|i: int| 0 <= i < g2.len() && id_of(g2[i]) == x && deps_of(g2[i]).contains(y);
    assert(id_of(g2[i]) == id_of(g[i]));
    if id_of(g[i]) != b {
        assert(deps_of(g[i]).contains(y));
    } else if y != p {
        assert(deps_of(g[i]).contains(y));
    }
}

/// Walks compose.
pub proof fn lemma_reach_trans(g: Seq<Issue>, x: Seq<char>, y: Seq<char>, z: Seq<char>)
    requires
        reaches(g, x, y),
        reaches(g, y, z),
    ensures
        reaches(g, x, z),
{
    let p = choose|p: Seq<Seq<char>>| is_walk(g, p) && p[0] == x && p.last() == y;
    let q = choose|q: Seq<Seq<char>>| is_walk(g, q) && q[0] == y && q.last() == z;
    let w = p + q.skip(1);
    assert forall|k: int| 0 <= k < w.len() - 1 implies #[trigger] step(g, w, k) by {
        if k < p.len() - 1 {
            assert(step(g, p, k));
        } else {
            assert(step(g, q, k - p.len() + 1));
            assert(w[k] == q[k - p.len() + 1]);
        }
    }
    assert(w.last() == z);
}

/// An edge is a walk.
pub proof fn lemma_edge_reach(g: Seq<Issue>, x: Seq<char>, y: Seq<char>)
    requires
        edge(g, x, y),
    ensures
        reaches(g, x, y),
{
    let w = seq![x, y];
    assert(step(g, w, 0));
    assert(is_walk(g, w) && w[0] == x && w.last() == y);
}

/// Every id reaches itself.
pub proof fn lemma_reach_refl(g: Seq<Issue>, x: Seq<char>)
    ensures
        reaches(g, x, x),
{
    let w = seq![x];
    assert(is_walk(g, w) && w[0] == x && w.last() == x);
}

proof fn lemma_added_walk(
    g: Seq<Issue>,
    g2: Seq<Issue>,
    b: Seq<char>,
    p: Seq<char>,
    w: Seq<Seq<char>>,
    k: int,
)
    requires
        dep_added(g, g2, b, p),
        is_walk(g2, w),
        0 <= k < w.len(),
    ensures
        reaches(g, w[0], w[k]) || (reaches(g, w[0], b) && reaches(g, p, w[k])),
    decreases k,
{
    if k == 0 {
        lemma_reach_refl(g, w[0]);
    } else {
        lemma_added_walk(g, g2, b, p, w, k - 1);
        assert(step(g2, w, k - 1));
        lemma_added_edge(g, g2, b, p, w[k - 1], w[k]);
        if edge(g, w[k - 1], w[k]) {
            lemma_edge_reach(g, w[k - 1], w[k]);
            if reaches(g, w[0], w[k - 1]) {
                lemma_reach_trans(g, w[0], w[k - 1], w[k]);
            } else {
                lemma_reach_trans(g, p, w[k - 1], w[k]);
            }
        } else {
            lemma_reach_refl(g, p);
            if !reaches(g, w[0], w[k - 1]) {
                lemma_reach_trans(g, p, w[k - 1], b);
                lemma_reach_trans(g, w[0], b, b);
            }
        }
    }
}

/// Adding the dependency `b -> p` to an acyclic graph keeps it acyclic when `p` does not
/// already reach `b`.
pub proof fn lemma_add_dep_keeps_acyclic(g: Seq<Issue>, g2: Seq<Issue>, b: Seq<char>, p: Seq<char>)
    requires
        acyclic(g),
        !reaches(g, p, b),
        dep_added(g, g2, b, p),
    ensures
        acyclic(g2),
{
    assert forall|c: Seq<Seq<char>>| !is_cycle(g2, c) by {
        if is_cycle(g2, c) {
            assert(step(g2, c, 0));
            lemma_added_edge(g, g2, b, p, c[0], c[1]);
            let w = c.skip(1);
            assert forall|k: int| 0 <= k < w.len() - 1 implies #[trigger] step(g2, w, k) by {
                assert(step(g2, c, k + 1));
            }
            lemma_added_walk(g, g2, b, p, w, w.len() - 1);
            assert(w.last() == c[0]);
            if edge(g, c[0], c[1]) {
                if reaches(g, c[1], c[0]) {
                    let q = choose|q: Seq<Seq<char>>|
                        is_walk(g, q) && q[0] == c[1] && q.last() == c[0];
                    let cyc = seq![c[0]] + q;
                    assert forall|k: int| 0 <= k < cyc.len() - 1 implies #[trigger] step(g, cyc, k) by {
                        if k > 0 {
                            assert(step(g, q, k - 1));
                        }
                    }
                    assert(is_cycle(g, cyc));
                } else {
                    lemma_edge_reach(g, c[0], c[1]);
                    lemma_reach_trans(g, p, c[0], c[1]);
                    lemma_reach_trans(g, p, c[1], b);
                }
            } else {
                if reaches(g, c[1], c[0]) {
                } else {
                    lemma_reach_trans(g, c[1], b, b);
                }
            }
        }
    }
}

/// Taking dependencies away keeps an acyclic graph acyclic.
pub proof fn lemma_rm_dep_keeps_acyclic(g: Seq<Issue>, g2: Seq<Issue>)
    requires
        acyclic(g),
        deps_shrunk(g, g2),
    ensures
        acyclic(g2),
{
    assert forall|c: Seq<Seq<char>>| !is_cycle(g2, c) by {
        if is_cycle(g2, c) {
            assert forall|k: int| 0 <= k < c.len() - 1 implies #[trigger] step(g, c, k) by {
                assert(step(g2, c, k));
                let i = choose|i: int|
                    0 <= i < g2.len() && id_of(g2[i]) == c[k] && deps_of(g2[i]).contains(c[k + 1]);
                assert(id_of(g2[i]) == id_of(g[i]));
                assert(deps_of(g[i]).contains(c[k + 1]));
            }
            assert(is_cycle(g, c));
        }
    }
}


/// The entries of `s` other than `p`, in order.
pub open spec fn without(s: Seq<Seq<char>>, p: Seq<char>) -> Seq<Seq<char>>
    decreases s.len(),
{
    if s.len() == 0 {
        s
    } else if s.last() == p {
        without(s.drop_last(), p)
    } else {
        without(s.drop_last(), p).push(s.last())
    }
}

pub(crate) proof fn lemma_push_contains(s: Seq<Seq<char>>, x: Seq<char>, e: Seq<char>)
    ensures
        s.push(x).contains(e) <==> s.contains(e) || e == x,
{
    if s.push(x).contains(e) && e != x {
        let k = choose|k: int| 0 <= k < s.len() + 1 && s.push(x)[k] == e;
        assert(s[k] == e);
    }
    if s.contains(e) {
        let k = choose|k: int| 0 <= k < s.len() && s[k] == e;
        assert(s.push(x)[k] == e);
    }
    if e == x {
        assert(s.push(x)[s.len() as int] == e);
    }
}

pub(crate) proof fn lemma_without_sub(s: Seq<Seq<char>>, p: Seq<char>, e: Seq<char>)
    ensures
        without(s, p).contains(e) <==> s.contains(e) && e != p,
    decreases s.len(),
{
    if s.len() > 0 {
        let s1 = s.drop_last();
        lemma_without_sub(s1, p, e);
        assert(s =~= s1.push(s.last()));
        lemma_push_contains(s1, s.last(), e);
        if s.last() != p {
            lemma_push_contains(without(s1, p), s.last(), e);
        }
    }
}

/// Ids that a resolved partial id can stand for exist.
pub(crate) proof fn lemma_resolved_exists(g: Seq<Issue>, p: Seq<char>)
    requires
        spec_resolve(g, p) is Some,
    ensures
        has_id(g, spec_resolve(g, p)->0),
{
    if !has_id(g, p) {
        lemma_matching_has_id(g, p, 0);
    }
}

proof fn lemma_matching_has_id(g: Seq<Issue>, p: Seq<char>, k: int)
    requires
        0 <= k < matching_ids(g, p).len(),
    ensures
        has_id(g, matching_ids(g, p)[k]),
    decreases g.len(),
{
    if g.len() > 0 {
        let prev = matching_ids(g.drop_last(), p);
        if k < prev.len() {
            lemma_matching_has_id(g.drop_last(), p, k);
            let i = choose|i: int| 0 <= i < g.len() - 1 && id_of(g.drop_last()[i]) == prev[k];
            assert(id_of(g[i]) == prev[k]);
        } else {
            assert(id_of(g[g.len() - 1]) == matching_ids(g, p)[k]);
        }
    }
}

pub(crate) fn copy_strings(v: &[String]) -> (r: Vec<String>)
    ensures
        strings_view(r@) == strings_view(v@),
{
    let mut r: Vec<String> = Vec::new();
    let mut i: usize = 0;
    while i < v.len()
        invariant
            i <= v.len(),
            strings_view(r@) == strings_view(v@).take(i as int),
        decreases v.len() - i,
    {
        let ghost r0 = r@;
        let x = to_owned_string(v[i].as_str());
        r.push(x);
        assert(r@ == r0.push(x));
        assert(strings_view(r@) =~= strings_view(r0).push(v@[i as int]@));
        assert(strings_view(r@) =~= strings_view(v@).take(i + 1));
        i += 1;
    }
    assert(strings_view(v@).take(v.len() as int) =~= strings_view(v@));
    r
}

/// Makes the issue `blocked_id` depend on `blocker_id` (both resolved as partial ids).
/// Refuses a self-dependency and a dependency that would close a cycle; adding a
/// dependency that is already present changes nothing. Returns the two resolved ids.
pub fn add_dep(issues: &mut IssueMap, blocked_id: &str, blocker_id: &str) -> (r: Result<
    (String, String),
    BrdError,
>)
    requires
        old(issues).wf(),
    ensures
        final(issues).wf(),
        r is Ok <==> {
            &&& spec_resolve(old(issues)@, blocked_id@) is Some
            &&& spec_resolve(old(issues)@, blocker_id@) is Some
            &&& spec_resolve(old(issues)@, blocked_id@) != spec_resolve(old(issues)@, blocker_id@)
            &&& !reaches(
                old(issues)@,
                spec_resolve(old(issues)@, blocker_id@)->0,
                spec_resolve(old(issues)@, blocked_id@)->0,
            )
        },
        r is Err ==> final(issues)@ == old(issues)@,
        r matches Ok((b, p)) ==> {
            &&& Some(b@) == spec_resolve(old(issues)@, blocked_id@)
            &&& Some(p@) == spec_resolve(old(issues)@, blocker_id@)
            &&& dep_added(old(issues)@, final(issues)@, b@, p@)
            &&& forall|i: int|
                0 <= i < old(issues)@.len() ==> #[trigger] final(issues)@[i].frontmatter == (
                IssueFrontmatter { deps: final(issues)@[i].frontmatter.deps, ..old(issues)@[i].frontmatter })
                && final(issues)@[i].body == old(issues)@[i].body
            &&& forall|i: int|
                0 <= i < old(issues)@.len() ==> #[trigger] deps_of(final(issues)@[i]) == if id_of(
                    old(issues)@[i],
                ) == b@ && !deps_of(old(issues)@[i]).contains(p@) {
                    deps_of(old(issues)@[i]).push(p@)
                } else {
                    deps_of(old(issues)@[i])
                }
        },
        r matches Err(BrdError::Other(m)) ==> (spec_resolve(old(issues)@, blocked_id@) is Some
            && spec_resolve(old(issues)@, blocker_id@) is Some ==> {
            ||| (spec_resolve(old(issues)@, blocked_id@) == spec_resolve(old(issues)@, blocker_id@)
                && m@ == "cannot add self-dependency"@)
            ||| exists|c: Seq<Seq<char>>|
                is_walk(old(issues)@, c.skip(1)) && m@ == "cannot add dependency: would create cycle: "@
                    + join_seqs(c, " -> "@)
        }),
        acyclic(old(issues)@) && r is Ok ==> acyclic(final(issues)@),
{
    let b = match resolve_issue_id(blocked_id, issues) {
        Ok(b) => b,
        Err(e) => {
            return Err(e);
        },
    };
    let p = match resolve_issue_id(blocker_id, issues) {
        Ok(p) => p,
        Err(e) => {
            return Err(e);
        },
    };
    if str_eq(b.as_str(), p.as_str()) {
        return Err(BrdError::Other(String::from_str("cannot add self-dependency")));
    }
    match would_create_cycle(b.as_str(), p.as_str(), issues) {
        Some(path) => {
            let mut msg = String::from_str("cannot add dependency: would create cycle: ");
            let joined = join_strings(path.as_slice(), " -> ");
            push_str(&mut msg, joined.as_str());
            proof {
                assert(path@.map_values(|s: String| s@) =~= path_view(path@));
            }
            return Err(BrdError::Other(msg));
        },
        None => {},
    }
    proof {
        lemma_resolved_exists(old(issues)@, blocked_id@);
    }
    let ghost g = issues@;
    let i = match find_index(issues.values(), b.as_str()) {
        Some(i) => i,
        None => {
            return Err(BrdError::IssueNotFound(to_owned_string(blocked_id)));
        },
    };
    let deps = issues.values()[i].deps();
    let present = lists_dep_of(deps, p.as_str());
    if !present {
        let mut nd = copy_strings(deps);
        nd.push(to_owned_string(p.as_str()));
        assert(strings_view(nd@) =~= deps_of(g[i as int]).push(p@));
        issues.set_deps(b.as_str(), nd);
    }
    proof {
        assert forall|ii: int| 0 <= ii < g.len() implies {
            &&& #[trigger] id_of(issues@[ii]) == id_of(g[ii])
            &&& id_of(g[ii]) != b@ ==> deps_of(issues@[ii]) == deps_of(g[ii])
            &&& id_of(g[ii]) == b@ ==> forall|e: Seq<char>|
                deps_of(issues@[ii]).contains(e) <==> deps_of(g[ii]).contains(e) || e == p@
        } by {
            if id_of(g[ii]) == b@ {
                assert(ii == i);
                if !present {
                    assert(deps_of(issues@[ii]) == deps_of(g[ii]).push(p@));
                    assert forall|e: Seq<char>| deps_of(issues@[ii]).contains(e) <==> deps_of(
                        g[ii],
                    ).contains(e) || e == p@ by {
                        let s0 = deps_of(g[ii]);
                        if s0.push(p@).contains(e) && e != p@ {
                            let k = choose|k: int| 0 <= k < s0.len() + 1 && s0.push(p@)[k] == e;
                            assert(s0[k] == e);
                        }
                        if s0.contains(e) {
                            let k = choose|k: int| 0 <= k < s0.len() && s0[k] == e;
                            assert(s0.push(p@)[k] == e);
                        }
                        if e == p@ {
                            assert(s0.push(p@)[s0.len() as int] == e);
                        }
                    }
                }
            }
        }
        if acyclic(g) {
            lemma_add_dep_keeps_acyclic(g, issues@, b@, p@);
        }
    }
    Ok((b, p))
}

/// Whether the dependency list `deps` names `k`.
pub(crate) fn lists_dep_of(deps: &[String], k: &str) -> (r: bool)
    ensures
        r == strings_view(deps@).contains(k@),
{
    let mut i: usize = 0;
    while i < deps.len()
        invariant
            i <= deps.len(),
            forall|q: int| 0 <= q < i ==> deps@[q]@ != k@,
        decreases deps.len() - i,
    {
        if str_eq(deps[i].as_str(), k) {
            assert(strings_view(deps@)[i as int] == k@);
            return true;
        }
        i += 1;
    }
    proof {
        if strings_view(deps@).contains(k@) {
            let q = choose|q: int| 0 <= q < deps@.len() && strings_view(deps@)[q] == k@;
            assert(deps@[q]@ == k@);
        }
    }
    false
}

/// Removes `blocker_id` from the dependencies of `blocked_id` (both resolved as partial
/// ids). Returns the two resolved ids.
pub fn rm_dep(issues: &mut IssueMap, blocked_id: &str, blocker_id: &str) -> (r: Result<
    (String, String),
    BrdError,
>)
    requires
        old(issues).wf(),
    ensures
        final(issues).wf(),
        r is Ok <==> spec_resolve(old(issues)@, blocked_id@) is Some && spec_resolve(
            old(issues)@,
            blocker_id@,
        ) is Some,
        r is Err ==> final(issues)@ == old(issues)@,
        r matches Ok((b, p)) ==> {
            &&& Some(b@) == spec_resolve(old(issues)@, blocked_id@)
            &&& Some(p@) == spec_resolve(old(issues)@, blocker_id@)
            &&& final(issues)@.len() == old(issues)@.len()
            &&& forall|i: int|
                0 <= i < old(issues)@.len() ==> #[trigger] final(issues)@[i].frontmatter == (
                IssueFrontmatter { deps: final(issues)@[i].frontmatter.deps, ..old(issues)@[i].frontmatter })
                && final(issues)@[i].body == old(issues)@[i].body
            &&& forall|i: int|
                0 <= i < old(issues)@.len() ==> #[trigger] deps_of(final(issues)@[i]) == if id_of(
                    old(issues)@[i],
                ) == b@ {
                    without(deps_of(old(issues)@[i]), p@)
                } else {
                    deps_of(old(issues)@[i])
                }
        },
        acyclic(old(issues)@) && r is Ok ==> acyclic(final(issues)@),
{
    let b = match resolve_issue_id(blocked_id, issues) {
        Ok(b) => b,
        Err(e) => {
            return Err(e);
        },
    };
    let p = match resolve_issue_id(blocker_id, issues) {
        Ok(p) => p,
        Err(e) => {
            return Err(e);
        },
    };
    proof {
        lemma_resolved_exists(old(issues)@, blocked_id@);
    }
    let ghost g = issues@;
    let i = match find_index(issues.values(), b.as_str()) {
        Some(i) => i,
        None => {
            return Err(BrdError::IssueNotFound(to_owned_string(blocked_id)));
        },
    };
    let deps = issues.values()[i].deps();
    let ghost d = deps_of(g[i as int]);
    let mut nd: Vec<String> = Vec::new();
    let mut k: usize = 0;
    while k < deps.len()
        invariant
            k <= deps.len(),
            d == strings_view(deps@),
            strings_view(nd@) == without(d.take(k as int), p@),
        decreases deps.len() - k,
    {
        assert(d.take(k + 1).drop_last() =~= d.take(k as int));
        if !str_eq(deps[k].as_str(), p.as_str()) {
            nd.push(to_owned_string(deps[k].as_str()));
            assert(strings_view(nd@) =~= strings_view(nd@.drop_last()).push(d[k as int]));
        }
        k += 1;
    }
    assert(d.take(deps.len() as int) =~= d);
    issues.set_deps(b.as_str(), nd);
    proof {
        if acyclic(g) {
            assert forall|ii: int| 0 <= ii < g.len() implies {
                &&& #[trigger] id_of(issues@[ii]) == id_of(g[ii])
                &&& forall|e: Seq<char>| deps_of(issues@[ii]).contains(e) ==> deps_of(g[ii]).contains(e)
            } by {
                if id_of(g[ii]) == b@ {
                    assert forall|e: Seq<char>| deps_of(issues@[ii]).contains(e) implies deps_of(
                        g[ii],
                    ).contains(e) by {
                        lemma_without_sub(deps_of(g[ii]), p@, e);
                    }
                }
            }
            assert(deps_shrunk(g, issues@));
            lemma_rm_dep_keeps_acyclic(g, issues@);
        }
    }
    Ok((b, p))
}

} // verus!
