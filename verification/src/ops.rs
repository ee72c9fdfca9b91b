//! Changes of an issue's state: claiming, skipping, reopening, removal checks, and the
//! choice of the next issue to work on.

use vstd::prelude::*;

use crate::error::BrdError;
use crate::graph::{get_ready_issues, only_ready, all_ready, ready_in, sorted_by_priority, listed, spec_is_ready};
use crate::issue::{
    has_id, id_of, ids_unique, resolve_issue_id, spec_resolve, Issue, IssueFrontmatter, IssueMap,
    IssueType, Status, lemma_before_order, resolve_failure, Priority,
};
use crate::text::{dec, join_seqs, join_strings, push_str, push_u64, to_owned_string};

verus! {

/// `new` is `old` with at most the issue at `i` changed.
pub open spec fn only_changed(old: Seq<Issue>, new: Seq<Issue>, i: int) -> bool {
    &&& new.len() == old.len()
    &&& 0 <= i < old.len()
    &&& forall|j: int| 0 <= j < old.len() && j != i ==> #[trigger] new[j] == old[j]
}

/// `new` is `old` with its status set to `st`, its owner set, and its update time
/// possibly moved; nothing else differs.
pub open spec fn status_set(old: Issue, new: Issue, st: Status) -> bool {
    &&& new.body == old.body
    &&& new.frontmatter == IssueFrontmatter {
        status: st,
        owner: new.frontmatter.owner,
        updated_at: new.frontmatter.updated_at,
        ..old.frontmatter
    }
}

/// Sets the status and owner of the issue with id `k`, and its update time when `touch`.
pub(crate) fn update_status(issues: &mut IssueMap, k: &str, st: Status, owner: Option<String>, touch: bool) -> (r:
    Option<usize>)
    requires
        old(issues).wf(),
    ensures
        final(issues).wf(),
        match r {
            Some(i) => {
                &&& only_changed(old(issues)@, final(issues)@, i as int)
                &&& id_of(old(issues)@[i as int]) == k@
                &&& status_set(old(issues)@[i as int], final(issues)@[i as int], st)
                &&& final(issues)@[i as int].frontmatter.owner == owner
                &&& !touch ==> final(issues)@[i as int].frontmatter.updated_at == old(
                    issues,
                )@[i as int].frontmatter.updated_at
                &&& touch ==> crate::date::valid_instant(
                    final(issues)@[i as int].frontmatter.updated_at as int,
                )
            },
            None => !has_id(old(issues)@, k@) && final(issues)@ == old(issues)@,
        },
{
    let ghost g = issues@;
    match issues.take(k) {
        Some((i, x)) => {
            let mut x = x;
            x.frontmatter.status = st;
            x.frontmatter.owner = owner;
            if touch {
                x.touch();
            }
            proof {
                assert forall|j: int| 0 <= j < issues@.len() implies id_of(issues@[j]) != id_of(x) by {
                    let j0 = if j < i { j } else { j + 1 };
                    assert(issues@[j] == g[j0]);
                    assert(j0 != i);
                }
            }
            issues.put_back(i, x);
            assert(issues@ =~= g.update(i as int, x));
            Some(i)
        },
        None => None,
    }
}

/// The owner named in a conflict: the issue's owner, or `unknown`.
pub open spec fn owner_or_unknown(x: Issue) -> Seq<char> {
    match x.frontmatter.owner {
        Some(o) => o@,
        None => "unknown"@,
    }
}

/// The message when an issue is already in progress.
pub open spec fn busy_message(id: Seq<char>, owner: Seq<char>) -> Seq<char> {
    "issue "@ + id + " is already being worked on by '"@ + owner
        + "' (use --force to reassign)"@
}

/// The position of the issue with id `k`, when there is one.
pub open spec fn index_of(s: Seq<Issue>, k: Seq<char>) -> int {
    choose|i: int| 0 <= i < s.len() && id_of(s[i]) == k
}

/// Claims the issue with id `id` for `agent_id`: it becomes in progress and owned by
/// the agent, and is touched. An issue already in progress is taken over only with
/// `force`.
pub fn claim_issue(issues: &mut IssueMap, id: &str, agent_id: &str, force: bool) -> (r: Result<
    (),
    BrdError,
>)
    requires
        old(issues).wf(),
    ensures
        final(issues).wf(),
        !has_id(old(issues)@, id@) ==> (r matches Err(BrdError::IssueNotFound(m)) && m@ == id@),
        has_id(old(issues)@, id@) ==> {
            let i = index_of(old(issues)@, id@);
            let x = old(issues)@[i];
            &&& x.frontmatter.status == Status::Doing && !force ==> (r matches Err(
                BrdError::Other(m),
            ) && m@ == busy_message(id@, owner_or_unknown(x)))
            &&& !(x.frontmatter.status == Status::Doing && !force) ==> {
                &&& r is Ok
                &&& only_changed(old(issues)@, final(issues)@, i)
                &&& status_set(x, final(issues)@[i], Status::Doing)
                &&& final(issues)@[i].frontmatter.owner matches Some(o) && o@ == agent_id@
                &&& crate::date::valid_instant(final(issues)@[i].frontmatter.updated_at as int)
            }
        },
        r is Err ==> final(issues)@ == old(issues)@,
{
    let x = match issues.get(id) {
        Some(x) => x,
        None => return Err(BrdError::IssueNotFound(to_owned_string(id))),
    };
    let ghost i0 = index_of(issues@, id@);
    proof {
        let j = choose|j: int| 0 <= j < issues@.len() && issues@[j] == *x && id_of(*x) == id@;
        assert(id_of(issues@[i0]) == id@);
        if i0 != j {
            assert(id_of(issues@[i0]) != id_of(issues@[j]));
        }
    }
    if x.frontmatter.status == Status::Doing && !force {
        let mut m = String::new();
        push_str(&mut m, "issue ");
        push_str(&mut m, id);
        push_str(&mut m, " is already being worked on by '");
        match &x.frontmatter.owner {
            Some(o) => push_str(&mut m, o.as_str()),
            None => push_str(&mut m, "unknown"),
        }
        push_str(&mut m, "' (use --force to reassign)");
        return Err(BrdError::Other(m));
    }
    let owner = to_owned_string(agent_id);
    let r = update_status(issues, id, Status::Doing, Some(owner), true);
    match r {
        Some(i) => {
            proof {
                if i != i0 {
                    assert(id_of(old(issues)@[i as int]) != id_of(old(issues)@[i0]));
                }
            }
            Ok(())
        },
        None => Err(BrdError::IssueNotFound(to_owned_string(id))),
    }
}

/// Resolves `partial` and sets the issue's status, clearing its owner; touches it when
/// `touch`. Returns the resolved id.
fn close_with(issues: &mut IssueMap, partial: &str, st: Status, touch: bool) -> (r: Result<String, BrdError>)
    requires
        old(issues).wf(),
    ensures
        final(issues).wf(),
        spec_resolve(old(issues)@, partial@) is None ==> r is Err && final(issues)@ == old(issues)@,
        spec_resolve(old(issues)@, partial@) matches Some(k) ==> {
            let i = index_of(old(issues)@, k);
            &&& r matches Ok(id) && id@ == k
            &&& only_changed(old(issues)@, final(issues)@, i)
            &&& status_set(old(issues)@[i], final(issues)@[i], st)
            &&& final(issues)@[i].frontmatter.owner is None
            &&& !touch ==> final(issues)@[i].frontmatter.updated_at == old(issues)@[i].frontmatter.updated_at
            &&& touch ==> crate::date::valid_instant(final(issues)@[i].frontmatter.updated_at as int)
        },
        r matches Err(e) ==> final(issues)@ == old(issues)@ && resolve_failure(old(issues)@, partial@, e),
{
    let full = match resolve_issue_id(partial, issues) {
        Ok(k) => k,
        Err(e) => return Err(e),
    };
    proof {
        crate::dep::lemma_resolved_exists(issues@, partial@);
    }
    let ghost i0 = index_of(issues@, full@);
    match update_status(issues, full.as_str(), st, None, touch) {
        Some(i) => {
            proof {
                if i != i0 {
                    assert(id_of(old(issues)@[i as int]) != id_of(old(issues)@[i0]));
                }
            }
            Ok(full)
        },
        None => Err(BrdError::IssueNotFound(full)),
    }
}

/// Marks an issue skipped: status skip, no owner, touched. Returns the resolved id.
pub fn skip_issue(issues: &mut IssueMap, partial: &str) -> (r: Result<String, BrdError>)
    requires
        old(issues).wf(),
    ensures
        final(issues).wf(),
        spec_resolve(old(issues)@, partial@) is None ==> r is Err,
        spec_resolve(old(issues)@, partial@) matches Some(k) ==> {
            let i = index_of(old(issues)@, k);
            &&& r matches Ok(id) && id@ == k
            &&& only_changed(old(issues)@, final(issues)@, i)
            &&& status_set(old(issues)@[i], final(issues)@[i], Status::Skip)
            &&& final(issues)@[i].frontmatter.owner is None
            &&& crate::date::valid_instant(final(issues)@[i].frontmatter.updated_at as int)
        },
        r matches Err(e) ==> final(issues)@ == old(issues)@ && resolve_failure(old(issues)@, partial@, e),
{
    close_with(issues, partial, Status::Skip, true)
}

/// Reopens an issue: status open, no owner; its update time is kept. Returns the
/// resolved id.
pub fn reopen_issue(issues: &mut IssueMap, partial: &str) -> (r: Result<String, BrdError>)
    requires
        old(issues).wf(),
    ensures
        final(issues).wf(),
        spec_resolve(old(issues)@, partial@) is None ==> r is Err,
        spec_resolve(old(issues)@, partial@) matches Some(k) ==> {
            let i = index_of(old(issues)@, k);
            &&& r matches Ok(id) && id@ == k
            &&& only_changed(old(issues)@, final(issues)@, i)
            &&& status_set(old(issues)@[i], final(issues)@[i], Status::Open)
            &&& final(issues)@[i].frontmatter.owner is None
            &&& final(issues)@[i].frontmatter.updated_at == old(issues)@[i].frontmatter.updated_at
        },
        r matches Err(e) ==> final(issues)@ == old(issues)@ && resolve_failure(old(issues)@, partial@, e),
{
    close_with(issues, partial, Status::Open, false)
}

/// The message when an issue in progress would be removed without force.
pub open spec fn in_progress_message(id: Seq<char>) -> Seq<char> {
    "issue "@ + id + " is in progress (use --force to delete anyway)"@
}

/// Checks that an issue may be removed: it resolves, and it is not in progress unless
/// `force`. Returns the resolved id.
pub fn check_removable(issues: &IssueMap, partial: &str, force: bool) -> (r: Result<String, BrdError>)
    requires
        issues.wf(),
    ensures
        spec_resolve(issues@, partial@) is None ==> (r matches Err(e) && resolve_failure(
            issues@,
            partial@,
            e,
        )),
        spec_resolve(issues@, partial@) matches Some(k) ==> {
            let x = issues@[index_of(issues@, k)];
            &&& x.frontmatter.status == Status::Doing && !force ==> (r matches Err(BrdError::Other(m))
                && m@ == in_progress_message(k))
            &&& !(x.frontmatter.status == Status::Doing && !force) ==> (r matches Ok(id) && id@ == k)
        },
{
    let full = match resolve_issue_id(partial, issues) {
        Ok(k) => k,
        Err(e) => return Err(e),
    };
    proof {
        crate::dep::lemma_resolved_exists(issues@, partial@);
    }
    let ghost i0 = index_of(issues@, full@);
    let x = match issues.get(full.as_str()) {
        Some(x) => x,
        None => return Err(BrdError::IssueNotFound(full)),
    };
    proof {
        let j = choose|j: int| 0 <= j < issues@.len() && issues@[j] == *x && id_of(*x) == full@;
        if i0 != j {
            assert(id_of(issues@[i0]) != id_of(issues@[j]));
        }
    }
    if x.frontmatter.status == Status::Doing && !force {
        let mut m = String::new();
        push_str(&mut m, "issue ");
        push_str(&mut m, full.as_str());
        push_str(&mut m, " is in progress (use --force to delete anyway)");
        return Err(BrdError::Other(m));
    }
    Ok(full)
}

/// An issue that can be picked up: ready, and not a meta issue.
pub open spec fn pickable(g: Seq<Issue>, x: Issue) -> bool {
    spec_is_ready(g, x) && x.frontmatter.issue_type != Some(IssueType::Meta)
}

/// Picks the next issue to work on: the first ready issue that is not a meta issue, in
/// priority order (priority, then creation time, then id).
pub fn next_ready_id(issues: &IssueMap) -> (r: Result<String, BrdError>)
    requires
        issues.wf(),
    ensures
        (forall|j: int| 0 <= j < issues@.len() ==> !pickable(issues@, #[trigger] issues@[j])) ==> (
        r matches Err(BrdError::Other(m)) && m@ == "no ready issues"@),
        r matches Ok(id) ==> exists|i: int|
            0 <= i < issues@.len() && id_of(issues@[i]) == id@ && pickable(issues@, issues@[i])
                && forall|j: int|
                0 <= j < issues@.len() && pickable(issues@, issues@[j]) ==> !(
                #[trigger] issues@[j]).spec_before(issues@[i]),
        r is Err ==> forall|j: int| 0 <= j < issues@.len() ==> !pickable(issues@, #[trigger] issues@[j]),
{
    let ready = get_ready_issues(issues);
    let ghost g = issues@;
    let mut k: usize = 0;
    while k < ready.len()
        invariant
            k <= ready.len(),
            g == issues@,
            issues.wf(),
            sorted_by_priority(ready@),
            only_ready(g, ready@, g.len() as int),
            all_ready(g, ready@, g.len() as int),
            forall|a: int| 0 <= a < k ==> (*ready@[a]).frontmatter.issue_type == Some(IssueType::Meta),
        decreases ready.len() - k,
    {
        let meta = match ready[k].frontmatter.issue_type {
            Some(IssueType::Meta) => true,
            _ => false,
        };
        if !meta {
            let x = ready[k];
            proof {
                assert(ready_in(g, *x, g.len() as int));
                let i = choose|i: int| 0 <= i < g.len() && g[i] == *x && spec_is_ready(g, g[i]);
                assert forall|j: int|
                    0 <= j < g.len() && pickable(g, g[j]) implies !(#[trigger] g[j]).spec_before(g[i]) by {
                    assert(listed(ready@, g[j]));
                    let a = choose|a: int| 0 <= a < ready@.len() && *ready@[a] == g[j];
                    lemma_before_order(g[j], g[i], g[i]);
                    if a > k {
                        lemma_before_order(g[i], g[j], g[i]);
                    }
                }
            }
            return Ok(to_owned_string(x.frontmatter.id.as_str()));
        }
        k += 1;
    }
    proof {
        assert forall|j: int| 0 <= j < g.len() implies !pickable(g, #[trigger] g[j]) by {
            if pickable(g, g[j]) {
                assert(listed(ready@, g[j]));
            }
        }
    }
    Err(BrdError::Other(to_owned_string("no ready issues")))
}

/// `l` is one of the two names of a field.
pub open spec fn names_field(l: Seq<char>, long: Seq<char>, short: Seq<char>) -> bool {
    l == long || l == short
}

/// The message for a field `brd set` does not know.
pub open spec fn unknown_field_message(field: Seq<char>) -> Seq<char> {
    "unknown field '"@ + field + "'. supported: priority, status, type, owner, title, tag"@
}

/// The tag a `tag` value names: after a leading `-` (removal) or `+` (addition).
pub open spec fn tag_of(value: Seq<char>) -> Seq<char> {
    if value.len() > 0 && (value[0] == '-' || value[0] == '+') {
        value.drop_first()
    } else {
        value
    }
}

/// The tags after applying a `tag` value: `-t` removes every `t`; `+t` or `t` adds `t`
/// when it is not there yet.
pub open spec fn tags_after(tags: Seq<Seq<char>>, value: Seq<char>) -> Seq<Seq<char>> {
    if value.len() > 0 && value[0] == '-' {
        crate::dep::without(tags, tag_of(value))
    } else if tags.contains(tag_of(value)) {
        tags
    } else {
        tags.push(tag_of(value))
    }
}

/// `new` is `old` with nothing changed but, possibly, its update time.
pub open spec fn same_but_time(old: Issue, new: Issue) -> bool {
    new.body == old.body && new.frontmatter == IssueFrontmatter {
        updated_at: new.frontmatter.updated_at,
        ..old.frontmatter
    }
}

fn copy_tag_list(v: &Vec<String>, skip: Option<&str>) -> (r: Vec<String>)
    ensures
        crate::issue::strings_view(r@) == match skip {
            Some(t) => crate::dep::without(crate::issue::strings_view(v@), t@),
            None => crate::issue::strings_view(v@),
        },
{
    let ghost sv = crate::issue::strings_view(v@);
    let mut r: Vec<String> = Vec::new();
    let mut i: usize = 0;
    while i < v.len()
        invariant
            i <= v.len(),
            sv == crate::issue::strings_view(v@),
            crate::issue::strings_view(r@) == match skip {
                Some(t) => crate::dep::without(sv.take(i as int), t@),
                None => sv.take(i as int),
            },
        decreases v.len() - i,
    {
        assert(sv.take(i + 1).drop_last() =~= sv.take(i as int));
        let keep = match skip {
            Some(t) => !crate::text::str_eq(v[i].as_str(), t),
            None => true,
        };
        if keep {
            let ghost r0 = crate::issue::strings_view(r@);
            r.push(to_owned_string(v[i].as_str()));
            assert(crate::issue::strings_view(r@) =~= r0.push(sv[i as int]));
        }
        i += 1;
    }
    assert(sv.take(v.len() as int) =~= sv);
    r
}

pub(crate) fn has_tag(v: &Vec<String>, t: &str) -> (r: bool)
    ensures
        r == crate::issue::strings_view(v@).contains(t@),
{
    let mut i: usize = 0;
    while i < v.len()
        invariant
            i <= v.len(),
            forall|q: int| 0 <= q < i ==> v@[q]@ != t@,
        decreases v.len() - i,
    {
        if crate::text::str_eq(v[i].as_str(), t) {
            assert(crate::issue::strings_view(v@)[i as int] == t@);
            return true;
        }
        i += 1;
    }
    proof {
        if crate::issue::strings_view(v@).contains(t@) {
            let q = choose|q: int| 0 <= q < v@.len() && crate::issue::strings_view(v@)[q] == t@;
            assert(v@[q]@ == t@);
        }
    }
    false
}

/// Which field a lower-cased field name of `brd set` names: 0 priority, 1 status, 2 type,
/// 3 owner, 4 title, 5 tag, 6 none.
pub open spec fn field_kind(l: Seq<char>) -> int {
    if names_field(l, "priority"@, "p"@) {
        0
    } else if names_field(l, "status"@, "s"@) {
        1
    } else if names_field(l, "type"@, "t"@) {
        2
    } else if names_field(l, "owner"@, "o"@) {
        3
    } else if l == "title"@ {
        4
    } else if l == "tag"@ {
        5
    } else {
        6
    }
}

/// Whether `brd set` accepts `value` for the field named `l` (lower-cased).
pub open spec fn set_ok(l: Seq<char>, value: Seq<char>) -> bool {
    let k = field_kind(l);
    if k == 0 {
        Priority::from_text(crate::text::uppercase(value)) is Some
    } else if k == 1 {
        Status::from_text(crate::text::lowercase(value)) is Some
    } else if k == 2 {
        value == "-"@ || IssueType::from_text(crate::text::lowercase(value)) is Some
    } else {
        k != 6
    }
}

/// What a successful `brd set` of the field named `l` to `value` makes of issue `x`:
/// `y` differs from `x` in that field alone (a status change may also move the update
/// time, except when reopening).
pub open spec fn set_effect(x: Issue, y: Issue, l: Seq<char>, value: Seq<char>) -> bool {
    let k = field_kind(l);
    if k == 0 {
        y.body == x.body && y.frontmatter == IssueFrontmatter {
            priority: Priority::from_text(crate::text::uppercase(value))->0,
            ..x.frontmatter
        }
    } else if k == 1 {
        let st = Status::from_text(crate::text::lowercase(value))->0;
        &&& status_set(x, y, st)
        &&& y.frontmatter.owner == x.frontmatter.owner
        &&& st == Status::Open ==> y.frontmatter.updated_at == x.frontmatter.updated_at
    } else if k == 2 {
        y.body == x.body && y.frontmatter == IssueFrontmatter {
            issue_type: if value == "-"@ {
                None
            } else {
                Some(IssueType::from_text(crate::text::lowercase(value))->0)
            },
            ..x.frontmatter
        }
    } else if k == 3 {
        &&& y.body == x.body
        &&& y.frontmatter == IssueFrontmatter { owner: y.frontmatter.owner, ..x.frontmatter }
        &&& value == "-"@ ==> y.frontmatter.owner is None
        &&& value != "-"@ ==> (y.frontmatter.owner matches Some(o) && o@ == value)
    } else if k == 4 {
        &&& y.body == x.body
        &&& y.frontmatter == IssueFrontmatter { title: y.frontmatter.title, ..x.frontmatter }
        &&& y.frontmatter.title@ == value
    } else {
        &&& y.body == x.body
        &&& y.frontmatter == IssueFrontmatter { tags: y.frontmatter.tags, ..x.frontmatter }
        &&& crate::issue::strings_view(y.frontmatter.tags@) == tags_after(
            crate::issue::strings_view(x.frontmatter.tags@),
            value,
        )
    }
}

/// Sets one field of an issue from the text of `brd set`, given the field's name
/// lower-cased (`field_lower`) and as typed (`field`, quoted in the error). A status that
/// starts or ends work touches the issue. On an error nothing changes.
pub fn set_field_lower(x: &mut Issue, field_lower: &str, field: &str, value: &str) -> (r: Result<
    (),
    BrdError,
>)
    ensures
        r is Err ==> *final(x) == *old(x),
        names_field(field_lower@, "priority"@, "p"@) ==> match Priority::from_text(
            crate::text::uppercase(value@),
        ) {
            Some(p) => r is Ok && final(x).body == old(x).body && final(x).frontmatter
                == IssueFrontmatter { priority: p, ..old(x).frontmatter },
            None => r is Err,
        },
        !names_field(field_lower@, "priority"@, "p"@) && names_field(field_lower@, "status"@, "s"@)
            ==> match Status::from_text(crate::text::lowercase(value@)) {
            Some(st) => {
                &&& r is Ok
                &&& status_set(*old(x), *final(x), st)
                &&& final(x).frontmatter.owner == old(x).frontmatter.owner
                &&& st == Status::Open ==> final(x).frontmatter.updated_at
                    == old(x).frontmatter.updated_at
            },
            None => r is Err,
        },
        !names_field(field_lower@, "priority"@, "p"@) && !names_field(field_lower@, "status"@, "s"@)
            && names_field(field_lower@, "type"@, "t"@) ==> if value@ == "-"@ {
            r is Ok && final(x).body == old(x).body && final(x).frontmatter == IssueFrontmatter {
                issue_type: None,
                ..old(x).frontmatter
            }
        } else {
            match IssueType::from_text(crate::text::lowercase(value@)) {
                Some(t) => r is Ok && final(x).body == old(x).body && final(x).frontmatter
                    == IssueFrontmatter { issue_type: Some(t), ..old(x).frontmatter },
                None => r is Err,
            }
        },
        !names_field(field_lower@, "priority"@, "p"@) && !names_field(field_lower@, "status"@, "s"@)
            && !names_field(field_lower@, "type"@, "t"@) && names_field(field_lower@, "owner"@, "o"@)
            ==> {
            &&& r is Ok
            &&& final(x).body == old(x).body
            &&& final(x).frontmatter == IssueFrontmatter {
                owner: final(x).frontmatter.owner,
                ..old(x).frontmatter
            }
            &&& value@ == "-"@ ==> final(x).frontmatter.owner is None
            &&& value@ != "-"@ ==> (final(x).frontmatter.owner matches Some(o) && o@ == value@)
        },
        !names_field(field_lower@, "priority"@, "p"@) && !names_field(field_lower@, "status"@, "s"@)
            && !names_field(field_lower@, "type"@, "t"@) && !names_field(field_lower@, "owner"@, "o"@)
            && field_lower@ == "title"@ ==> {
            &&& r is Ok
            &&& final(x).body == old(x).body
            &&& final(x).frontmatter == IssueFrontmatter {
                title: final(x).frontmatter.title,
                ..old(x).frontmatter
            }
            &&& final(x).frontmatter.title@ == value@
        },
        !names_field(field_lower@, "priority"@, "p"@) && !names_field(field_lower@, "status"@, "s"@)
            && !names_field(field_lower@, "type"@, "t"@) && !names_field(field_lower@, "owner"@, "o"@)
            && field_lower@ != "title"@ && field_lower@ == "tag"@ ==> {
            &&& r is Ok
            &&& final(x).body == old(x).body
            &&& final(x).frontmatter == IssueFrontmatter {
                tags: final(x).frontmatter.tags,
                ..old(x).frontmatter
            }
            &&& crate::issue::strings_view(final(x).frontmatter.tags@) == tags_after(
                crate::issue::strings_view(old(x).frontmatter.tags@),
                value@,
            )
        },
        !names_field(field_lower@, "priority"@, "p"@) && !names_field(field_lower@, "status"@, "s"@)
            && !names_field(field_lower@, "type"@, "t"@) && !names_field(field_lower@, "owner"@, "o"@)
            && field_lower@ != "title"@ && field_lower@ != "tag"@ ==> (r matches Err(
            BrdError::Other(m),
        ) && m@ == unknown_field_message(field@)),
{
    if crate::text::str_eq(field_lower, "priority") || crate::text::str_eq(field_lower, "p") {
        match Priority::parse(value) {
            Ok(p) => {
                x.frontmatter.priority = p;
                Ok(())
            },
            Err(e) => Err(e),
        }
    } else if crate::text::str_eq(field_lower, "status") || crate::text::str_eq(field_lower, "s") {
        match Status::parse(value) {
            Ok(st) => {
                match st {
                    Status::Doing | Status::Done | Status::Skip => x.touch(),
                    Status::Open => {},
                }
                x.frontmatter.status = st;
                Ok(())
            },
            Err(e) => Err(e),
        }
    } else if crate::text::str_eq(field_lower, "type") || crate::text::str_eq(field_lower, "t") {
        if crate::text::str_eq(value, "-") {
            x.frontmatter.issue_type = None;
            Ok(())
        } else {
            match IssueType::parse(value) {
                Ok(t) => {
                    x.frontmatter.issue_type = Some(t);
                    Ok(())
                },
                Err(e) => Err(e),
            }
        }
    } else if crate::text::str_eq(field_lower, "owner") || crate::text::str_eq(field_lower, "o") {
        if crate::text::str_eq(value, "-") {
            x.frontmatter.owner = None;
        } else {
            x.frontmatter.owner = Some(to_owned_string(value));
        }
        Ok(())
    } else if crate::text::str_eq(field_lower, "title") {
        x.frontmatter.title = to_owned_string(value);
        Ok(())
    } else if crate::text::str_eq(field_lower, "tag") {
        let v = crate::text::chars_of(value);
        if v.len() > 0 && v[0] == '-' {
            let t = crate::text::substring(&v, 1, v.len());
            assert(v@.drop_first() =~= v@.subrange(1, v.len() as int));
            let nt = copy_tag_list(&x.frontmatter.tags, Some(t.as_str()));
            x.frontmatter.tags = nt;
        } else {
            let t = if v.len() > 0 && v[0] == '+' {
                assert(v@.drop_first() =~= v@.subrange(1, v.len() as int));
                crate::text::substring(&v, 1, v.len())
            } else {
                assert(v@.subrange(0, v.len() as int) =~= v@);
                crate::text::substring(&v, 0, v.len())
            };
            if !has_tag(&x.frontmatter.tags, t.as_str()) {
                let ghost t0 = crate::issue::strings_view(x.frontmatter.tags@);
                x.frontmatter.tags.push(t);
                assert(crate::issue::strings_view(x.frontmatter.tags@) =~= t0.push(tag_of(value@)));
            }
        }
        Ok(())
    } else {
        let mut m = String::new();
        push_str(&mut m, "unknown field '");
        push_str(&mut m, field);
        push_str(&mut m, "'. supported: priority, status, type, owner, title, tag");
        Err(BrdError::Other(m))
    }
}

/// Sets one field of the issue that `partial` resolves to (the field's name is matched
/// case-insensitively). Returns the resolved id; on an error nothing changes.
pub fn set_issue_field(issues: &mut IssueMap, partial: &str, field: &str, value: &str) -> (r: Result<
    String,
    BrdError,
>)
    requires
        old(issues).wf(),
    ensures
        final(issues).wf(),
        r is Err ==> final(issues)@ == old(issues)@,
        spec_resolve(old(issues)@, partial@) is None ==> (r matches Err(e) && resolve_failure(
            old(issues)@,
            partial@,
            e,
        )),
        r matches Ok(id) ==> spec_resolve(old(issues)@, partial@) == Some(id@) && only_changed(
            old(issues)@,
            final(issues)@,
            index_of(old(issues)@, id@),
        ) && id_of(final(issues)@[index_of(old(issues)@, id@)]) == id@,
        spec_resolve(old(issues)@, partial@) matches Some(k) ==> {
            let g = old(issues)@;
            let i = index_of(g, k);
            let l = crate::text::lowercase(field@);
            &&& (r is Ok <==> set_ok(l, value@))
            &&& field_kind(l) == 6 ==> (r matches Err(BrdError::Other(m)) && m@
                == unknown_field_message(field@))
            &&& r is Ok ==> set_effect(g[i], final(issues)@[i], l, value@)
        },
{
    let full = match resolve_issue_id(partial, issues) {
        Ok(k) => k,
        Err(e) => return Err(e),
    };
    proof {
        crate::dep::lemma_resolved_exists(issues@, partial@);
    }
    let ghost g = issues@;
    let ghost i0 = index_of(issues@, full@);
    let (i, x) = match issues.take(full.as_str()) {
        Some(p) => p,
        None => return Err(BrdError::IssueNotFound(full)),
    };
    proof {
        if i != i0 {
            assert(id_of(g[i as int]) != id_of(g[i0]));
        }
    }
    let mut x = x;
    let l = crate::text::to_lowercase(field);
    let res = set_field_lower(&mut x, l.as_str(), field, value);
    proof {
        assert(id_of(x) == full@) by {
            assert(x.frontmatter.id == g[i as int].frontmatter.id);
        }
        assert forall|j: int| 0 <= j < issues@.len() implies id_of(issues@[j]) != id_of(x) by {
            let j0 = if j < i { j } else { j + 1 };
            assert(issues@[j] == g[j0]);
        }
    }
    issues.put_back(i, x);
    match res {
        Ok(()) => {
            assert(issues@ =~= g.update(i as int, x));
            Ok(full)
        },
        Err(e) => {
            assert(issues@ =~= g);
            Err(e)
        },
    }
}


/// The ids, in order, of the issues in progress owned by `agent`.
pub open spec fn owned_in_progress(s: Seq<Issue>, agent: Seq<char>) -> Seq<Seq<char>>
    decreases s.len(),
{
    if s.len() == 0 {
        Seq::<Seq<char>>::empty()
    } else {
        let x = s.last();
        owned_in_progress(s.drop_last(), agent) + match x.frontmatter.owner {
            Some(o) => if x.frontmatter.status == Status::Doing && o@ == agent {
                seq![id_of(x)]
            } else {
                Seq::<Seq<char>>::empty()
            },
            None => Seq::<Seq<char>>::empty(),
        }
    }
}

/// The issue an agent is working on, when no id is given: the only issue in progress it
/// owns; none, or more than one, is an error.
pub fn issue_in_progress(issues: &IssueMap, agent: &str) -> (r: Result<String, BrdError>)
    ensures
        ({
            let ids = owned_in_progress(issues@, agent@);
            &&& ids.len() == 0 ==> (r matches Err(BrdError::Other(m)) && m@
                == "no issue in progress. specify an issue ID or run `brd start` first"@)
            &&& ids.len() == 1 ==> (r matches Ok(k) && k@ == ids[0])
            &&& ids.len() > 1 ==> (r matches Err(BrdError::Other(m)) && m@ == "multiple issues in progress: "@
                + crate::text::join_seqs(ids, ", "@) + ". specify which to edit"@)
        }),
{
    let v = issues.values();
    let mut found: Vec<String> = Vec::new();
    let mut i: usize = 0;
    while i < v.len()
        invariant
            v@ == issues@,
            i <= v.len(),
            crate::issue::strings_view(found@) == owned_in_progress(v@.take(i as int), agent@),
        decreases v.len() - i,
    {
        let x = &v[i];
        assert(v@.take(i + 1).drop_last() =~= v@.take(i as int));
        if x.frontmatter.status == Status::Doing {
            match &x.frontmatter.owner {
                Some(o) => {
                    if crate::text::str_eq(o.as_str(), agent) {
                        let ghost f0 = crate::issue::strings_view(found@);
                        found.push(to_owned_string(x.frontmatter.id.as_str()));
                        assert(crate::issue::strings_view(found@) =~= f0.push(x.frontmatter.id@));
                    }
                },
                None => {},
            }
        }
        assert(crate::issue::strings_view(found@) =~= owned_in_progress(v@.take(i + 1), agent@));
        i += 1;
    }
    assert(v@.take(v.len() as int) =~= v@);
    if found.len() == 0 {
        return Err(BrdError::Other(to_owned_string("no issue in progress. specify an issue ID or run `brd start` first")));
    }
    if found.len() == 1 {
        return Ok(to_owned_string(found[0].as_str()));
    }
    let mut m = String::new();
    push_str(&mut m, "multiple issues in progress: ");
    let j = crate::text::join_strings(found.as_slice(), ", ");
    push_str(&mut m, j.as_str());
    push_str(&mut m, ". specify which to edit");
    Err(BrdError::Other(m))
}

/// Once `brd start` has claimed an issue, that issue is never the next pick: after a
/// claim of the issue with id `k` (it alone changes, and it becomes in progress), no issue
/// with id `k` can be picked, so an agent starting next gets a different issue.
pub proof fn lemma_claimed_not_picked(g: Seq<Issue>, g2: Seq<Issue>, k: Seq<char>)
    requires
        ids_unique(g),
        has_id(g, k),
        only_changed(g, g2, index_of(g, k)),
        status_set(g[index_of(g, k)], g2[index_of(g, k)], Status::Doing),
    ensures
        forall|j: int| 0 <= j < g2.len() && id_of(g2[j]) == k ==> !pickable(g2, #[trigger] g2[j]),
{
    let i = index_of(g, k);
    assert forall|j: int| 0 <= j < g2.len() && id_of(g2[j]) == k implies !pickable(g2, #[trigger] g2[j]) by {
        if j != i {
            assert(g2[j] == g[j]);
            assert(id_of(g[i]) == k);
        }
    }
}

/// The ids of the done issues of `s`, in order.
pub open spec fn spec_done_ids(s: Seq<Issue>) -> Seq<Seq<char>>
    decreases s.len(),
{
    if s.len() == 0 {
        Seq::empty()
    } else {
        let r = spec_done_ids(s.drop_last());
        if s.last().frontmatter.status == Status::Done {
            r.push(id_of(s.last()))
        } else {
            r
        }
    }
}

/// The ids of the done issues, in the order of the map; before work starts these are
/// compared with `origin/main` to find done work that has not reached it yet.
pub fn done_issue_ids(issues: &IssueMap) -> (r: Vec<String>)
    ensures
        r@.map_values(|s: String| s@) == spec_done_ids(issues@),
{
    let v = issues.values();
    let mut out: Vec<String> = Vec::new();
    let mut i: usize = 0;
    while i < v.len()
        invariant
            v@ == issues@,
            i <= v.len(),
            out@.map_values(|s: String| s@) == spec_done_ids(v@.take(i as int)),
        decreases v.len() - i,
    {
        assert(v@.take(i + 1).drop_last() =~= v@.take(i as int));
        let done = match v[i].frontmatter.status {
            Status::Done => true,
            _ => false,
        };
        if done {
            let ghost before = out@;
            let id = to_owned_string(v[i].frontmatter.id.as_str());
            out.push(id);
            assert(out@.map_values(|s: String| s@) =~= before.map_values(|s: String| s@).push(
                v@[i as int].frontmatter.id@,
            ));
        }
        i += 1;
    }
    assert(v@.take(v.len() as int) =~= v@);
    out
}

/// The path of an issue file relative to the worktree root, as `git diff` names it.
pub open spec fn spec_issue_file(id: Seq<char>) -> Seq<char> {
    ".braid/issues/"@ + id + ".md"@
}

/// `.braid/issues/<id>.md`.
pub fn issue_file(id: &str) -> (r: String)
    ensures
        r@ == spec_issue_file(id@),
{
    let mut r = String::new();
    push_str(&mut r, ".braid/issues/");
    push_str(&mut r, id);
    push_str(&mut r, ".md");
    assert(r@ =~= spec_issue_file(id@));
    r
}

/// `warning: <n> done issue(s) not yet in main: <ids joined by ", ">`.
pub open spec fn spec_unshipped_warning(ids: Seq<Seq<char>>) -> Seq<char> {
    "warning: "@ + dec(ids.len()) + " done issue(s) not yet in main: "@ + join_seqs(ids, ", "@)
}

/// The warning about done issues whose files differ from `origin/main`.
pub fn unshipped_warning(ids: &Vec<String>) -> (r: String)
    ensures
        r@ == spec_unshipped_warning(ids@.map_values(|s: String| s@)),
{
    let mut r = String::new();
    push_str(&mut r, "warning: ");
    push_u64(&mut r, ids.len() as u64);
    push_str(&mut r, " done issue(s) not yet in main: ");
    let joined = join_strings(ids.as_slice(), ", ");
    push_str(&mut r, joined.as_str());
    assert(r@ =~= spec_unshipped_warning(ids@.map_values(|s: String| s@)));
    r
}

} // verus!
