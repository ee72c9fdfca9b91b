//! The text of `brd show` and `brd ready`: an issue's details, its dependencies and
//! dependents, and the list of ready issues.

use vstd::prelude::*;

use crate::issue::{
    has_id, id_of, ids_unique, strings_view, Issue, IssueMap, IssueType, Status,
};
use crate::text::{
    chars_of, dec, join_seqs, join_strings, push_char, push_str, push_u64, substring,
    to_owned_string,
};

verus! {

/// The symbol of each status.
pub open spec fn spec_symbol(s: Status) -> Seq<char> {
    match s {
        Status::Open => "○"@,
        Status::Doing => "→"@,
        Status::Done => "✓"@,
        Status::Skip => "⊘"@,
    }
}

/// The symbol shown for a status.
pub fn status_symbol(status: &Status) -> (r: &'static str)
    ensures
        r@ == spec_symbol(*status),
{
    match status {
        Status::Open => "○",
        Status::Doing => "→",
        Status::Done => "✓",
        Status::Skip => "⊘",
    }
}

/// Whether a status counts as resolved (done or skipped); resolved issues sort last.
pub fn is_resolved(status: &Status) -> (r: bool)
    ensures
        r == status.spec_is_resolved(),
{
    status.is_resolved()
}

/// `t` cut to at most `max` characters, the last one replaced by `…` when cut.
pub open spec fn spec_truncate(t: Seq<char>, max: nat) -> Seq<char> {
    if t.len() <= max {
        t
    } else {
        t.take(max - 1).push('…')
    }
}

/// Truncates a title to at most `max` characters, ending a cut title with `…`.
pub fn truncate_title(title: &str, max: usize) -> (r: String)
    requires
        max >= 1,
    ensures
        r@ == spec_truncate(title@, max as nat),
{
    let v = chars_of(title);
    if v.len() <= max {
        return to_owned_string(title);
    }
    let mut s = substring(&v, 0, max - 1);
    push_char(&mut s, '…');
    assert(v@.subrange(0, max - 1) =~= title@.take(max - 1));
    s
}

/// The issue of `g` with id `k` is resolved.
pub open spec fn id_resolved(g: Seq<Issue>, k: Seq<char>) -> bool {
    exists|i: int| 0 <= i < g.len() && id_of(g[i]) == k && g[i].frontmatter.status.spec_is_resolved()
}

/// The ids of `ids` whose issue is not resolved (open, in progress, or missing), then
/// those whose issue is resolved, each group in its original order.
pub open spec fn spec_open_first(g: Seq<Issue>, ids: Seq<Seq<char>>) -> Seq<Seq<char>> {
    ids.filter(|k: Seq<char>| !id_resolved(g, k)) + ids.filter(|k: Seq<char>| id_resolved(g, k))
}

fn resolved_id(issues: &IssueMap, k: &str) -> (r: bool)
    requires
        issues.wf(),
    ensures
        r == id_resolved(issues@, k@),
{
    match issues.get(k) {
        Some(x) => {
            proof {
                if id_resolved(issues@, k@) {
                    let i = choose|i: int| 0 <= i < issues@.len() && id_of(issues@[i]) == k@
                        && issues@[i].frontmatter.status.spec_is_resolved();
                    let j = choose|j: int| 0 <= j < issues@.len() && issues@[j] == *x && id_of(*x) == k@;
                    if i != j {
                        assert(id_of(issues@[i]) != id_of(issues@[j]));
                    }
                }
            }
            x.frontmatter.status.is_resolved()
        },
        None => false,
    }
}

/// Orders dependency ids so that the unresolved ones come first; the order within each
/// group is kept.
pub fn sort_deps_open_first(ids: &[String], issues: &IssueMap) -> (r: Vec<String>)
    requires
        issues.wf(),
    ensures
        strings_view(r@) == spec_open_first(issues@, strings_view(ids@)),
{
    let ghost sv = strings_view(ids@);
    let mut first: Vec<String> = Vec::new();
    let mut last: Vec<String> = Vec::new();
    let mut i: usize = 0;
    while i < ids.len()
        invariant
            i <= ids.len(),
            issues.wf(),
            sv == strings_view(ids@),
            strings_view(first@) == sv.take(i as int).filter(|k: Seq<char>| !id_resolved(issues@, k)),
            strings_view(last@) == sv.take(i as int).filter(|k: Seq<char>| id_resolved(issues@, k)),
        decreases ids.len() - i,
    {
        let ghost pre = sv.take(i as int);
        assert(sv.take(i + 1).drop_last() =~= pre);
        assert(sv.take(i + 1).last() == sv[i as int]);
        let k = ids[i].as_str();
        let ghost f0 = strings_view(first@);
        let ghost l0 = strings_view(last@);
        if resolved_id(issues, k) {
            last.push(to_owned_string(k));
            assert(strings_view(last@) =~= l0.push(k@));
        } else {
            first.push(to_owned_string(k));
            assert(strings_view(first@) =~= f0.push(k@));
        }
        proof {
            reveal(Seq::filter);
            assert(sv.take(i + 1).filter(|k: Seq<char>| !id_resolved(issues@, k)) == strings_view(first@));
            assert(sv.take(i + 1).filter(|k: Seq<char>| id_resolved(issues@, k)) == strings_view(last@));
        }
        i += 1;
    }
    assert(sv.take(ids.len() as int) =~= sv);
    let mut r = first;
    let mut j: usize = 0;
    let ghost f1 = strings_view(r@);
    while j < last.len()
        invariant
            j <= last.len(),
            strings_view(r@) == f1 + strings_view(last@).take(j as int),
        decreases last.len() - j,
    {
        let ghost r0 = strings_view(r@);
        let t = to_owned_string(last[j].as_str());
        r.push(t);
        assert(strings_view(r@) =~= r0.push(last@[j as int]@));
        assert(strings_view(last@).take(j + 1) =~= strings_view(last@).take(j as int).push(last@[j as int]@));
        assert(strings_view(r@) =~= f1 + strings_view(last@).take(j + 1));
        j += 1;
    }
    assert(strings_view(last@).take(last.len() as int) =~= strings_view(last@));
    r
}

/// The line for a dependency or dependent: `  <symbol> <id> (<status>)  <title>` with the
/// title cut to sixty characters, or `  ? <id> (missing)` for an id that names no issue.
pub open spec fn spec_dep_line(g: Seq<Issue>, k: Seq<char>) -> Seq<char> {
    if has_id(g, k) {
        let x = g[crate::ops::index_of(g, k)];
        "  "@ + spec_symbol(x.frontmatter.status) + " "@ + k + " ("@ + x.frontmatter.status.spec_text()
            + ")  "@ + spec_truncate(x.frontmatter.title@, 60)
    } else {
        "  ? "@ + k + " (missing)"@
    }
}

/// The line for a dependency or dependent, and whether it is resolved (shown dimmed).
pub fn dep_line(issues: &IssueMap, k: &str) -> (r: (String, bool))
    requires
        issues.wf(),
    ensures
        r.0@ == spec_dep_line(issues@, k@),
        r.1 == id_resolved(issues@, k@),
{
    let dimmed = resolved_id(issues, k);
    let mut line = String::new();
    match issues.get(k) {
        Some(x) => {
            proof {
                let i0 = crate::ops::index_of(issues@, k@);
                let j = choose|j: int| 0 <= j < issues@.len() && issues@[j] == *x && id_of(*x) == k@;
                if i0 != j {
                    assert(id_of(issues@[i0]) != id_of(issues@[j]));
                }
            }
            push_str(&mut line, "  ");
            push_str(&mut line, status_symbol(&x.frontmatter.status));
            push_str(&mut line, " ");
            push_str(&mut line, k);
            push_str(&mut line, " (");
            let st = x.frontmatter.status.to_text();
            push_str(&mut line, st.as_str());
            push_str(&mut line, ")  ");
            let t = truncate_title(x.frontmatter.title.as_str(), 60);
            push_str(&mut line, t.as_str());
        },
        None => {
            push_str(&mut line, "  ? ");
            push_str(&mut line, k);
            push_str(&mut line, " (missing)");
        },
    }
    (line, dimmed)
}

/// A dependency line, wrapped in the dimming codes when its issue is resolved, then a
/// newline.
pub open spec fn styled_line(g: Seq<Issue>, k: Seq<char>, dim: Seq<char>, reset: Seq<char>) -> Seq<char> {
    (if id_resolved(g, k) {
        dim + spec_dep_line(g, k) + reset
    } else {
        spec_dep_line(g, k)
    }) + "\n"@
}

/// The lines for the ids `ks`, in order.
pub open spec fn lines_text(g: Seq<Issue>, ks: Seq<Seq<char>>, dim: Seq<char>, reset: Seq<char>) -> Seq<char>
    decreases ks.len(),
{
    if ks.len() == 0 {
        Seq::<char>::empty()
    } else {
        lines_text(g, ks.drop_last(), dim, reset) + styled_line(g, ks.last(), dim, reset)
    }
}

/// A section of lines under a heading, omitted when there are no ids.
pub open spec fn section_text(
    g: Seq<Issue>,
    heading: Seq<char>,
    ks: Seq<Seq<char>>,
    dim: Seq<char>,
    reset: Seq<char>,
) -> Seq<char> {
    if ks.len() == 0 {
        Seq::<char>::empty()
    } else {
        heading + lines_text(g, spec_open_first(g, ks), dim, reset)
    }
}

/// `  - <ac>\n` for each acceptance criterion.
pub open spec fn acceptance_text(acs: Seq<Seq<char>>) -> Seq<char>
    decreases acs.len(),
{
    if acs.len() == 0 {
        Seq::<char>::empty()
    } else {
        acceptance_text(acs.drop_last()) + "  - "@ + acs.last() + "\n"@
    }
}

/// The head of `brd show`: id, title, priority, status and, when set, type.
pub open spec fn spec_show_head(x: Issue) -> Seq<char> {
    let fm = x.frontmatter;
    "ID:       "@ + fm.id@ + "\n"@ + "Title:    "@ + fm.title@ + "\n"@ + "Priority: "@
        + fm.priority.spec_text() + "\n"@ + "Status:   "@ + fm.status.spec_text() + "\n"@
        + match fm.issue_type {
        Some(t) => "Type:     "@ + t.spec_text() + "\n"@,
        None => Seq::<char>::empty(),
    }
}

/// The tail of `brd show`: tags, owner, acceptance criteria and body, each when present.
pub open spec fn spec_show_tail(x: Issue) -> Seq<char> {
    let fm = x.frontmatter;
    (if fm.tags@.len() > 0 {
        "Tags:     "@ + join_seqs(strings_view(fm.tags@), ", "@) + "\n"@
    } else {
        Seq::<char>::empty()
    }) + (match fm.owner {
        Some(o) => "Owner:    "@ + o@ + "\n"@,
        None => Seq::<char>::empty(),
    }) + (if fm.acceptance@.len() > 0 {
        "\nAcceptance:\n"@ + acceptance_text(strings_view(fm.acceptance@))
    } else {
        Seq::<char>::empty()
    }) + (if x.body@.len() > 0 {
        "\n"@ + x.body@ + "\n"@
    } else {
        Seq::<char>::empty()
    })
}

/// The text of `brd show` for issue `x` whose dependents are `ds`; resolved
/// dependencies are wrapped in `dim` and `reset`.
pub open spec fn spec_show(x: Issue, g: Seq<Issue>, ds: Seq<Seq<char>>, dim: Seq<char>, reset: Seq<char>) -> Seq<char> {
    spec_show_head(x) + section_text(g, "Blocked by:\n"@, strings_view(x.frontmatter.deps@), dim, reset)
        + section_text(g, "Blocks:\n"@, ds, dim, reset) + spec_show_tail(x)
}

fn show_head(x: &Issue) -> (r: String)
    ensures
        r@ == spec_show_head(*x),
{
    let fm = &x.frontmatter;
    let mut out = String::new();
    push_str(&mut out, "ID:       ");
    push_str(&mut out, fm.id.as_str());
    push_str(&mut out, "\n");
    push_str(&mut out, "Title:    ");
    push_str(&mut out, fm.title.as_str());
    push_str(&mut out, "\n");
    push_str(&mut out, "Priority: ");
    let p = fm.priority.to_text();
    push_str(&mut out, p.as_str());
    push_str(&mut out, "\n");
    push_str(&mut out, "Status:   ");
    let st = fm.status.to_text();
    push_str(&mut out, st.as_str());
    push_str(&mut out, "\n");
    let ghost o1 = out@;
    match fm.issue_type {
        Some(t) => {
            push_str(&mut out, "Type:     ");
            let ts = t.to_text();
            push_str(&mut out, ts.as_str());
            push_str(&mut out, "\n");
        },
        None => {},
    }
    assert(out@ =~= spec_show_head(*x));
    out
}

fn show_tail(x: &Issue) -> (r: String)
    ensures
        r@ == spec_show_tail(*x),
{
    let fm = &x.frontmatter;
    let mut out = String::new();
    if fm.tags.len() > 0 {
        push_str(&mut out, "Tags:     ");
        let j = join_strings(fm.tags.as_slice(), ", ");
        push_str(&mut out, j.as_str());
        push_str(&mut out, "\n");
    }
    let ghost o1 = out@;
    match &fm.owner {
        Some(o) => {
            push_str(&mut out, "Owner:    ");
            push_str(&mut out, o.as_str());
            push_str(&mut out, "\n");
        },
        None => {},
    }
    let ghost o3 = out@;
    if fm.acceptance.len() > 0 {
        push_str(&mut out, "\nAcceptance:\n");
        let ghost o4 = out@;
        let ghost av = strings_view(fm.acceptance@);
        let mut i: usize = 0;
        while i < fm.acceptance.len()
            invariant
                i <= fm.acceptance.len(),
                av == strings_view(fm.acceptance@),
                out@ == o4 + acceptance_text(av.take(i as int)),
            decreases fm.acceptance.len() - i,
        {
            push_str(&mut out, "  - ");
            push_str(&mut out, fm.acceptance[i].as_str());
            push_str(&mut out, "\n");
            assert(av.take(i + 1).drop_last() =~= av.take(i as int));
            assert(out@ =~= o4 + acceptance_text(av.take(i + 1)));
            i += 1;
        }
        assert(av.take(fm.acceptance.len() as int) =~= av);
    }
    let ghost o5 = out@;
    let b = chars_of(x.body.as_str());
    if b.len() > 0 {
        push_str(&mut out, "\n");
        push_str(&mut out, x.body.as_str());
        push_str(&mut out, "\n");
    }
    assert(out@ =~= spec_show_tail(*x));
    out
}

fn push_section(out: &mut String, issues: &IssueMap, heading: &str, ids: &[String], dim: &str, reset: &str)
    requires
        issues.wf(),
    ensures
        final(out)@ == old(out)@ + section_text(issues@, heading@, strings_view(ids@), dim@, reset@),
{
    if ids.len() == 0 {
        assert(section_text(issues@, heading@, strings_view(ids@), dim@, reset@) =~= Seq::<char>::empty());
        assert(final(out)@ =~= old(out)@ + Seq::<char>::empty());
        return;
    }
    push_str(out, heading);
    let sorted = sort_deps_open_first(ids, issues);
    let ghost sv = strings_view(sorted@);
    let ghost o1 = out@;
    let mut i: usize = 0;
    while i < sorted.len()
        invariant
            i <= sorted.len(),
            issues.wf(),
            sv == strings_view(sorted@),
            out@ == o1 + lines_text(issues@, sv.take(i as int), dim@, reset@),
        decreases sorted.len() - i,
    {
        let (line, dimmed) = dep_line(issues, sorted[i].as_str());
        if dimmed {
            push_str(out, dim);
            push_str(out, line.as_str());
            push_str(out, reset);
        } else {
            push_str(out, line.as_str());
        }
        push_str(out, "\n");
        assert(sv.take(i + 1).drop_last() =~= sv.take(i as int));
        assert(out@ =~= o1 + lines_text(issues@, sv.take(i + 1), dim@, reset@));
        i += 1;
    }
    assert(sv.take(sorted.len() as int) =~= sv);
}

/// The text of `brd show` for an issue; resolved dependencies and dependents are
/// wrapped in `dim` and `reset` (empty texts for plain output).
pub fn format_show_output(x: &Issue, issues: &IssueMap, dim: &str, reset: &str) -> (r: String)
    requires
        issues.wf(),
    ensures
        exists|ds: Seq<String>|
            crate::graph::sorted_ids(ds) && crate::graph::only_dependents(issues@, id_of(*x), ds, issues@.len() as int)
                && crate::graph::all_dependents(issues@, id_of(*x), ds, issues@.len() as int)
                && r@ == spec_show(*x, issues@, strings_view(ds), dim@, reset@),
{
    let dependents = crate::graph::get_dependents(x.frontmatter.id.as_str(), issues);
    show_with(x, issues, &dependents, dim, reset)
}

fn show_with(x: &Issue, issues: &IssueMap, dependents: &Vec<String>, dim: &str, reset: &str) -> (r: String)
    requires
        issues.wf(),
    ensures
        r@ == spec_show(*x, issues@, strings_view(dependents@), dim@, reset@),
{
    let mut out = show_head(x);
    push_section(&mut out, issues, "Blocked by:\n", x.frontmatter.deps.as_slice(), dim, reset);
    push_section(&mut out, issues, "Blocks:\n", dependents.as_slice(), dim, reset);
    let t = show_tail(x);
    push_str(&mut out, t.as_str());
    assert(out@ =~= spec_show(*x, issues@, strings_view(dependents@), dim@, reset@));
    out
}

/// The block for one related issue in the context view: a `--- <id> (<status>) ---`
/// heading and its body (or `(no description)`), or `--- <id> (missing) ---`.
pub open spec fn context_block(g: Seq<Issue>, k: Seq<char>) -> Seq<char> {
    if has_id(g, k) {
        let y = g[crate::ops::index_of(g, k)];
        "\n--- "@ + k + " ("@ + y.frontmatter.status.spec_text() + ") ---\n\n"@ + (if y.body@.len() > 0 {
            y.body@ + "\n"@
        } else {
            "(no description)\n"@
        })
    } else {
        "\n--- "@ + k + " (missing) ---\n"@
    }
}

pub open spec fn context_blocks(g: Seq<Issue>, ks: Seq<Seq<char>>) -> Seq<char>
    decreases ks.len(),
{
    if ks.len() == 0 {
        Seq::<char>::empty()
    } else {
        context_blocks(g, ks.drop_last()) + context_block(g, ks.last())
    }
}

/// The context view of issue `x` whose dependents are `ds`: a heading, the show text,
/// then the full text of each dependency and of each dependent.
pub open spec fn spec_context(x: Issue, g: Seq<Issue>, ds: Seq<Seq<char>>, dim: Seq<char>, reset: Seq<char>) -> Seq<char> {
    let deps = strings_view(x.frontmatter.deps@);
    "=== "@ + x.frontmatter.id@ + ": "@ + x.frontmatter.title@ + " ===\n"@ + "\n"@ + spec_show(
        x,
        g,
        ds,
        dim,
        reset,
    ) + (if deps.len() > 0 {
        "\n=== Blocked by ===\n"@ + context_blocks(g, deps)
    } else {
        Seq::<char>::empty()
    }) + (if ds.len() > 0 {
        "\n=== Blocks ===\n"@ + context_blocks(g, ds)
    } else {
        Seq::<char>::empty()
    })
}

fn push_context_blocks(out: &mut String, issues: &IssueMap, ids: &[String])
    requires
        issues.wf(),
    ensures
        final(out)@ == old(out)@ + context_blocks(issues@, strings_view(ids@)),
{
    let ghost sv = strings_view(ids@);
    let ghost o1 = out@;
    let mut i: usize = 0;
    while i < ids.len()
        invariant
            i <= ids.len(),
            issues.wf(),
            sv == strings_view(ids@),
            out@ == o1 + context_blocks(issues@, sv.take(i as int)),
        decreases ids.len() - i,
    {
        let k = ids[i].as_str();
        match issues.get(k) {
            Some(y) => {
                proof {
                    let i0 = crate::ops::index_of(issues@, k@);
                    let j = choose|j: int| 0 <= j < issues@.len() && issues@[j] == *y && id_of(*y) == k@;
                    if i0 != j {
                        assert(id_of(issues@[i0]) != id_of(issues@[j]));
                    }
                }
                push_str(out, "\n--- ");
                push_str(out, k);
                push_str(out, " (");
                let st = y.frontmatter.status.to_text();
                push_str(out, st.as_str());
                push_str(out, ") ---\n\n");
                let b = chars_of(y.body.as_str());
                if b.len() > 0 {
                    push_str(out, y.body.as_str());
                    push_str(out, "\n");
                } else {
                    push_str(out, "(no description)\n");
                }
            },
            None => {
                push_str(out, "\n--- ");
                push_str(out, k);
                push_str(out, " (missing) ---\n");
            },
        }
        assert(sv.take(i + 1).drop_last() =~= sv.take(i as int));
        assert(out@ =~= o1 + context_blocks(issues@, sv.take(i + 1)));
        i += 1;
    }
    assert(sv.take(ids.len() as int) =~= sv);
}

/// The context view of an issue (`brd show --context`): the issue, then the full text of
/// each dependency and dependent.
pub fn format_context_output(x: &Issue, issues: &IssueMap, dim: &str, reset: &str) -> (r: String)
    requires
        issues.wf(),
    ensures
        exists|ds: Seq<String>|
            crate::graph::sorted_ids(ds) && crate::graph::only_dependents(issues@, id_of(*x), ds, issues@.len() as int)
                && crate::graph::all_dependents(issues@, id_of(*x), ds, issues@.len() as int)
                && r@ == spec_context(*x, issues@, strings_view(ds), dim@, reset@),
{
    let dependents = crate::graph::get_dependents(x.frontmatter.id.as_str(), issues);
    let mut out = String::new();
    push_str(&mut out, "=== ");
    push_str(&mut out, x.frontmatter.id.as_str());
    push_str(&mut out, ": ");
    push_str(&mut out, x.frontmatter.title.as_str());
    push_str(&mut out, " ===\n");
    push_str(&mut out, "\n");
    let shown = show_with(x, issues, &dependents, dim, reset);
    push_str(&mut out, shown.as_str());
    let ghost o1 = out@;
    if x.frontmatter.deps.len() > 0 {
        push_str(&mut out, "\n=== Blocked by ===\n");
        push_context_blocks(&mut out, issues, x.frontmatter.deps.as_slice());
    }
    let ghost o2 = out@;
    if dependents.len() > 0 {
        push_str(&mut out, "\n=== Blocks ===\n");
        push_context_blocks(&mut out, issues, dependents.as_slice());
    }
    assert(out@ =~= spec_context(*x, issues@, strings_view(dependents@), dim@, reset@));
    out
}

/// Terminal style codes: each is the escape sequence that switches a style on or off,
/// or empty for plain text.
#[derive(Debug, Clone)]
pub struct Style {
    pub underline: String,
    pub italic: String,
    pub bold: String,
    pub reset: String,
    pub red: String,
    pub yellow: String,
    pub color_reset: String,
}

/// The colour code of a priority: red for P0, yellow for P1, none otherwise.
pub open spec fn priority_color(st: Style, p: crate::issue::Priority, use_color: bool) -> Option<Seq<char>> {
    if !use_color {
        None
    } else {
        match p {
            crate::issue::Priority::P0 => Some(st.red@),
            crate::issue::Priority::P1 => Some(st.yellow@),
            _ => None,
        }
    }
}

/// One line of `brd ready`: id, priority (coloured), type column and title; with colour,
/// an issue in progress is underlined, a design issue italic and a meta issue bold.
pub open spec fn spec_ready_line(x: Issue, st: Style, use_color: bool) -> Seq<char> {
    let fm = x.frontmatter;
    let doing = fm.status == Status::Doing;
    let pc = priority_color(st, fm.priority, use_color);
    (if use_color && doing { st.underline@ } else { Seq::<char>::empty() })
        + (if use_color { match fm.issue_type {
            Some(IssueType::Design) => st.italic@,
            Some(IssueType::Meta) => st.bold@,
            None => Seq::<char>::empty(),
        } } else { Seq::<char>::empty() })
        + fm.id@ + "  "@
        + (match pc { Some(c) => c, None => Seq::<char>::empty() })
        + fm.priority.spec_text()
        + (match pc { Some(_) => st.color_reset@, None => Seq::<char>::empty() })
        + "  "@ + crate::ls::spec_type_col(x) + fm.title@
        + (if use_color && (doing || fm.issue_type is Some) { st.reset@ } else { Seq::<char>::empty() })
        + "\n"@
}

/// The lines for the issues `xs`, in order.
pub open spec fn ready_lines(xs: Seq<&Issue>, st: Style, use_color: bool) -> Seq<char>
    decreases xs.len(),
{
    if xs.len() == 0 {
        Seq::<char>::empty()
    } else {
        ready_lines(xs.drop_last(), st, use_color) + spec_ready_line(*xs.last(), st, use_color)
    }
}

/// The text of `brd ready`: a line per ready issue (or `No ready issues.`), then the
/// count and the time taken.
pub open spec fn spec_ready_output(xs: Seq<&Issue>, st: Style, use_color: bool, elapsed_ms: u64) -> Seq<char> {
    (if xs.len() == 0 { "No ready issues.\n"@ } else { Seq::<char>::empty() }) + ready_lines(xs, st, use_color)
        + "open: "@ + dec(xs.len()) + " | time: "@ + dec(elapsed_ms as nat) + "ms\n"@
}

fn ready_line(x: &Issue, st: &Style, use_color: bool) -> (r: String)
    ensures
        r@ == spec_ready_line(*x, *st, use_color),
{
    let fm = &x.frontmatter;
    let doing = fm.status == Status::Doing;
    let mut out = String::new();
    if use_color && doing {
        push_str(&mut out, st.underline.as_str());
    }
    if use_color {
        match fm.issue_type {
            Some(IssueType::Design) => push_str(&mut out, st.italic.as_str()),
            Some(IssueType::Meta) => push_str(&mut out, st.bold.as_str()),
            None => {},
        }
    }
    let ghost o1 = out@;
    push_str(&mut out, fm.id.as_str());
    push_str(&mut out, "  ");
    let colored = use_color && match fm.priority {
        crate::issue::Priority::P0 => true,
        crate::issue::Priority::P1 => true,
        _ => false,
    };
    if colored {
        match fm.priority {
            crate::issue::Priority::P0 => push_str(&mut out, st.red.as_str()),
            _ => push_str(&mut out, st.yellow.as_str()),
        }
    }
    let p = fm.priority.to_text();
    push_str(&mut out, p.as_str());
    if colored {
        push_str(&mut out, st.color_reset.as_str());
    }
    push_str(&mut out, "  ");
    match fm.issue_type {
        Some(IssueType::Design) => push_str(&mut out, "design  "),
        Some(IssueType::Meta) => push_str(&mut out, "meta    "),
        None => push_str(&mut out, "        "),
    }
    push_str(&mut out, fm.title.as_str());
    if use_color && (doing || fm.issue_type.is_some()) {
        push_str(&mut out, st.reset.as_str());
    }
    push_str(&mut out, "\n");
    assert(out@ =~= spec_ready_line(*x, *st, use_color));
    out
}

/// Renders the ready issues (colour codes from `st` when `use_color`).
pub fn format_ready_output(ready: &[&Issue], st: &Style, use_color: bool, elapsed_ms: u64) -> (r: String)
    ensures
        r@ == spec_ready_output(ready@, *st, use_color, elapsed_ms),
{
    let mut out = String::new();
    if ready.len() == 0 {
        push_str(&mut out, "No ready issues.\n");
    }
    let ghost o1 = out@;
    let mut i: usize = 0;
    while i < ready.len()
        invariant
            i <= ready.len(),
            out@ == o1 + ready_lines(ready@.take(i as int), *st, use_color),
        decreases ready.len() - i,
    {
        let l = ready_line(ready[i], st, use_color);
        push_str(&mut out, l.as_str());
        assert(ready@.take(i + 1).drop_last() =~= ready@.take(i as int));
        assert(out@ =~= o1 + ready_lines(ready@.take(i + 1), *st, use_color));
        i += 1;
    }
    assert(ready@.take(ready.len() as int) =~= ready@);
    push_str(&mut out, "open: ");
    push_u64(&mut out, ready.len() as u64);
    push_str(&mut out, " | time: ");
    push_u64(&mut out, elapsed_ms);
    push_str(&mut out, "ms\n");
    assert(out@ =~= spec_ready_output(ready@, *st, use_color, elapsed_ms));
    out
}

} // verus!
