//! Checks of a braid repository's health: the reading of an issue file's fences.

use vstd::prelude::*;

use crate::error::BrdError;
use crate::frontmatter::{fenced, parse_error, spec_fenced, split_view};
use crate::agent::AGENTS_BLOCK_VERSION;
use crate::graph::{acyclic, all_cycles, compute_derived, find_cycles, missing_deps_of, path_view};
use crate::issue::{deps_of, id_of, strings_view, Issue, IssueMap};
use crate::text::{dec, push_str, push_u64, substring, to_owned_string, trim, trim_bounds};

verus! {

/// How the doctor splits a file: the trimmed frontmatter and the trimmed body; or the
/// parse error, in `frontmatter`, of a missing fence.
pub open spec fn spec_parse_frontmatter(content: Seq<char>) -> Result<(Seq<char>, Seq<char>), (Seq<char>, Seq<char>)> {
    match spec_fenced(content) {
        None => Err(("frontmatter"@, "missing opening ---"@)),
        Some(None) => Err(("frontmatter"@, "missing closing ---"@)),
        Some(Some((f, b))) => Ok((trim(f), trim(b))),
    }
}

/// Splits a file into its frontmatter and its body, both trimmed.
pub fn parse_frontmatter(content: &str) -> (r: Result<(String, String), BrdError>)
    ensures
        split_view(r) == Some(spec_parse_frontmatter(content@)),
{
    match fenced(content) {
        None => Err(parse_error("frontmatter", "missing opening ---")),
        Some((_, None)) => Err(parse_error("frontmatter", "missing closing ---")),
        Some((t, Some(e))) => {
            let (p, q) = trim_bounds(&t, 3, e);
            let front = substring(&t, p, q);
            let (u, w) = trim_bounds(&t, e + 4, t.len());
            let body = substring(&t, u, w);
            Ok((front, body))
        },
    }
}

/// The pairs `(issue, dependency)` of `s` whose dependency names no issue of `g`, issue
/// by issue and dependency by dependency.
pub open spec fn missing_pairs(g: Seq<Issue>, s: Seq<Issue>) -> Seq<(Seq<char>, Seq<char>)>
    decreases s.len(),
{
    if s.len() == 0 {
        Seq::empty()
    } else {
        missing_pairs(g, s.drop_last()) + missing_deps_of(g, deps_of(s.last())).map_values(
            |d: Seq<char>| (id_of(s.last()), d),
        )
    }
}

/// The view of a list of pairs of texts.
pub open spec fn pairs_view(v: Seq<(String, String)>) -> Seq<(Seq<char>, Seq<char>)> {
    v.map_values(|p: (String, String)| (p.0@, p.1@))
}

/// Every dependency that names no issue, with the issue that lists it.
pub fn missing_dep_pairs(issues: &IssueMap) -> (r: Vec<(String, String)>)
    requires
        issues.wf(),
    ensures
        pairs_view(r@) == missing_pairs(issues@, issues@),
{
    let g = issues.values();
    let mut r: Vec<(String, String)> = Vec::new();
    let mut i: usize = 0;
    while i < g.len()
        invariant
            i <= g.len(),
            g@ == issues@,
            issues.wf(),
            pairs_view(r@) == missing_pairs(issues@, g@.take(i as int)),
        decreases g.len() - i,
    {
        assert(g@.take(i + 1).drop_last() =~= g@.take(i as int));
        let d = compute_derived(&g[i], issues);
        let ghost r0 = pairs_view(r@);
        let ghost md = missing_deps_of(issues@, deps_of(g@[i as int]));
        let mut k: usize = 0;
        while k < d.missing_deps.len()
            invariant
                k <= d.missing_deps.len(),
                i < g.len(),
                g@ == issues@,
                strings_view(d.missing_deps@) == md,
                pairs_view(r@) == r0 + md.take(k as int).map_values(|x: Seq<char>| (id_of(g@[i as int]), x)),
            decreases d.missing_deps.len() - k,
        {
            let pair = (to_owned_string(g[i].frontmatter.id.as_str()), to_owned_string(d.missing_deps[k].as_str()));
            let ghost before = pairs_view(r@);
            r.push(pair);
            assert(pairs_view(r@) =~= before.push((id_of(g@[i as int]), md[k as int])));
            assert(md.take(k + 1).map_values(|x: Seq<char>| (id_of(g@[i as int]), x)) =~= md.take(k as int).map_values(|x: Seq<char>| (id_of(g@[i as int]), x)).push((id_of(g@[i as int]), md[k as int])));
            k += 1;
        }
        assert(md.take(d.missing_deps.len() as int) =~= md);
        assert(pairs_view(r@) =~= missing_pairs(issues@, g@.take(i + 1)));
        i += 1;
    }
    assert(g@.take(g.len() as int) =~= g@);
    r
}

/// A check's line: `✓ <description>` when it passed, `✗ <description>` when not.
pub fn check_line(passed: bool, description: &str) -> (r: String)
    ensures
        r@ == (if passed { "✓ "@ } else { "✗ "@ }) + description@,
{
    let mut r = String::new();
    if passed {
        push_str(&mut r, "✓ ");
    } else {
        push_str(&mut r, "✗ ");
    }
    push_str(&mut r, description);
    r
}

/// The agents-block check: passed when the block is at the current version or newer,
/// with the description of what was found.
pub open spec fn spec_agents_block_check(version: Option<u32>) -> (bool, Seq<char>) {
    match version {
        Some(v) => if v >= AGENTS_BLOCK_VERSION {
            (true, "AGENTS.md braid block at v"@ + dec(AGENTS_BLOCK_VERSION as nat))
        } else {
            (false, "AGENTS.md braid block outdated (v"@ + dec(v as nat) + " < v"@ + dec(AGENTS_BLOCK_VERSION as nat) + ")"@)
        },
        None => (false, "AGENTS.md braid block not found"@),
    }
}

/// Checks the version of the agents block found in the instruction files.
pub fn agents_block_check(version: Option<u32>) -> (r: (bool, String))
    ensures
        (r.0, r.1@) == spec_agents_block_check(version),
{
    let mut d = String::new();
    match version {
        Some(v) => {
            if v >= AGENTS_BLOCK_VERSION {
                push_str(&mut d, "AGENTS.md braid block at v");
                push_u64(&mut d, AGENTS_BLOCK_VERSION as u64);
                (true, d)
            } else {
                push_str(&mut d, "AGENTS.md braid block outdated (v");
                push_u64(&mut d, v as u64);
                push_str(&mut d, " < v");
                push_u64(&mut d, AGENTS_BLOCK_VERSION as u64);
                push_str(&mut d, ")");
                (false, d)
            }
        },
        None => {
            push_str(&mut d, "AGENTS.md braid block not found");
            (false, d)
        },
    }
}

/// The line reporting a dependency on a missing issue.
pub fn missing_dep_line(issue: &str, dep: &str) -> (r: String)
    ensures
        r@ == "  error: "@ + issue@ + " depends on missing issue "@ + dep@,
{
    let mut r = String::new();
    push_str(&mut r, "  error: ");
    push_str(&mut r, issue);
    push_str(&mut r, " depends on missing issue ");
    push_str(&mut r, dep);
    r
}

/// The outcome of the doctor: success without errors, else an error.
pub fn doctor_outcome(error_count: usize) -> (r: Result<(), BrdError>)
    ensures
        error_count == 0 ==> r is Ok,
        error_count > 0 ==> (r matches Err(BrdError::Other(m)) && m@ == "doctor found errors"@),
{
    if error_count == 0 {
        Ok(())
    } else {
        Err(BrdError::Other(to_owned_string("doctor found errors")))
    }
}


/// What the doctor learns from the file system before judging: whether `.braid` exists,
/// whether `config.toml` exists and loads, how many issue files declare a schema older
/// than the current one, and the version of the agents block found, if any.
pub struct DoctorFacts {
    pub braid_dir_exists: bool,
    pub config_valid: bool,
    pub stale_issues: usize,
    pub agents_block: Option<u32>,
}

/// One check of the doctor: its name, what it checks, and whether it passed.
pub struct DoctorCheck {
    pub name: String,
    pub description: String,
    pub passed: bool,
}

/// A problem that fails the doctor.
pub enum DoctorProblem {
    MissingBraidDir,
    InvalidConfig,
    MissingDep(String, String),
    Cycle(Vec<String>),
}

pub enum ProblemV {
    MissingBraidDir,
    InvalidConfig,
    MissingDep(Seq<char>, Seq<char>),
    Cycle(Seq<Seq<char>>),
}

/// The doctor's findings: every check in order, and the problems found.
pub struct DoctorReport {
    pub checks: Vec<DoctorCheck>,
    pub problems: Vec<DoctorProblem>,
}

pub open spec fn checks_view(v: Seq<DoctorCheck>) -> Seq<(Seq<char>, Seq<char>, bool)> {
    v.map_values(|c: DoctorCheck| (c.name@, c.description@, c.passed))
}

pub open spec fn problem_view(p: DoctorProblem) -> ProblemV {
    match p {
        DoctorProblem::MissingBraidDir => ProblemV::MissingBraidDir,
        DoctorProblem::InvalidConfig => ProblemV::InvalidConfig,
        DoctorProblem::MissingDep(i, d) => ProblemV::MissingDep(i@, d@),
        DoctorProblem::Cycle(c) => ProblemV::Cycle(path_view(c@)),
    }
}

pub open spec fn problems_view(v: Seq<DoctorProblem>) -> Seq<ProblemV> {
    v.map_values(|p: DoctorProblem| problem_view(p))
}

/// The checks, in order: `.braid` exists, the config is valid, issue files parse (they
/// have been loaded), every issue is at the current schema, no dependency is missing, no
/// cycle, and the agents block is current.
pub open spec fn spec_checks(f: DoctorFacts, g: Seq<Issue>) -> Seq<(Seq<char>, Seq<char>, bool)> {
    let ab = spec_agents_block_check(f.agents_block);
    seq![
        ("braid_dir"@, ".braid directory exists"@, f.braid_dir_exists),
        ("config_valid"@, "config.toml is valid"@, f.config_valid),
        ("issues_parse"@, "all issue files parse correctly"@, true),
        ("schema_current"@, "all issues at schema v"@ + dec(crate::migrate::CURRENT_SCHEMA as nat), f.stale_issues == 0),
        ("no_missing_deps"@, "no missing dependencies"@, missing_pairs(g, g).len() == 0),
        ("no_cycles"@, "no dependency cycles"@, acyclic(g)),
        ("agents_block"@, ab.1, ab.0),
    ]
}

/// The problems, in order: a missing `.braid`, an invalid config, each missing
/// dependency, then the cycles `cs`.
pub open spec fn spec_problems(f: DoctorFacts, g: Seq<Issue>, cs: Seq<Seq<Seq<char>>>) -> Seq<ProblemV> {
    (if f.braid_dir_exists { Seq::<ProblemV>::empty() } else { seq![ProblemV::MissingBraidDir] })
        + (if f.config_valid { Seq::<ProblemV>::empty() } else { seq![ProblemV::InvalidConfig] })
        + missing_pairs(g, g).map_values(|p: (Seq<char>, Seq<char>)| ProblemV::MissingDep(p.0, p.1))
        + cs.map_values(|c: Seq<Seq<char>>| ProblemV::Cycle(c))
}

fn check(name: &str, description: String, passed: bool) -> (r: DoctorCheck)
    ensures
        r.name@ == name@,
        r.description@ == description@,
        r.passed == passed,
{
    DoctorCheck { name: to_owned_string(name), description, passed }
}

fn text(s: &str) -> (r: String)
    ensures
        r@ == s@,
{
    to_owned_string(s)
}

/// Judges a repository from the facts gathered and the issues loaded; see
/// [`spec_checks`] and [`spec_problems`]. The cycles reported are cycles of the graph,
/// and there are some exactly when the graph has a cycle.
pub fn doctor_report(facts: &DoctorFacts, issues: &IssueMap) -> (r: DoctorReport)
    requires
        issues.wf(),
    ensures
        checks_view(r.checks@) == spec_checks(*facts, issues@),
        exists|cs: Seq<Vec<String>>|
            all_cycles(issues@, cs) && (cs.len() == 0 <==> acyclic(issues@)) && problems_view(r.problems@)
                == spec_problems(*facts, issues@, cs.map_values(|c: Vec<String>| path_view(c@))),
{
    let ghost g = issues@;
    let missing = missing_dep_pairs(issues);
    let cycles = find_cycles(issues);
    let (ab_passed, ab_desc) = agents_block_check(facts.agents_block);
    let mut sv = String::new();
    push_str(&mut sv, "all issues at schema v");
    push_u64(&mut sv, crate::migrate::CURRENT_SCHEMA as u64);

    let mut checks: Vec<DoctorCheck> = Vec::new();
    checks.push(check("braid_dir", text(".braid directory exists"), facts.braid_dir_exists));
    checks.push(check("config_valid", text("config.toml is valid"), facts.config_valid));
    checks.push(check("issues_parse", text("all issue files parse correctly"), true));
    checks.push(check("schema_current", sv, facts.stale_issues == 0));
    checks.push(check("no_missing_deps", text("no missing dependencies"), missing.len() == 0));
    checks.push(check("no_cycles", text("no dependency cycles"), cycles.len() == 0));
    checks.push(check("agents_block", ab_desc, ab_passed));
    proof {
        assert(pairs_view(missing@).len() == missing@.len());
        assert(checks_view(checks@) =~= spec_checks(*facts, g));
    }

    let mut problems: Vec<DoctorProblem> = Vec::new();
    if !facts.braid_dir_exists {
        problems.push(DoctorProblem::MissingBraidDir);
    }
    if !facts.config_valid {
        problems.push(DoctorProblem::InvalidConfig);
    }
    let ghost head = problems_view(problems@);
    assert(head =~= (if facts.braid_dir_exists { Seq::<ProblemV>::empty() } else { seq![ProblemV::MissingBraidDir] })
        + (if facts.config_valid { Seq::<ProblemV>::empty() } else { seq![ProblemV::InvalidConfig] }));
    let ghost mp = pairs_view(missing@);
    let ghost mps = mp.map_values(|p: (Seq<char>, Seq<char>)| ProblemV::MissingDep(p.0, p.1));
    let mut i: usize = 0;
    while i < missing.len()
        invariant
            i <= missing.len(),
            mp == pairs_view(missing@),
            mps == mp.map_values(|p: (Seq<char>, Seq<char>)| ProblemV::MissingDep(p.0, p.1)),
            problems_view(problems@) == head + mps.take(i as int),
        decreases missing.len() - i,
    {
        let a = to_owned_string(missing[i].0.as_str());
        let b = to_owned_string(missing[i].1.as_str());
        let ghost before = problems@;
        problems.push(DoctorProblem::MissingDep(a, b));
        assert(mp[i as int] == (missing@[i as int].0@, missing@[i as int].1@));
        assert(problem_view(problems@.last()) == mps[i as int]);
        assert(problems_view(problems@) =~= problems_view(before).push(problem_view(problems@.last())));
        assert(mps.take(i + 1) =~= mps.take(i as int).push(mps[i as int]));
        assert(problems_view(problems@) =~= head + mps.take(i + 1));
        i += 1;
    }
    assert(mps.take(missing.len() as int) =~= mps);
    let ghost mid = problems_view(problems@);
    let ghost cv = cycles@.map_values(|c: Vec<String>| path_view(c@));
    let ghost cps = cv.map_values(|c: Seq<Seq<char>>| ProblemV::Cycle(c));
    let mut j: usize = 0;
    while j < cycles.len()
        invariant
            j <= cycles.len(),
            cv == cycles@.map_values(|c: Vec<String>| path_view(c@)),
            cps == cv.map_values(|c: Seq<Seq<char>>| ProblemV::Cycle(c)),
            problems_view(problems@) == mid + cps.take(j as int),
        decreases cycles.len() - j,
    {
        let c = crate::dep::copy_strings(cycles[j].as_slice());
        assert(path_view(c@) =~= path_view(cycles@[j as int]@));
        let ghost before = problems@;
        problems.push(DoctorProblem::Cycle(c));
        assert(problem_view(problems@.last()) == cps[j as int]);
        assert(problems_view(problems@) =~= problems_view(before).push(problem_view(problems@.last())));
        assert(cps.take(j + 1) =~= cps.take(j as int).push(cps[j as int]));
        assert(problems_view(problems@) =~= mid + cps.take(j + 1));
        j += 1;
    }
    assert(cps.take(cycles.len() as int) =~= cps);
    assert(problems_view(problems@) =~= spec_problems(*facts, g, cv));
    DoctorReport { checks, problems }
}

} // verus!
