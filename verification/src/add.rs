//! The issue `brd add` creates from its arguments.

use vstd::prelude::*;
use crate::cli::AddArgs;
use crate::config::Config;
use crate::error::BrdError;
use crate::idgen::{generate_issue_id, ids_view, is_generated_id};
use crate::issue::{
    resolve_failure, resolve_issue_id, spec_resolve, strings_view, Issue, IssueMap, IssueType, Priority,
    Status,
};
use crate::migrate::CURRENT_SCHEMA;
use crate::text::{lowercase, to_owned_string, uppercase};

verus! {

/// The index of the first dependency in `deps` that does not resolve, if any.
pub open spec fn first_unresolved(g: Seq<Issue>, deps: Seq<Seq<char>>, i: int) -> Option<int>
    decreases deps.len() - i,
{
    if i >= deps.len() {
        None
    } else if spec_resolve(g, deps[i]) is None {
        Some(i)
    } else {
        first_unresolved(g, deps, i + 1)
    }
}

/// The resolved ids of `deps`, when all resolve.
pub open spec fn resolved_deps(g: Seq<Issue>, deps: Seq<Seq<char>>) -> Seq<Seq<char>> {
    deps.map_values(|d: Seq<char>| spec_resolve(g, d)->0)
}

/// Whether issue `x` is the one `brd add` makes from `args`, with its fields parsed and
/// its dependencies resolved: a fresh id, the title, priority, type, resolved
/// dependencies, acceptance criteria, tags and body given, open, unowned, at the current
/// schema.
pub open spec fn made_from(x: Issue, g: Seq<Issue>, args: AddArgs, p: Priority, t: Option<IssueType>, c: Config) -> bool {
    let fm = x.frontmatter;
    &&& is_generated_id(c.id_prefix@, c.id_len as nat, fm.id@)
    &&& fm.title@ == args.title@
    &&& fm.priority == p
    &&& fm.issue_type == t
    &&& strings_view(fm.deps@) == resolved_deps(g, strings_view(args.dep@))
    &&& strings_view(fm.acceptance@) == strings_view(args.ac@)
    &&& strings_view(fm.tags@) == strings_view(args.tag@)
    &&& x.body@ == match args.body {
        Some(b) => b@,
        None => Seq::<char>::empty(),
    }
    &&& fm.status == Status::Open
    &&& fm.owner is None
    &&& fm.schema_version == CURRENT_SCHEMA
    &&& fm.created_at == fm.updated_at
}

fn copy_all(v: &Vec<String>) -> (r: Vec<String>)
    ensures
        strings_view(r@) == strings_view(v@),
{
    crate::dep::copy_strings(v.as_slice())
}

/// Resolves every dependency, in order; the first that does not resolve gives the error.
fn resolve_all(issues: &IssueMap, deps: &Vec<String>) -> (r: Result<Vec<String>, BrdError>)
    requires
        issues.wf(),
    ensures
        match first_unresolved(issues@, strings_view(deps@), 0) {
            Some(i) => r matches Err(e) && resolve_failure(issues@, strings_view(deps@)[i], e),
            None => r matches Ok(v) && strings_view(v@) == resolved_deps(issues@, strings_view(deps@)),
        },
{
    let ghost dv = strings_view(deps@);
    let mut out: Vec<String> = Vec::new();
    let mut i: usize = 0;
    while i < deps.len()
        invariant
            i <= deps.len(),
            issues.wf(),
            dv == strings_view(deps@),
            first_unresolved(issues@, dv, 0) == first_unresolved(issues@, dv, i as int),
            strings_view(out@) == resolved_deps(issues@, dv).take(i as int),
            forall|j: int| 0 <= j < i ==> spec_resolve(issues@, #[trigger] dv[j]) is Some,
        decreases deps.len() - i,
    {
        match resolve_issue_id(deps[i].as_str(), issues) {
            Ok(k) => {
                let ghost o0 = strings_view(out@);
                out.push(k);
                assert(strings_view(out@) =~= o0.push(k@));
                assert(resolved_deps(issues@, dv).take(i + 1) =~= resolved_deps(issues@, dv).take(i as int).push(
                    resolved_deps(issues@, dv)[i as int],
                ));
            },
            Err(e) => {
                return Err(e);
            },
        }
        i += 1;
    }
    assert(resolved_deps(issues@, dv).take(deps.len() as int) =~= resolved_deps(issues@, dv));
    Ok(out)
}

/// Builds the issue `brd add` creates: the priority and type are parsed, every dependency
/// is resolved, and a fresh id not among `taken` (the ids whose files exist) is drawn.
/// Errors come in that order: the priority's, the type's, the first unresolved
/// dependency's; then, all those given, only a failure to find a free id.
pub fn new_issue(config: &Config, issues: &IssueMap, args: &AddArgs, taken: &Vec<String>) -> (r: Result<Issue, BrdError>)
    requires
        issues.wf(),
    ensures
        Priority::from_text(uppercase(args.priority@)) is None ==> (r matches Err(BrdError::ParseError(w, m))
            && w@ == "priority"@ && m@ == "invalid priority: "@ + args.priority@),
        Priority::from_text(uppercase(args.priority@)) is Some ==> match args.issue_type {
            Some(t) => IssueType::from_text(lowercase(t@)) is None ==> (r matches Err(BrdError::ParseError(w, m))
                && w@ == "type"@ && m@ == "invalid type: "@ + t@ + " (valid: design, meta)"@),
            None => true,
        },
        ({
            let type_ok = match args.issue_type {
                Some(t) => IssueType::from_text(lowercase(t@)) is Some,
                None => true,
            };
            Priority::from_text(uppercase(args.priority@)) is Some && type_ok ==> match first_unresolved(
                issues@,
                strings_view(args.dep@),
                0,
            ) {
                Some(i) => r matches Err(e) && resolve_failure(issues@, strings_view(args.dep@)[i], e),
                None => {
                    &&& r is Ok || (r matches Err(BrdError::Other(m)) && m@
                        == "failed to generate unique ID after 20 attempts"@)
                    &&& crate::idgen::no_generated_taken(*config, ids_view(taken@)) ==> r is Ok
                },
            }
        }),
        r matches Ok(x) ==> made_from(
            x,
            issues@,
            *args,
            Priority::from_text(uppercase(args.priority@))->0,
            match args.issue_type {
                Some(t) => Some(IssueType::from_text(lowercase(t@))->0),
                None => None,
            },
            *config,
        ) && !ids_view(taken@).contains(x.frontmatter.id@),
{
    let priority = match Priority::parse(args.priority.as_str()) {
        Ok(p) => p,
        Err(e) => return Err(e),
    };
    let issue_type = match &args.issue_type {
        Some(t) => match IssueType::parse(t.as_str()) {
            Ok(k) => Some(k),
            Err(e) => return Err(e),
        },
        None => None,
    };
    let deps = match resolve_all(issues, &args.dep) {
        Ok(v) => v,
        Err(e) => return Err(e),
    };
    let id = match generate_issue_id(config, taken) {
        Ok(id) => id,
        Err(e) => return Err(e),
    };
    let mut issue = Issue::new(id, to_owned_string(args.title.as_str()), priority, deps);
    issue.frontmatter.issue_type = issue_type;
    issue.frontmatter.acceptance = copy_all(&args.ac);
    issue.frontmatter.tags = copy_all(&args.tag);
    match &args.body {
        Some(b) => {
            issue.body = to_owned_string(b.as_str());
        },
        None => {},
    }
    proof {
        let fm = issue.frontmatter;
        assert(is_generated_id(config.id_prefix@, config.id_len as nat, fm.id@));
        assert(fm.title@ == args.title@);
        assert(fm.priority == Priority::from_text(uppercase(args.priority@))->0);
        assert(fm.issue_type == match args.issue_type {
            Some(t) => Some(IssueType::from_text(lowercase(t@))->0),
            None => None,
        });
        assert(strings_view(fm.deps@) == resolved_deps(issues@, strings_view(args.dep@)));
        assert(fm.created_at == fm.updated_at);
        assert(strings_view(fm.acceptance@) == strings_view(args.ac@));
        assert(strings_view(fm.tags@) == strings_view(args.tag@));
        assert(issue.body@ == match args.body {
            Some(b) => b@,
            None => Seq::<char>::empty(),
        });
        assert(fm.status == Status::Open);
        assert(!ids_view(taken@).contains(fm.id@));
    }
    Ok(issue)
}

} // verus!
