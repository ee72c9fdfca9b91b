//! Issues: priorities, statuses, types, the issue record and the collection of issues.

use vstd::prelude::*;
use vstd::string::StringExecFns;

use crate::clock::now_utc_nanos;
use crate::error::BrdError;
use crate::migrate::CURRENT_SCHEMA;
use crate::text::{lemma_seq_lt_irrefl, lemma_seq_lt_total, lemma_seq_lt_trans, compare_str, contains_seq, has_suffix, seq_lt, str_contains, str_ends_with, to_owned_string, chars_of, lowercase, push_char, push_str, str_eq, to_lowercase, to_uppercase, uppercase};

verus! {

/// Priority levels (P0 highest to P3 lowest).
#[derive(Debug, Clone, Copy, PartialEq, Eq, Structural, PartialOrd, Ord)]
pub enum Priority {
    P0,
    P1,
    P2,
    P3,
}

impl Priority {
    /// Rank of a priority: P0 is 0, P3 is 3; a smaller rank is more urgent.
    pub open spec fn spec_rank(self) -> int {
        match self {
            Priority::P0 => 0,
            Priority::P1 => 1,
            Priority::P2 => 2,
            Priority::P3 => 3,
        }
    }

    /// Rank of a priority: P0 is 0, P3 is 3.
    pub fn rank(self) -> (r: u8)
        ensures
            r == self.spec_rank(),
    {
        match self {
            Priority::P0 => 0,
            Priority::P1 => 1,
            Priority::P2 => 2,
            Priority::P3 => 3,
        }
    }

    /// Display text of a priority.
    pub open spec fn spec_text(self) -> Seq<char> {
        match self {
            Priority::P0 => seq!['P', '0'],
            Priority::P1 => seq!['P', '1'],
            Priority::P2 => seq!['P', '2'],
            Priority::P3 => seq!['P', '3'],
        }
    }

    /// Display text of a priority ("P0" .. "P3").
    pub fn to_text(self) -> (r: String)
        ensures
            r@ == self.spec_text(),
    {
        let mut s = String::new();
        push_char(&mut s, 'P');
        match self {
            Priority::P0 => push_char(&mut s, '0'),
            Priority::P1 => push_char(&mut s, '1'),
            Priority::P2 => push_char(&mut s, '2'),
            Priority::P3 => push_char(&mut s, '3'),
        }
        assert(s@ =~= self.spec_text());
        s
    }

    /// The priority whose text is `u`, if any.
    pub open spec fn from_text(u: Seq<char>) -> Option<Priority> {
        if u == seq!['P', '0'] {
            Some(Priority::P0)
        } else if u == seq!['P', '1'] {
            Some(Priority::P1)
        } else if u == seq!['P', '2'] {
            Some(Priority::P2)
        } else if u == seq!['P', '3'] {
            Some(Priority::P3)
        } else {
            None
        }
    }

    /// Parses a priority, case-insensitively (the text is upper-cased first).
    pub fn parse(s: &str) -> (r: Result<Priority, BrdError>)
        ensures
            match Priority::from_text(uppercase(s@)) {
                Some(p) => r == Ok::<Priority, BrdError>(p),
                None => r matches Err(BrdError::ParseError(what, msg)) && what@ == "priority"@
                    && msg@ == "invalid priority: "@ + s@,
            },
    {
        let u = to_uppercase(s);
        Priority::parse_upper(u.as_str(), s)
    }

    /// Reads a priority from its upper-cased text `u`; `s` is the text as given, quoted
    /// in the error.
    pub fn parse_upper(u: &str, s: &str) -> (r: Result<Priority, BrdError>)
        ensures
            match Priority::from_text(u@) {
                Some(p) => r == Ok::<Priority, BrdError>(p),
                None => r matches Err(BrdError::ParseError(what, msg)) && what@ == "priority"@
                    && msg@ == "invalid priority: "@ + s@,
            },
    {
        let v = chars_of(u);
        if v.len() == 2 && v[0] == 'P' && v[1] >= '0' && v[1] <= '3' {
            let r = if v[1] == '0' {
                Priority::P0
            } else if v[1] == '1' {
                Priority::P1
            } else if v[1] == '2' {
                Priority::P2
            } else {
                Priority::P3
            };
            assert(v@ =~= r.spec_text());
            Ok(r)
        } else {
            assert(Priority::from_text(v@) == None::<Priority>) by {
                if v@ == seq!['P', '0'] || v@ == seq!['P', '1'] || v@ == seq!['P', '2'] || v@
                    == seq!['P', '3'] {
                    assert(v@.len() == 2 && v@[0] == 'P');
                }
            }
            let mut msg = String::from_str("invalid priority: ");
            push_str(&mut msg, s);
            Err(BrdError::ParseError(String::from_str("priority"), msg))
        }
    }
}


/// Issue status.
#[derive(Debug, Clone, Copy, PartialEq, Eq, Structural)]
pub enum Status {
    Open,
    Doing,
    Done,
    Skip,
}

impl Status {
    /// Display text of a status.
    pub open spec fn spec_text(self) -> Seq<char> {
        match self {
            Status::Open => "open"@,
            Status::Doing => "doing"@,
            Status::Done => "done"@,
            Status::Skip => "skip"@,
        }
    }

    /// Display text of a status.
    pub fn to_text(self) -> (r: String)
        ensures
            r@ == self.spec_text(),
    {
        match self {
            Status::Open => String::from_str("open"),
            Status::Doing => String::from_str("doing"),
            Status::Done => String::from_str("done"),
            Status::Skip => String::from_str("skip"),
        }
    }

    /// The status whose text is `u`, if any.
    pub open spec fn from_text(u: Seq<char>) -> Option<Status> {
        if u == "open"@ {
            Some(Status::Open)
        } else if u == "doing"@ {
            Some(Status::Doing)
        } else if u == "done"@ {
            Some(Status::Done)
        } else if u == "skip"@ {
            Some(Status::Skip)
        } else {
            None
        }
    }

    /// Parses a status, case-insensitively (the text is lower-cased first).
    pub fn parse(s: &str) -> (r: Result<Status, BrdError>)
        ensures
            match Status::from_text(lowercase(s@)) {
                Some(p) => r == Ok::<Status, BrdError>(p),
                None => r matches Err(BrdError::ParseError(what, msg)) && what@ == "status"@
                    && msg@ == "invalid status: "@ + s@,
            },
    {
        let u = to_lowercase(s);
        Status::parse_lower(u.as_str(), s)
    }

    /// Reads a status from its lower-cased text `l`; `s` is the text as given, quoted in
    /// the error.
    pub fn parse_lower(l: &str, s: &str) -> (r: Result<Status, BrdError>)
        ensures
            match Status::from_text(l@) {
                Some(p) => r == Ok::<Status, BrdError>(p),
                None => r matches Err(BrdError::ParseError(what, msg)) && what@ == "status"@
                    && msg@ == "invalid status: "@ + s@,
            },
    {
        let u = l;
        if str_eq(u, "open") {
            Ok(Status::Open)
        } else if str_eq(u, "doing") {
            Ok(Status::Doing)
        } else if str_eq(u, "done") {
            Ok(Status::Done)
        } else if str_eq(u, "skip") {
            Ok(Status::Skip)
        } else {
            let mut msg = String::from_str("invalid status: ");
            push_str(&mut msg, s);
            Err(BrdError::ParseError(String::from_str("status"), msg))
        }
    }

    /// Done and skip both count as resolved for dependency purposes.
    pub open spec fn spec_is_resolved(self) -> bool {
        self == Status::Done || self == Status::Skip
    }

    /// Whether the status counts as resolved (done or skip).
    pub fn is_resolved(self) -> (r: bool)
        ensures
            r == self.spec_is_resolved(),
    {
        match self {
            Status::Done | Status::Skip => true,
            _ => false,
        }
    }
}

/// Issue type for categorization (design docs, meta/epic issues).
#[derive(Debug, Clone, Copy, PartialEq, Eq, Structural)]
pub enum IssueType {
    Design,
    Meta,
}

impl IssueType {
    /// Display text of an issue type.
    pub open spec fn spec_text(self) -> Seq<char> {
        match self {
            IssueType::Design => "design"@,
            IssueType::Meta => "meta"@,
        }
    }

    /// Display text of an issue type.
    pub fn to_text(self) -> (r: String)
        ensures
            r@ == self.spec_text(),
    {
        match self {
            IssueType::Design => String::from_str("design"),
            IssueType::Meta => String::from_str("meta"),
        }
    }

    /// The issue type whose text is `u`, if any.
    pub open spec fn from_text(u: Seq<char>) -> Option<IssueType> {
        if u == "design"@ {
            Some(IssueType::Design)
        } else if u == "meta"@ {
            Some(IssueType::Meta)
        } else {
            None
        }
    }

    /// Parses an issue type, case-insensitively (the text is lower-cased first).
    pub fn parse(s: &str) -> (r: Result<IssueType, BrdError>)
        ensures
            match IssueType::from_text(lowercase(s@)) {
                Some(p) => r == Ok::<IssueType, BrdError>(p),
                None => r matches Err(BrdError::ParseError(what, msg)) && what@ == "type"@ && msg@
                    == "invalid type: "@ + s@ + " (valid: design, meta)"@,
            },
    {
        let u = to_lowercase(s);
        IssueType::parse_lower(u.as_str(), s)
    }

    /// Reads an issue type from its lower-cased text `l`; `s` is the text as given,
    /// quoted in the error.
    pub fn parse_lower(l: &str, s: &str) -> (r: Result<IssueType, BrdError>)
        ensures
            match IssueType::from_text(l@) {
                Some(p) => r == Ok::<IssueType, BrdError>(p),
                None => r matches Err(BrdError::ParseError(what, msg)) && what@ == "type"@ && msg@
                    == "invalid type: "@ + s@ + " (valid: design, meta)"@,
            },
    {
        let u = l;
        if str_eq(u, "design") {
            Ok(IssueType::Design)
        } else if str_eq(u, "meta") {
            Ok(IssueType::Meta)
        } else {
            let mut msg = String::from_str("invalid type: ");
            push_str(&mut msg, s);
            push_str(&mut msg, " (valid: design, meta)");
            Err(BrdError::ParseError(String::from_str("type"), msg))
        }
    }
}


/// The frontmatter of an issue file. Timestamps are nanoseconds since the Unix epoch (UTC).
#[derive(Debug, Clone)]
pub struct IssueFrontmatter {
    pub schema_version: u32,
    pub id: String,
    pub title: String,
    pub priority: Priority,
    pub status: Status,
    pub issue_type: Option<IssueType>,
    pub deps: Vec<String>,
    pub tags: Vec<String>,
    pub owner: Option<String>,
    pub created_at: i128,
    pub updated_at: i128,
    pub acceptance: Vec<String>,
}

/// A complete issue: frontmatter and markdown body.
#[derive(Debug, Clone)]
pub struct Issue {
    pub frontmatter: IssueFrontmatter,
    pub body: String,
}

/// The id of an issue.
pub open spec fn id_of(i: Issue) -> Seq<char> {
    i.frontmatter.id@
}

/// The dependency ids of an issue.
pub open spec fn deps_of(i: Issue) -> Seq<Seq<char>> {
    i.frontmatter.deps@.map_values(|d: String| d@)
}

/// The views of a list of strings.
pub open spec fn strings_view(v: Seq<String>) -> Seq<Seq<char>> {
    v.map_values(|d: String| d@)
}

impl Issue {
    /// A new issue: status open, no type, tags, owner or acceptance criteria, empty body,
    /// current schema, and created and updated at the same instant.
    pub fn new(id: String, title: String, priority: Priority, deps: Vec<String>) -> (r: Issue)
        ensures
            r.frontmatter.schema_version == CURRENT_SCHEMA,
            r.frontmatter.id == id,
            r.frontmatter.title == title,
            r.frontmatter.priority == priority,
            r.frontmatter.status == Status::Open,
            r.frontmatter.issue_type.is_none(),
            r.frontmatter.deps == deps,
            r.frontmatter.tags@.len() == 0,
            r.frontmatter.owner.is_none(),
            r.frontmatter.created_at == r.frontmatter.updated_at,
            crate::date::valid_instant(r.frontmatter.created_at as int),
            r.frontmatter.acceptance@.len() == 0,
            r.body@.len() == 0,
    {
        let now = now_utc_nanos();
        Issue {
            frontmatter: IssueFrontmatter {
                schema_version: CURRENT_SCHEMA,
                id,
                title,
                priority,
                status: Status::Open,
                issue_type: None,
                deps,
                tags: Vec::new(),
                owner: None,
                created_at: now,
                updated_at: now,
                acceptance: Vec::new(),
            },
            body: String::new(),
        }
    }

    /// Sets `updated_at` to the current time; nothing else changes.
    pub fn touch(&mut self)
        ensures
            final(self).body == old(self).body,
            final(self).frontmatter == (IssueFrontmatter {
                updated_at: final(self).frontmatter.updated_at,
                ..old(self).frontmatter
            }),
            crate::date::valid_instant(final(self).frontmatter.updated_at as int),
    {
        self.frontmatter.updated_at = now_utc_nanos();
    }

    /// The issue id.
    pub fn id(&self) -> (r: &str)
        ensures
            r@ == self.frontmatter.id@,
    {
        self.frontmatter.id.as_str()
    }

    /// The issue title.
    pub fn title(&self) -> (r: &str)
        ensures
            r@ == self.frontmatter.title@,
    {
        self.frontmatter.title.as_str()
    }

    /// The priority.
    pub fn priority(&self) -> (r: Priority)
        ensures
            r == self.frontmatter.priority,
    {
        self.frontmatter.priority
    }

    /// The status.
    pub fn status(&self) -> (r: Status)
        ensures
            r == self.frontmatter.status,
    {
        self.frontmatter.status
    }

    /// The issue type.
    pub fn issue_type(&self) -> (r: Option<IssueType>)
        ensures
            r == self.frontmatter.issue_type,
    {
        self.frontmatter.issue_type
    }

    /// The dependency ids.
    pub fn deps(&self) -> (r: &[String])
        ensures
            r@ == self.frontmatter.deps@,
    {
        self.frontmatter.deps.as_slice()
    }

    /// The tags.
    pub fn tags(&self) -> (r: &[String])
        ensures
            r@ == self.frontmatter.tags@,
    {
        self.frontmatter.tags.as_slice()
    }

    /// The canonical listing order: by priority, then creation time, then id.
    pub open spec fn spec_before(self, other: Issue) -> bool {
        let a = self.frontmatter.priority.spec_rank();
        let b = other.frontmatter.priority.spec_rank();
        ||| a < b
        ||| a == b && self.frontmatter.created_at < other.frontmatter.created_at
        ||| a == b && self.frontmatter.created_at == other.frontmatter.created_at && seq_lt(
            self.frontmatter.id@,
            other.frontmatter.id@,
        )
    }

    /// The two issues tie in the canonical listing order.
    pub open spec fn spec_ties(self, other: Issue) -> bool {
        &&& self.frontmatter.priority == other.frontmatter.priority
        &&& self.frontmatter.created_at == other.frontmatter.created_at
        &&& self.frontmatter.id@ == other.frontmatter.id@
    }

    /// Compares two issues by priority, then `created_at`, then id.
    pub fn cmp_by_priority(&self, other: &Issue) -> (r: std::cmp::Ordering)
        ensures
            (r == std::cmp::Ordering::Less) == self.spec_before(*other),
            (r == std::cmp::Ordering::Greater) == other.spec_before(*self),
            (r == std::cmp::Ordering::Equal) == self.spec_ties(*other),
    {
        let a = self.frontmatter.priority.rank();
        let b = other.frontmatter.priority.rank();
        if a < b {
            return std::cmp::Ordering::Less;
        }
        if a > b {
            return std::cmp::Ordering::Greater;
        }
        if self.frontmatter.created_at < other.frontmatter.created_at {
            return std::cmp::Ordering::Less;
        }
        if self.frontmatter.created_at > other.frontmatter.created_at {
            return std::cmp::Ordering::Greater;
        }
        let c = compare_str(self.frontmatter.id.as_str(), other.frontmatter.id.as_str());
        if c < 0 {
            std::cmp::Ordering::Less
        } else if c > 0 {
            std::cmp::Ordering::Greater
        } else {
            std::cmp::Ordering::Equal
        }
    }
}

impl Issue {
    /// Whether `self` comes strictly before `other` in the canonical listing order.
    pub fn precedes(&self, other: &Issue) -> (r: bool)
        ensures
            r == self.spec_before(*other),
    {
        match self.cmp_by_priority(other) {
            std::cmp::Ordering::Less => true,
            _ => false,
        }
    }
}

/// No two issues share an id.
pub open spec fn ids_unique(s: Seq<Issue>) -> bool {
    forall|i: int, j: int| 0 <= i < s.len() && 0 <= j < s.len() && i != j ==> id_of(s[i]) != id_of(
        s[j],
    )
}

/// Some issue has id `k`.
pub open spec fn has_id(s: Seq<Issue>, k: Seq<char>) -> bool {
    exists|i: int| 0 <= i < s.len() && id_of(s[i]) == k
}

/// The position of the issue with id `k`, if any.
pub fn find_index(s: &[Issue], k: &str) -> (r: Option<usize>)
    ensures
        match r {
            Some(i) => i < s@.len() && id_of(s@[i as int]) == k@ && forall|j: int|
                0 <= j < i ==> id_of(s@[j]) != k@,
            None => !has_id(s@, k@),
        },
{
    let mut i: usize = 0;
    while i < s.len()
        invariant
            i <= s.len(),
            forall|j: int| 0 <= j < i ==> id_of(s@[j]) != k@,
        decreases s.len() - i,
    {
        if str_eq(s[i].frontmatter.id.as_str(), k) {
            return Some(i);
        }
        i += 1;
    }
    None
}

/// A collection of issues keyed by id.
pub struct IssueMap {
    items: Vec<Issue>,
}

impl View for IssueMap {
    type V = Seq<Issue>;

    closed spec fn view(&self) -> Seq<Issue> {
        self.items@
    }
}

impl IssueMap {
    /// Well-formed: no two issues share an id.
    pub open spec fn wf(&self) -> bool {
        ids_unique(self@)
    }

    /// An empty collection.
    pub fn new() -> (r: IssueMap)
        ensures
            r@ == Seq::<Issue>::empty(),
            r.wf(),
    {
        IssueMap { items: Vec::new() }
    }

    /// The number of issues.
    pub fn len(&self) -> (r: usize)
        ensures
            r == self@.len(),
    {
        self.items.len()
    }

    /// All issues, in insertion order.
    pub fn values(&self) -> (r: &[Issue])
        ensures
            r@ == self@,
    {
        self.items.as_slice()
    }

    /// The issue with id `k`.
    pub fn get(&self, k: &str) -> (r: Option<&Issue>)
        requires
            self.wf(),
        ensures
            match r {
                Some(x) => exists|i: int| 0 <= i < self@.len() && self@[i] == *x && id_of(*x) == k@,
                None => !has_id(self@, k@),
            },
    {
        match find_index(self.items.as_slice(), k) {
            Some(i) => Some(&self.items[i]),
            None => None,
        }
    }

    /// Whether some issue has id `k`.
    pub fn contains_key(&self, k: &str) -> (r: bool)
        ensures
            r == has_id(self@, k@),
    {
        find_index(self.items.as_slice(), k).is_some()
    }

    /// Inserts an issue under its id, replacing and returning an issue with the same id.
    pub fn insert(&mut self, issue: Issue) -> (r: Option<Issue>)
        requires
            old(self).wf(),
        ensures
            final(self).wf(),
            has_id(old(self)@, id_of(issue)) ==> exists|i: int|
                0 <= i < old(self)@.len() && id_of(old(self)@[i]) == id_of(issue) && r == Some(
                    old(self)@[i],
                ) && final(self)@ == old(self)@.update(i, issue),
            !has_id(old(self)@, id_of(issue)) ==> r.is_none() && final(self)@ == old(self)@.push(
                issue,
            ),
    {
        match find_index(self.items.as_slice(), issue.frontmatter.id.as_str()) {
            Some(i) => {
                let prev = self.items.remove(i);
                self.items.insert(i, issue);
                assert(self.items@ =~= old(self)@.update(i as int, issue));
                Some(prev)
            },
            None => {
                self.items.push(issue);
                None
            },
        }
    }

    /// Takes the issue with id `k` out of the collection, with the position it held.
    pub fn take(&mut self, k: &str) -> (r: Option<(usize, Issue)>)
        requires
            old(self).wf(),
        ensures
            final(self).wf(),
            match r {
                Some((i, x)) => i < old(self)@.len() && x == old(self)@[i as int] && id_of(x) == k@
                    && final(self)@ == old(self)@.remove(i as int),
                None => !has_id(old(self)@, k@) && final(self)@ == old(self)@,
            },
    {
        match find_index(self.items.as_slice(), k) {
            Some(i) => {
                let x = self.items.remove(i);
                proof {
                    assert forall|a: int, b: int|
                        0 <= a < self@.len() && 0 <= b < self@.len() && a != b implies id_of(
                        self@[a],
                    ) != id_of(self@[b]) by {
                        let a0 = if a < i { a } else { a + 1 };
                        let b0 = if b < i { b } else { b + 1 };
                        assert(self@[a] == old(self)@[a0]);
                        assert(self@[b] == old(self)@[b0]);
                    }
                }
                Some((i, x))
            },
            None => None,
        }
    }

    /// Puts an issue back at position `i`; its id must not be present.
    pub fn put_back(&mut self, i: usize, x: Issue)
        requires
            old(self).wf(),
            i <= old(self)@.len(),
            !has_id(old(self)@, id_of(x)),
        ensures
            final(self).wf(),
            final(self)@ == old(self)@.insert(i as int, x),
    {
        self.items.insert(i, x);
        proof {
            assert forall|a: int, b: int|
                0 <= a < self@.len() && 0 <= b < self@.len() && a != b implies id_of(self@[a])
                != id_of(self@[b]) by {
                if a == i {
                    if id_of(self@[b]) == id_of(x) {
                        let b0 = if b < i { b } else { b - 1 };
                        assert(old(self)@[b0] == self@[b]);
                    }
                } else if b == i {
                    if id_of(self@[a]) == id_of(x) {
                        let a0 = if a < i { a } else { a - 1 };
                        assert(old(self)@[a0] == self@[a]);
                    }
                } else {
                    let a0 = if a < i { a } else { a - 1 };
                    let b0 = if b < i { b } else { b - 1 };
                    assert(self@[a] == old(self)@[a0]);
                    assert(self@[b] == old(self)@[b0]);
                }
            }
        }
    }

    /// Replaces the dependency list of the issue with id `k`; returns whether it exists.
    pub fn set_deps(&mut self, k: &str, deps: Vec<String>) -> (r: bool)
        requires
            old(self).wf(),
        ensures
            final(self).wf(),
            r == has_id(old(self)@, k@),
            final(self)@.len() == old(self)@.len(),
            forall|i: int|
                0 <= i < old(self)@.len() ==> #[trigger] final(self)@[i] == if id_of(old(self)@[i])
                    == k@ {
                    Issue {
                        frontmatter: IssueFrontmatter { deps: deps, ..old(self)@[i].frontmatter },
                        ..old(self)@[i]
                    }
                } else {
                    old(self)@[i]
                },
    {
        match find_index(self.items.as_slice(), k) {
            Some(i) => {
                let mut it = self.items.remove(i);
                it.frontmatter.deps = deps;
                self.items.insert(i, it);
                true
            },
            None => false,
        }
    }
}

/// The ids of issues that contain `p` (or end with it), in collection order.
pub open spec fn matching_ids(s: Seq<Issue>, p: Seq<char>) -> Seq<Seq<char>>
    decreases s.len(),
{
    if s.len() == 0 {
        Seq::<Seq<char>>::empty()
    } else {
        let prev = matching_ids(s.drop_last(), p);
        let k = id_of(s.last());
        if contains_seq(k, p) || has_suffix(k, p) {
            prev.push(k)
        } else {
            prev
        }
    }
}

/// The id a partial id resolves to, if it resolves.
pub open spec fn spec_resolve(s: Seq<Issue>, p: Seq<char>) -> Option<Seq<char>> {
    if has_id(s, p) {
        Some(p)
    } else if matching_ids(s, p).len() == 1 {
        Some(matching_ids(s, p)[0])
    } else {
        None
    }
}

/// The error that resolving `p` among `s` gives when it does not resolve: not found when
/// nothing matches, ambiguous (with the candidates) when several do.
pub open spec fn resolve_failure(s: Seq<Issue>, p: Seq<char>, e: BrdError) -> bool {
    let m = matching_ids(s, p);
    &&& !has_id(s, p)
    &&& m.len() != 1
    &&& m.len() == 0 ==> (e matches BrdError::IssueNotFound(q) && q@ == p)
    &&& m.len() > 1 ==> (e matches BrdError::AmbiguousId(q, cands) && q@ == p && strings_view(
        cands@,
    ) == m)
}

/// Resolves a partial issue id: an exact id wins; otherwise the unique id containing it.
pub fn resolve_issue_id(partial: &str, issues: &IssueMap) -> (r: Result<String, BrdError>)
    ensures
        r is Ok <==> spec_resolve(issues@, partial@) is Some,
        r matches Ok(id) ==> spec_resolve(issues@, partial@) == Some(id@),
        has_id(issues@, partial@) ==> (r matches Ok(id) && id@ == partial@),
        !has_id(issues@, partial@) ==> {
            let m = matching_ids(issues@, partial@);
            &&& m.len() == 0 ==> (r matches Err(BrdError::IssueNotFound(p)) && p@ == partial@)
            &&& m.len() == 1 ==> (r matches Ok(id) && id@ == m[0])
            &&& m.len() > 1 ==> (r matches Err(BrdError::AmbiguousId(p, cands)) && p@ == partial@
                && strings_view(cands@) == m)
        },
        r matches Err(e) ==> resolve_failure(issues@, partial@, e),
{
    let s = issues.values();
    if find_index(s, partial).is_some() {
        return Ok(to_owned_string(partial));
    }
    let mut found: Vec<String> = Vec::new();
    let mut i: usize = 0;
    while i < s.len()
        invariant
            i <= s.len(),
            strings_view(found@) == matching_ids(s@.take(i as int), partial@),
        decreases s.len() - i,
    {
        let ghost pre = s@.take(i as int);
        assert(s@.take(i + 1).drop_last() =~= pre);
        let k = s[i].frontmatter.id.as_str();
        if str_contains(k, partial) || str_ends_with(k, partial) {
            found.push(to_owned_string(k));
            assert(strings_view(found@) =~= strings_view(found@.drop_last()).push(id_of(s@[i as int])));
        }
        i += 1;
    }
    assert(s@.take(s.len() as int) =~= s@);
    if found.len() == 0 {
        Err(BrdError::IssueNotFound(to_owned_string(partial)))
    } else if found.len() == 1 {
        let r = found.remove(0);
        Ok(r)
    } else {
        Err(BrdError::AmbiguousId(to_owned_string(partial), found))
    }
}


/// The canonical listing order is a strict order, total on issues with distinct ids.
pub proof fn lemma_before_order(a: Issue, b: Issue, c: Issue)
    ensures
        !a.spec_before(a),
        a.spec_before(b) && b.spec_before(c) ==> a.spec_before(c),
        !(a.spec_before(b) && b.spec_before(a)),
        id_of(a) != id_of(b) ==> a.spec_before(b) || b.spec_before(a),
{
    lemma_seq_lt_irrefl(id_of(a));
    lemma_seq_lt_total(id_of(a), id_of(b));
    if a.spec_before(b) && b.spec_before(c) {
        if seq_lt(id_of(a), id_of(b)) && seq_lt(id_of(b), id_of(c)) {
            lemma_seq_lt_trans(id_of(a), id_of(b), id_of(c));
        }
    }
}

} // verus!
