//! The braid configuration stored in `.braid/config.toml`.

use vstd::prelude::*;

use crate::error::BrdError;
use crate::migrate::CURRENT_SCHEMA;
use crate::text::{chars_of, dec, push_char, push_str, push_u64};
use vstd::string::StringExecFns;

verus! {

/// The braid configuration.
#[derive(Debug, Clone)]
pub struct Config {
    /// schema version for the repo
    pub schema_version: u32,
    /// prefix for issue IDs (e.g., "mevx")
    pub id_prefix: String,
    /// length of the random suffix (default 4, range 4-10)
    pub id_len: u32,
    /// optional branch for issue tracking (issues live on this branch via a shared worktree)
    pub issues_branch: Option<String>,
    /// optional external repo for issue tracking (path to another braid repo)
    pub issues_repo: Option<String>,
    /// whether to fetch+rebase before brd start
    pub auto_pull: bool,
    /// whether to commit+push after brd done
    pub auto_push: bool,
    /// default diff renderer for the TUI ("native", "delta", "diff-so-fancy")
    pub diff_renderer: Option<String>,
}

/// The default configuration, apart from the id prefix.
pub open spec fn is_default_except_prefix(c: Config) -> bool {
    &&& c.schema_version == CURRENT_SCHEMA
    &&& c.id_len == 4
    &&& c.issues_branch is None
    &&& c.issues_repo is None
    &&& c.auto_pull
    &&& c.auto_push
    &&& c.diff_renderer is None
}

impl Default for Config {
    fn default() -> (r: Config)
        ensures
            is_default_except_prefix(r),
            r.id_prefix@ == "brd"@,
    {
        Config {
            schema_version: CURRENT_SCHEMA,
            id_prefix: String::from_str("brd"),
            id_len: 4,
            issues_branch: None,
            issues_repo: None,
            auto_pull: true,
            auto_push: true,
            diff_renderer: None,
        }
    }
}

/// ASCII letter or digit.
pub open spec fn is_ascii_alnum(c: char) -> bool {
    ('0' <= c <= '9') || ('a' <= c <= 'z') || ('A' <= c <= 'Z')
}

/// ASCII lower-casing of one character.
pub open spec fn ascii_lower(c: char) -> char {
    if 'A' <= c <= 'Z' {
        ((c as u32) + 32) as char
    } else {
        c
    }
}

/// The ASCII letters and digits of `s`, in order.
pub open spec fn alnum_chars(s: Seq<char>) -> Seq<char>
    decreases s.len(),
{
    if s.len() == 0 {
        s
    } else if is_ascii_alnum(s.last()) {
        alnum_chars(s.drop_last()).push(s.last())
    } else {
        alnum_chars(s.drop_last())
    }
}

/// The id prefix derived from a repo name: its first four ASCII letters or digits,
/// lower-cased, padded with `x` to four characters.
pub open spec fn spec_derive_prefix(name: Seq<char>) -> Seq<char> {
    let a = alnum_chars(name);
    let t = a.take(if a.len() < 4 {
        a.len() as int
    } else {
        4
    }).map_values(|c: char| ascii_lower(c));
    t + Seq::new((4 - t.len()) as nat, |i: int| 'x')
}

fn lower_char(c: char) -> (r: char)
    ensures
        r == ascii_lower(c),
{
    if 'A' <= c && c <= 'Z' {
        ((c as u32) + 32) as u8 as char
    } else {
        c
    }
}

/// Derives the id prefix from the repo directory name.
pub fn derive_prefix(name: &str) -> (r: String)
    ensures
        r@ == spec_derive_prefix(name@),
{
    let v = chars_of(name);
    let mut picked: Vec<char> = Vec::new();
    let mut i: usize = 0;
    while i < v.len()
        invariant
            i <= v.len(),
            v@ == name@,
            picked@ == alnum_chars(v@.take(i as int)),
        decreases v.len() - i,
    {
        assert(v@.take(i + 1).drop_last() =~= v@.take(i as int));
        let c = v[i];
        if ('0' <= c && c <= '9') || ('a' <= c && c <= 'z') || ('A' <= c && c <= 'Z') {
            picked.push(c);
        }
        i += 1;
    }
    assert(v@.take(v.len() as int) =~= v@);
    let n = if picked.len() < 4 {
        picked.len()
    } else {
        4
    };
    let mut r = String::new();
    let mut k: usize = 0;
    while k < n
        invariant
            k <= n <= picked.len(),
            n <= 4,
            r@ == picked@.take(k as int).map_values(|c: char| ascii_lower(c)),
        decreases n - k,
    {
        push_char(&mut r, lower_char(picked[k]));
        k += 1;
        assert(r@ =~= picked@.take(k as int).map_values(|c: char| ascii_lower(c)));
    }
    let ghost t = r@;
    while k < 4
        invariant
            n <= k <= 4,
            r@ == t + Seq::new((k - n) as nat, |i: int| 'x'),
        decreases 4 - k,
    {
        push_char(&mut r, 'x');
        k += 1;
        assert(r@ =~= t + Seq::new((k - n) as nat, |i: int| 'x'));
    }
    r
}

/// The message for a repo whose schema is newer than this brd supports.
pub open spec fn spec_schema_mismatch(
    location: Seq<char>,
    repo_version: u32,
    supported_version: u32,
    is_agent_worktree: bool,
) -> Seq<char> {
    location + " uses schema v"@ + dec(repo_version as nat) + ", but this brd only supports up to v"@
        + dec(supported_version as nat) + if is_agent_worktree {
        AGENT_GUIDANCE@
    } else {
        UPGRADE_GUIDANCE@
    }
}

/// Guidance for agent worktrees on a schema mismatch.
pub const AGENT_GUIDANCE: &'static str = "\n\nfor agent worktrees:\n  1. rebase on main: git fetch origin main && git rebase origin/main\n  2. rebuild: cargo build --release\n  3. if still failing, ask human - there may be an unreleased schema change\n\nNEVER manually edit schema_version in config files.";

/// Guidance elsewhere on a schema mismatch.
pub const UPGRADE_GUIDANCE: &'static str = "\n\nupgrade brd: cargo install braid";

/// Builds the schema mismatch error; `is_agent_worktree` says whether the worktree holds
/// `.braid/agent.toml`, which selects agent-specific guidance.
pub fn schema_mismatch_error(
    location: &str,
    repo_version: u32,
    supported_version: u32,
    is_agent_worktree: bool,
) -> (r: BrdError)
    ensures
        r matches BrdError::Other(m) && m@ == spec_schema_mismatch(
            location@,
            repo_version,
            supported_version,
            is_agent_worktree,
        ),
{
    let mut m = String::new();
    push_str(&mut m, location);
    push_str(&mut m, " uses schema v");
    push_u64(&mut m, repo_version as u64);
    push_str(&mut m, ", but this brd only supports up to v");
    push_u64(&mut m, supported_version as u64);
    if is_agent_worktree {
        push_str(&mut m, AGENT_GUIDANCE);
    } else {
        push_str(&mut m, UPGRADE_GUIDANCE);
    }
    BrdError::Other(m)
}

impl Config {
    /// A default config whose id prefix is derived from the repo directory name.
    pub fn with_derived_prefix(repo_name: &str) -> (r: Config)
        ensures
            is_default_except_prefix(r),
            r.id_prefix@ == spec_derive_prefix(repo_name@),
    {
        let prefix = derive_prefix(repo_name);
        Config {
            schema_version: CURRENT_SCHEMA,
            id_prefix: prefix,
            id_len: 4,
            issues_branch: None,
            issues_repo: None,
            auto_pull: true,
            auto_push: true,
            diff_renderer: None,
        }
    }

    /// Whether issues-branch mode (local-sync) is enabled.
    pub fn is_issues_branch_mode(&self) -> (r: bool)
        ensures
            r == self.issues_branch is Some,
    {
        self.issues_branch.is_some()
    }

    /// Whether external-repo mode is enabled.
    pub fn is_external_repo_mode(&self) -> (r: bool)
        ensures
            r == self.issues_repo is Some,
    {
        self.issues_repo.is_some()
    }

    /// The UTF-8 length of the id prefix, as `str::len` reports it.
    pub open spec fn prefix_bytes(&self) -> usize {
        vstd::utf8::encode_utf8(self.id_prefix@).len() as usize
    }

    /// Validates the config: the schema must not be newer than this brd's, `id_len` must be
    /// 4..=10 and the id prefix 2..=12 bytes. `is_agent_worktree` selects the guidance in
    /// the schema error.
    pub fn validate(&self, is_agent_worktree: bool) -> (r: Result<(), BrdError>)
        ensures
            self.schema_version > CURRENT_SCHEMA ==> (r matches Err(BrdError::Other(m)) && m@
                == spec_schema_mismatch(
                "this repo"@,
                self.schema_version,
                CURRENT_SCHEMA,
                is_agent_worktree,
            )),
            self.schema_version <= CURRENT_SCHEMA && (self.id_len < 4 || self.id_len > 10) ==> (
            r matches Err(BrdError::ParseError(w, m)) && w@ == "config"@ && m@
                == "id_len must be between 4 and 10, got "@ + dec(self.id_len as nat)),
            self.schema_version <= CURRENT_SCHEMA && 4 <= self.id_len <= 10 && (self.prefix_bytes()
                < 2 || self.prefix_bytes() > 12) ==> (r matches Err(BrdError::ParseError(w, m))
                && w@ == "config"@ && m@ == "id_prefix must be 2-12 chars, got "@ + dec(
                self.prefix_bytes() as nat,
            ) + " chars"@),
            r is Ok <==> (self.schema_version <= CURRENT_SCHEMA && 4 <= self.id_len <= 10 && 2
                <= self.prefix_bytes() <= 12),
    {
        if self.schema_version > CURRENT_SCHEMA {
            return Err(
                schema_mismatch_error(
                    "this repo",
                    self.schema_version,
                    CURRENT_SCHEMA,
                    is_agent_worktree,
                ),
            );
        }
        if self.id_len < 4 || self.id_len > 10 {
            let mut m = String::from_str("id_len must be between 4 and 10, got ");
            push_u64(&mut m, self.id_len as u64);
            return Err(BrdError::ParseError(String::from_str("config"), m));
        }
        let n = self.id_prefix.as_str().len();
        if n < 2 || n > 12 {
            let mut m = String::from_str("id_prefix must be 2-12 chars, got ");
            push_u64(&mut m, n as u64);
            push_str(&mut m, " chars");
            return Err(BrdError::ParseError(String::from_str("config"), m));
        }
        Ok(())
    }
}

/// Which edits a config file needs to reach the current schema.
#[derive(Debug, Clone, Copy, PartialEq, Eq, Structural)]
pub struct ConfigMigration {
    /// rename `sync_branch` to `issues_branch` (schema < 5 with a `sync_branch` key)
    pub rename_sync_branch: bool,
    /// add `auto_pull = true` (schema < 6 without the key)
    pub add_auto_pull: bool,
    /// add `auto_push = true` (schema < 6 without the key)
    pub add_auto_push: bool,
    /// whether any migration applies; then `schema_version` is set to the current schema
    pub migrated: bool,
}

/// The edits for a config table whose `schema_version` integer is `version` (0 when
/// missing), read as a `u32` by truncation, with the given keys present.
pub open spec fn spec_config_migration(
    version: Option<i64>,
    has_sync_branch: bool,
    has_auto_pull: bool,
    has_auto_push: bool,
) -> ConfigMigration {
    let v = match version {
        Some(x) => x as u32,
        None => 0u32,
    };
    ConfigMigration {
        rename_sync_branch: v < 5 && has_sync_branch,
        add_auto_pull: v < 6 && !has_auto_pull,
        add_auto_push: v < 6 && !has_auto_push,
        migrated: v < 6,
    }
}

/// Plans the migration of a config table.
pub fn plan_config_migration(
    version: Option<i64>,
    has_sync_branch: bool,
    has_auto_pull: bool,
    has_auto_push: bool,
) -> (r: ConfigMigration)
    ensures
        r == spec_config_migration(version, has_sync_branch, has_auto_pull, has_auto_push),
{
    let v: u32 = match version {
        Some(x) => x as u32,
        None => 0,
    };
    ConfigMigration {
        rename_sync_branch: v < 5 && has_sync_branch,
        add_auto_pull: v < 6 && !has_auto_pull,
        add_auto_push: v < 6 && !has_auto_push,
        migrated: v < 6,
    }
}

} // verus!
