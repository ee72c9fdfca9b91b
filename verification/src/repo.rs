//! Paths of a braid repository, derived from what git reports.

use vstd::prelude::*;

use crate::config::Config;
use crate::text::{join_path, path_join};

verus! {

/// Paths discovered from git for a brd repository.
#[derive(Debug, Clone)]
pub struct RepoPaths {
    /// the worktree root (`git rev-parse --show-toplevel`)
    pub worktree_root: String,
    /// the git common directory (`git rev-parse --git-common-dir`)
    pub git_common_dir: String,
    /// the brd directory inside the git common dir (`<git-common-dir>/brd/`)
    pub brd_common_dir: String,
}

impl RepoPaths {
    /// `.braid/` in the current worktree.
    pub open spec fn spec_braid_dir(&self) -> Seq<char> {
        join_path(self.worktree_root@, ".braid"@)
    }

    /// The shared issues worktree directory (issues-branch mode).
    pub open spec fn spec_issues_worktree_dir(&self) -> Seq<char> {
        join_path(self.brd_common_dir@, "issues"@)
    }

    /// `.braid/config.toml` in the current worktree.
    pub open spec fn spec_config_path(&self) -> Seq<char> {
        join_path(self.spec_braid_dir(), "config.toml"@)
    }

    /// Path to `.braid/` in the current worktree.
    pub fn braid_dir(&self) -> (r: String)
        ensures
            r@ == self.spec_braid_dir(),
    {
        path_join(self.worktree_root.as_str(), ".braid")
    }

    /// Path to `.braid/issues/` in the current worktree (default mode).
    pub fn local_issues_dir(&self) -> (r: String)
        ensures
            r@ == join_path(self.spec_braid_dir(), "issues"@),
    {
        let b = self.braid_dir();
        path_join(b.as_str(), "issues")
    }

    /// Path to the shared issues worktree directory (issues-branch mode).
    pub fn issues_worktree_dir(&self) -> (r: String)
        ensures
            r@ == self.spec_issues_worktree_dir(),
    {
        path_join(self.brd_common_dir.as_str(), "issues")
    }

    /// The issues directory: `<issues worktree>/.braid/issues` in issues-branch mode,
    /// otherwise `.braid/issues` in the current worktree.
    pub fn issues_dir(&self, config: &Config) -> (r: String)
        ensures
            r@ == if config.issues_branch is Some {
                join_path(join_path(self.spec_issues_worktree_dir(), ".braid"@), "issues"@)
            } else {
                join_path(self.spec_braid_dir(), "issues"@)
            },
    {
        if config.issues_branch.is_some() {
            let w = self.issues_worktree_dir();
            let b = path_join(w.as_str(), ".braid");
            path_join(b.as_str(), "issues")
        } else {
            self.local_issues_dir()
        }
    }

    /// The config path: the issues worktree's `.braid/config.toml` in issues-branch mode,
    /// otherwise `.braid/config.toml` in the current worktree.
    pub fn resolved_config_path(&self, local_config: &Config) -> (r: String)
        ensures
            r@ == if local_config.issues_branch is Some {
                join_path(join_path(self.spec_issues_worktree_dir(), ".braid"@), "config.toml"@)
            } else {
                self.spec_config_path()
            },
    {
        if local_config.issues_branch.is_some() {
            let w = self.issues_worktree_dir();
            let b = path_join(w.as_str(), ".braid");
            path_join(b.as_str(), "config.toml")
        } else {
            self.config_path()
        }
    }

    /// Path to `.braid/config.toml`.
    pub fn config_path(&self) -> (r: String)
        ensures
            r@ == self.spec_config_path(),
    {
        let b = self.braid_dir();
        path_join(b.as_str(), "config.toml")
    }

    /// Path to the local lock file (single-machine coordination).
    pub fn lock_path(&self) -> (r: String)
        ensures
            r@ == join_path(self.brd_common_dir@, "lock"@),
    {
        path_join(self.brd_common_dir.as_str(), "lock")
    }

    /// Path to the agent sessions directory.
    pub fn sessions_dir(&self) -> (r: String)
        ensures
            r@ == join_path(self.brd_common_dir@, "sessions"@),
    {
        path_join(self.brd_common_dir.as_str(), "sessions")
    }
}

} // verus!
