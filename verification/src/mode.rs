//! The workflow modes (`brd mode`): which one a configuration is in, and which switches
//! it allows.

use vstd::prelude::*;

use crate::config::Config;
use crate::error::BrdError;
use crate::text::{push_str, to_owned_string};

verus! {

/// Where issues live.
#[derive(Debug, Clone, Copy, PartialEq, Eq, Structural)]
pub enum Mode {
    /// with the code, synced through git
    GitNative,
    /// on their own branch, in a shared worktree
    LocalSync,
    /// in another repository
    ExternalRepo,
}

/// The mode of a configuration: an external repository wins over an issues branch.
pub open spec fn spec_mode(c: Config) -> Mode {
    if c.issues_repo is Some {
        Mode::ExternalRepo
    } else if c.issues_branch is Some {
        Mode::LocalSync
    } else {
        Mode::GitNative
    }
}

/// The mode a configuration is in.
pub fn current_mode(config: &Config) -> (r: Mode)
    ensures
        r == spec_mode(*config),
{
    if config.issues_repo.is_some() {
        Mode::ExternalRepo
    } else if config.issues_branch.is_some() {
        Mode::LocalSync
    } else {
        Mode::GitNative
    }
}

/// The name of each mode.
pub open spec fn spec_mode_name(m: Mode) -> Seq<char> {
    match m {
        Mode::GitNative => "git-native"@,
        Mode::LocalSync => "local-sync"@,
        Mode::ExternalRepo => "external-repo"@,
    }
}

/// The mode's name.
pub fn mode_name(m: Mode) -> (r: &'static str)
    ensures
        r@ == spec_mode_name(m),
{
    match m {
        Mode::GitNative => "git-native",
        Mode::LocalSync => "local-sync",
        Mode::ExternalRepo => "external-repo",
    }
}

/// Whether switching to local-sync is allowed: not when an issues branch is already set.
pub fn check_local_sync_switch(config: &Config) -> (r: Result<(), BrdError>)
    ensures
        match config.issues_branch {
            Some(b) => r matches Err(BrdError::Other(m)) && m@ == "already in sync mode (branch: "@ + b@
                + "). run `brd mode default` first to switch."@,
            None => r is Ok,
        },
{
    match &config.issues_branch {
        Some(b) => {
            let mut m = String::new();
            push_str(&mut m, "already in sync mode (branch: ");
            push_str(&mut m, b.as_str());
            push_str(&mut m, "). run `brd mode default` first to switch.");
            Err(BrdError::Other(m))
        },
        None => Ok(()),
    }
}

/// Whether switching to an external repository is allowed: not from local-sync, and not
/// when one is already set.
pub fn check_external_switch(config: &Config) -> (r: Result<(), BrdError>)
    ensures
        config.issues_branch is Some ==> (r matches Err(BrdError::Other(m)) && m@
            == "currently in local-sync mode. run `brd mode default` first to switch."@),
        config.issues_branch is None ==> match config.issues_repo {
            Some(p) => r matches Err(BrdError::Other(m)) && m@ == "already in external-repo mode (path: "@
                + p@ + "). run `brd mode default` first to switch."@,
            None => r is Ok,
        },
{
    if config.issues_branch.is_some() {
        return Err(BrdError::Other(to_owned_string(
            "currently in local-sync mode. run `brd mode default` first to switch.",
        )));
    }
    match &config.issues_repo {
        Some(p) => {
            let mut m = String::new();
            push_str(&mut m, "already in external-repo mode (path: ");
            push_str(&mut m, p.as_str());
            push_str(&mut m, "). run `brd mode default` first to switch.");
            Err(BrdError::Other(m))
        },
        None => Ok(()),
    }
}

/// How a switch back to git-native mode starts.
#[derive(Debug, Clone)]
pub enum DefaultSwitch {
    /// leave the external repository at this path
    FromExternal(String),
    /// leave the issues branch of this name
    FromBranch(String),
}

/// Decides `brd mode default`: leaving an external repository first, else leaving an
/// issues branch; already in git-native mode is an error.
pub fn default_switch(config: &Config) -> (r: Result<DefaultSwitch, BrdError>)
    ensures
        config.issues_repo matches Some(p) ==> (r matches Ok(DefaultSwitch::FromExternal(q)) && q@ == p@),
        config.issues_repo is None ==> match config.issues_branch {
            Some(b) => r matches Ok(DefaultSwitch::FromBranch(q)) && q@ == b@,
            None => r matches Err(BrdError::Other(m)) && m@ == "already in git-native mode"@,
        },
{
    match &config.issues_repo {
        Some(p) => Ok(DefaultSwitch::FromExternal(to_owned_string(p.as_str()))),
        None => match &config.issues_branch {
            Some(b) => Ok(DefaultSwitch::FromBranch(to_owned_string(b.as_str()))),
            None => Err(BrdError::Other(to_owned_string("already in git-native mode"))),
        },
    }
}

/// The commit message for leaving an external repository.
pub fn from_external_commit_message(path: &str) -> (r: String)
    ensures
        r@ == "chore(braid): switch to git-native mode (from external "@ + path@ + ")"@,
{
    let mut m = String::new();
    push_str(&mut m, "chore(braid): switch to git-native mode (from external ");
    push_str(&mut m, path);
    push_str(&mut m, ")");
    m
}

} // verus!
