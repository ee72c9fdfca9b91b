//! Error kinds and their stable exit codes for automation.

use vstd::prelude::*;

use crate::text::{has_prefix, push_str};

verus! {

/// `std::io::Error`, carried through unchanged by `BrdError::Io`.
#[verifier::external_type_specification]
#[verifier::external_body]
pub struct ExIoError(std::io::Error);

/// Stable exit codes.
#[derive(Debug, Clone, Copy, PartialEq, Eq, Structural)]
pub enum ExitCode {
    Success,
    GenericFailure,
    UsageError,
    NotGitRepo,
    ControlRootInvalid,
    IssueNotFound,
    AmbiguousId,
    ClaimConflict,
    InvalidGraph,
    ParseError,
    NotInitialized,
}

impl ExitCode {
    /// The numeric process exit status of each code.
    pub open spec fn spec_code(self) -> i32 {
        match self {
            ExitCode::Success => 0,
            ExitCode::GenericFailure => 1,
            ExitCode::UsageError => 2,
            ExitCode::NotGitRepo => 10,
            ExitCode::ControlRootInvalid => 11,
            ExitCode::IssueNotFound => 12,
            ExitCode::AmbiguousId => 13,
            ExitCode::ClaimConflict => 14,
            ExitCode::InvalidGraph => 15,
            ExitCode::ParseError => 16,
            ExitCode::NotInitialized => 17,
        }
    }

    /// The numeric process exit status.
    pub fn code(self) -> (r: i32)
        ensures
            r == self.spec_code(),
    {
        match self {
            ExitCode::Success => 0,
            ExitCode::GenericFailure => 1,
            ExitCode::UsageError => 2,
            ExitCode::NotGitRepo => 10,
            ExitCode::ControlRootInvalid => 11,
            ExitCode::IssueNotFound => 12,
            ExitCode::AmbiguousId => 13,
            ExitCode::ClaimConflict => 14,
            ExitCode::InvalidGraph => 15,
            ExitCode::ParseError => 16,
            ExitCode::NotInitialized => 17,
        }
    }
}

impl From<ExitCode> for i32 {
    fn from(code: ExitCode) -> (r: i32) {
        code.code()
    }
}

impl vstd::std_specs::convert::FromSpecImpl<ExitCode> for i32 {
    open spec fn obeys_from_spec() -> bool {
        true
    }

    open spec fn from_spec(code: ExitCode) -> i32 {
        code.spec_code()
    }
}

/// Errors of braid operations.
#[derive(Debug)]
pub enum BrdError {
    NotGitRepo,
    NotInitialized,
    ControlRootInvalid(String),
    IssueNotFound(String),
    AmbiguousId(String, Vec<String>),
    ClaimConflict(String, String),
    InvalidGraph,
    ParseError(String, String),
    Io(std::io::Error),
    Other(String),
}

impl BrdError {
    /// The exit code each error kind maps to.
    pub open spec fn spec_exit_code(&self) -> ExitCode {
        match self {
            BrdError::NotGitRepo => ExitCode::NotGitRepo,
            BrdError::NotInitialized => ExitCode::NotInitialized,
            BrdError::ControlRootInvalid(_) => ExitCode::ControlRootInvalid,
            BrdError::IssueNotFound(_) => ExitCode::IssueNotFound,
            BrdError::AmbiguousId(_, _) => ExitCode::AmbiguousId,
            BrdError::ClaimConflict(_, _) => ExitCode::ClaimConflict,
            BrdError::InvalidGraph => ExitCode::InvalidGraph,
            BrdError::ParseError(_, _) => ExitCode::ParseError,
            BrdError::Io(_) => ExitCode::GenericFailure,
            BrdError::Other(_) => ExitCode::GenericFailure,
        }
    }

    /// The stable machine-readable code string of each error kind.
    pub open spec fn spec_code_str(&self) -> Seq<char> {
        match self {
            BrdError::NotGitRepo => seq!['n','o','t','_','g','i','t','_','r','e','p','o'],
            BrdError::NotInitialized => seq!['n','o','t','_','i','n','i','t','i','a','l','i','z','e','d'],
            BrdError::ControlRootInvalid(_) => seq!['c','o','n','t','r','o','l','_','r','o','o','t','_','i','n','v','a','l','i','d'],
            BrdError::IssueNotFound(_) => seq!['i','s','s','u','e','_','n','o','t','_','f','o','u','n','d'],
            BrdError::AmbiguousId(_, _) => seq!['a','m','b','i','g','u','o','u','s','_','i','d'],
            BrdError::ClaimConflict(_, _) => seq!['c','l','a','i','m','_','c','o','n','f','l','i','c','t'],
            BrdError::InvalidGraph => seq!['i','n','v','a','l','i','d','_','g','r','a','p','h'],
            BrdError::ParseError(_, _) => seq!['p','a','r','s','e','_','e','r','r','o','r'],
            BrdError::Io(_) => seq!['i','o','_','e','r','r','o','r'],
            BrdError::Other(_) => seq!['e','r','r','o','r'],
        }
    }

    /// The exit code for this error.
    pub fn exit_code(&self) -> (r: ExitCode)
        ensures
            r == self.spec_exit_code(),
    {
        match self {
            BrdError::NotGitRepo => ExitCode::NotGitRepo,
            BrdError::NotInitialized => ExitCode::NotInitialized,
            BrdError::ControlRootInvalid(_) => ExitCode::ControlRootInvalid,
            BrdError::IssueNotFound(_) => ExitCode::IssueNotFound,
            BrdError::AmbiguousId(_, _) => ExitCode::AmbiguousId,
            BrdError::ClaimConflict(_, _) => ExitCode::ClaimConflict,
            BrdError::InvalidGraph => ExitCode::InvalidGraph,
            BrdError::ParseError(_, _) => ExitCode::ParseError,
            BrdError::Io(_) => ExitCode::GenericFailure,
            BrdError::Other(_) => ExitCode::GenericFailure,
        }
    }

    /// The machine-readable code string for this error.
    pub fn code_str(&self) -> (r: &'static str)
        ensures
            r@ == self.spec_code_str(),
    {
        let r = match self {
            BrdError::NotGitRepo => "not_git_repo",
            BrdError::NotInitialized => "not_initialized",
            BrdError::ControlRootInvalid(_) => "control_root_invalid",
            BrdError::IssueNotFound(_) => "issue_not_found",
            BrdError::AmbiguousId(_, _) => "ambiguous_id",
            BrdError::ClaimConflict(_, _) => "claim_conflict",
            BrdError::InvalidGraph => "invalid_graph",
            BrdError::ParseError(_, _) => "parse_error",
            BrdError::Io(_) => "io_error",
            BrdError::Other(_) => "error",
        };
        proof {
            reveal_strlit("not_git_repo");
            reveal_strlit("not_initialized");
            reveal_strlit("control_root_invalid");
            reveal_strlit("issue_not_found");
            reveal_strlit("ambiguous_id");
            reveal_strlit("claim_conflict");
            reveal_strlit("invalid_graph");
            reveal_strlit("parse_error");
            reveal_strlit("io_error");
            reveal_strlit("error");
        }
        r
    }
}

/// What `{:?}` prints for a list of texts (`["a", "b"]`, each text quoted and escaped as
/// `str`'s `Debug` does).
pub uninterp spec fn debug_texts(items: Seq<Seq<char>>) -> Seq<char>;

/// `format!("{:?}", items)`: the debug form of a list of texts, a function of the texts
/// alone.
#[verifier::external_body]
fn debug_list(items: &Vec<String>) -> (r: String)
    ensures
        r@ == debug_texts(items@.map_values(|s: String| s@)),
{
    format!("{:?}", items)
}

/// `std::io::Error`'s display text. Nothing is stated of it: it can come from the
/// operating system's description of an error code.
#[verifier::external_body]
fn io_error_text(e: &std::io::Error) -> (r: String) {
    e.to_string()
}

impl BrdError {
    /// The message of each error kind other than an I/O error (whose message comes from
    /// the I/O error itself).
    pub open spec fn spec_message(&self) -> Seq<char> {
        match self {
            BrdError::NotGitRepo => "not a git repository"@,
            BrdError::NotInitialized => "braid not initialized\n\nrun `brd init` to set up issue tracking"@,
            BrdError::ControlRootInvalid(p) => "control root not found or invalid: "@ + p@,
            BrdError::IssueNotFound(id) => "issue not found: "@ + id@,
            BrdError::AmbiguousId(id, m) => "ambiguous issue id '"@ + id@ + "': matches "@
                + debug_texts(m@.map_values(|s: String| s@)),
            BrdError::ClaimConflict(id, owner) => "claim conflict: issue '"@ + id@
                + "' is claimed by '"@ + owner@ + "'"@,
            BrdError::InvalidGraph => "invalid graph: cycle detected"@,
            BrdError::ParseError(what, msg) => "parse error in "@ + what@ + ": "@ + msg@,
            BrdError::Io(_) => "io error: "@,
            BrdError::Other(m) => m@,
        }
    }

    /// The error's message, as it is shown to the user.
    pub fn to_text(&self) -> (r: String)
        ensures
            !(self is Io) ==> r@ == self.spec_message(),
            self is Io ==> has_prefix(r@, "io error: "@),
    {
        let mut r = String::new();
        match self {
            BrdError::NotGitRepo => push_str(&mut r, "not a git repository"),
            BrdError::NotInitialized => push_str(
                &mut r,
                "braid not initialized\n\nrun `brd init` to set up issue tracking",
            ),
            BrdError::ControlRootInvalid(p) => {
                push_str(&mut r, "control root not found or invalid: ");
                push_str(&mut r, p.as_str());
            },
            BrdError::IssueNotFound(id) => {
                push_str(&mut r, "issue not found: ");
                push_str(&mut r, id.as_str());
            },
            BrdError::AmbiguousId(id, m) => {
                push_str(&mut r, "ambiguous issue id '");
                push_str(&mut r, id.as_str());
                push_str(&mut r, "': matches ");
                let d = debug_list(m);
                push_str(&mut r, d.as_str());
            },
            BrdError::ClaimConflict(id, owner) => {
                push_str(&mut r, "claim conflict: issue '");
                push_str(&mut r, id.as_str());
                push_str(&mut r, "' is claimed by '");
                push_str(&mut r, owner.as_str());
                push_str(&mut r, "'");
            },
            BrdError::InvalidGraph => push_str(&mut r, "invalid graph: cycle detected"),
            BrdError::ParseError(what, msg) => {
                push_str(&mut r, "parse error in ");
                push_str(&mut r, what.as_str());
                push_str(&mut r, ": ");
                push_str(&mut r, msg.as_str());
            },
            BrdError::Io(e) => {
                push_str(&mut r, "io error: ");
                let t = io_error_text(e);
                push_str(&mut r, t.as_str());
            },
            BrdError::Other(m) => push_str(&mut r, m.as_str()),
        }
        proof {
            assert(has_prefix(r@, "io error: "@) || !(self is Io)) by {
                if self is Io {
                    assert(r@.subrange(0, "io error: "@.len() as int) =~= "io error: "@);
                }
            }
        }
        r
    }
}

} // verus!
