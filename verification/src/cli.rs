//! Command-line arguments that the library reads, and the parsing of switch values.

use vstd::prelude::*;

use crate::text::{chars_of, lowercase, push_str, str_eq, to_lowercase};

verus! {

/// Actions of `brd config`.
#[derive(Debug, Clone)]
pub enum ConfigAction {
    /// set or clear the issues branch (for shared worktree storage)
    IssuesBranch { name: Option<String>, clear: bool, yes: bool },
    /// set or clear the external issues repository
    ExternalRepo { path: Option<String>, clear: bool, yes: bool },
    /// enable or disable auto-sync (pull on start, push on done)
    AutoSync { enabled: bool },
}

/// Actions of `brd dep`.
#[derive(Debug, Clone)]
pub enum DepAction {
    /// add a dependency (blocked depends on blocker)
    Add { blocked: String, blocker: String },
    /// remove a dependency
    Rm { blocked: String, blocker: String },
}

/// Arguments of `brd init`.
#[derive(Debug, Clone)]
pub struct InitArgs {
    /// create a sync branch for issue tracking
    pub issues_branch: Option<String>,
    /// skip interactive prompts
    pub non_interactive: bool,
}

/// Arguments of `brd add`.
#[derive(Debug, Clone)]
pub struct AddArgs {
    /// issue title
    pub title: String,
    /// priority (P0-P3, default P2)
    pub priority: String,
    /// issue type (design, meta)
    pub issue_type: Option<String>,
    /// blocking issues (repeatable)
    pub dep: Vec<String>,
    /// acceptance criteria (repeatable)
    pub ac: Vec<String>,
    /// tags (repeatable)
    pub tag: Vec<String>,
    /// issue body
    pub body: Option<String>,
}

/// The texts that read as true in an environment switch.
pub open spec fn env_truthy(l: Seq<char>) -> bool {
    l == seq!['1'] || l == seq!['t', 'r', 'u', 'e'] || l == seq!['y', 'e', 's'] || l == seq!['o', 'n']
}

/// The texts that read as false in an environment switch (the empty text among them).
pub open spec fn env_falsy(l: Seq<char>) -> bool {
    l == seq!['0'] || l == seq!['f', 'a', 'l', 's', 'e'] || l == seq!['n', 'o'] || l == seq![
        'o',
        'f',
        'f',
    ] || l.len() == 0
}

/// `invalid boolean value: <s>`.
pub open spec fn invalid_bool_message(s: Seq<char>) -> Seq<char> {
    seq!['i', 'n', 'v', 'a', 'l', 'i', 'd', ' ', 'b', 'o', 'o', 'l', 'e', 'a', 'n', ' ', 'v', 'a', 'l', 'u', 'e', ':', ' ']
        + s
}

/// The texts that turn a setting on.
pub open spec fn switch_on(l: Seq<char>) -> bool {
    l == seq!['o', 'n'] || l == seq!['t', 'r', 'u', 'e'] || l == seq!['1']
}

/// The texts that turn a setting off.
pub open spec fn switch_off(l: Seq<char>) -> bool {
    l == seq!['o', 'f', 'f'] || l == seq!['f', 'a', 'l', 's', 'e'] || l == seq!['0']
}

/// `expected 'on' or 'off', got '<s>'`.
pub open spec fn on_off_message(s: Seq<char>) -> Seq<char> {
    seq!['e', 'x', 'p', 'e', 'c', 't', 'e', 'd', ' ', '\'', 'o', 'n', '\'', ' ', 'o', 'r', ' ', '\'', 'o', 'f', 'f', '\'', ',', ' ', 'g', 'o', 't', ' ', '\'']
        + s + seq!['\'']
}

fn is_any(l: &str, a: &str, b: &str, c: &str, d: &str) -> (r: bool)
    ensures
        r == (l@ == a@ || l@ == b@ || l@ == c@ || l@ == d@),
{
    str_eq(l, a) || str_eq(l, b) || str_eq(l, c) || str_eq(l, d)
}

/// Reads an environment switch from its lowercased text `lower`; `original` is the text
/// as it was given, quoted in the error.
pub fn bool_env_from_lower(lower: &str, original: &str) -> (r: Result<bool, String>)
    ensures
        env_truthy(lower@) ==> r == Ok::<bool, String>(true),
        !env_truthy(lower@) && env_falsy(lower@) ==> r == Ok::<bool, String>(false),
        !env_truthy(lower@) && !env_falsy(lower@) ==> (r matches Err(m) && m@
            == invalid_bool_message(original@)),
{
    proof {
        reveal_strlit("1");
        reveal_strlit("true");
        reveal_strlit("yes");
        reveal_strlit("on");
        reveal_strlit("0");
        reveal_strlit("false");
        reveal_strlit("no");
        reveal_strlit("off");
        reveal_strlit("invalid boolean value: ");
        assert("1"@ =~= seq!['1']);
        assert("true"@ =~= seq!['t','r','u','e']);
        assert("yes"@ =~= seq!['y','e','s']);
        assert("on"@ =~= seq!['o','n']);
        assert("0"@ =~= seq!['0']);
        assert("false"@ =~= seq!['f','a','l','s','e']);
        assert("no"@ =~= seq!['n','o']);
        assert("off"@ =~= seq!['o','f','f']);
        assert("invalid boolean value: "@ =~= invalid_bool_message(Seq::<char>::empty()));
    }
    if is_any(lower, "1", "true", "yes", "on") {
        Ok(true)
    } else if is_any(lower, "0", "false", "no", "off") || chars_of(lower).len() == 0 {
        Ok(false)
    } else {
        let mut m = String::new();
        push_str(&mut m, "invalid boolean value: ");
        push_str(&mut m, original);
        assert(m@ =~= invalid_bool_message(original@));
        Err(m)
    }
}

/// Parses a boolean environment value, case-insensitively: "1", "true", "yes" and "on"
/// are true; "0", "false", "no", "off" and the empty text are false.
pub fn parse_bool_env(s: &str) -> (r: Result<bool, String>)
    ensures
        env_truthy(lowercase(s@)) ==> r == Ok::<bool, String>(true),
        !env_truthy(lowercase(s@)) && env_falsy(lowercase(s@)) ==> r == Ok::<bool, String>(false),
        !env_truthy(lowercase(s@)) && !env_falsy(lowercase(s@)) ==> (r matches Err(m) && m@
            == invalid_bool_message(s@)),
{
    let l = to_lowercase(s);
    bool_env_from_lower(l.as_str(), s)
}

/// Reads an on/off setting from its lowercased text `lower`; `original` is the text as
/// it was given, quoted in the error.
pub fn on_off_from_lower(lower: &str, original: &str) -> (r: Result<bool, String>)
    ensures
        switch_on(lower@) ==> r == Ok::<bool, String>(true),
        !switch_on(lower@) && switch_off(lower@) ==> r == Ok::<bool, String>(false),
        !switch_on(lower@) && !switch_off(lower@) ==> (r matches Err(m) && m@ == on_off_message(
            original@,
        )),
{
    proof {
        reveal_strlit("1");
        reveal_strlit("true");
        reveal_strlit("on");
        reveal_strlit("0");
        reveal_strlit("false");
        reveal_strlit("off");
        reveal_strlit("expected 'on' or 'off', got '");
        reveal_strlit("'");
        assert("1"@ =~= seq!['1']);
        assert("true"@ =~= seq!['t','r','u','e']);
        assert("on"@ =~= seq!['o','n']);
        assert("0"@ =~= seq!['0']);
        assert("false"@ =~= seq!['f','a','l','s','e']);
        assert("off"@ =~= seq!['o','f','f']);
    }
    if is_any(lower, "on", "true", "1", "on") {
        Ok(true)
    } else if is_any(lower, "off", "false", "0", "off") {
        Ok(false)
    } else {
        let mut m = String::new();
        push_str(&mut m, "expected 'on' or 'off', got '");
        push_str(&mut m, original);
        push_str(&mut m, "'");
        assert(m@ =~= on_off_message(original@));
        Err(m)
    }
}

/// Parses "on"/"off" (or "true"/"false", "1"/"0"), case-insensitively, for the
/// auto-sync setting.
pub fn parse_on_off(s: &str) -> (r: Result<bool, String>)
    ensures
        switch_on(lowercase(s@)) ==> r == Ok::<bool, String>(true),
        !switch_on(lowercase(s@)) && switch_off(lowercase(s@)) ==> r == Ok::<bool, String>(false),
        !switch_on(lowercase(s@)) && !switch_off(lowercase(s@)) ==> (r matches Err(m) && m@
            == on_off_message(s@)),
{
    let l = to_lowercase(s);
    on_off_from_lower(l.as_str(), s)
}

} // verus!
