//! Agent sessions: their status, their files, their ids, and finding one by a partial id.

use vstd::prelude::*;

use crate::error::BrdError;
use crate::text::{
    chars_of, contains_seq, dec, has_prefix, has_suffix, join_path, join_seqs, join_strings,
    lemma_parse_dec, parse_nat, parse_u32, parse_u32_at, path_join, push_str, push_u64,
    str_contains, str_eq, to_owned_string,
};

verus! {

/// Status of an agent session.
#[derive(Debug, Clone, Copy, PartialEq, Eq, Structural)]
pub enum SessionStatus {
    /// actively processing
    Running,
    /// waiting for user input
    Waiting,
    /// finished successfully
    Completed,
    /// exited with error
    Failed,
    /// terminated by user
    Killed,
    /// process died unexpectedly
    Zombie,
}

impl SessionStatus {
    /// The lowercase name of each status.
    pub open spec fn spec_text(self) -> Seq<char> {
        match self {
            SessionStatus::Running => seq!['r', 'u', 'n', 'n', 'i', 'n', 'g'],
            SessionStatus::Waiting => seq!['w', 'a', 'i', 't', 'i', 'n', 'g'],
            SessionStatus::Completed => seq!['c', 'o', 'm', 'p', 'l', 'e', 't', 'e', 'd'],
            SessionStatus::Failed => seq!['f', 'a', 'i', 'l', 'e', 'd'],
            SessionStatus::Killed => seq!['k', 'i', 'l', 'l', 'e', 'd'],
            SessionStatus::Zombie => seq!['z', 'o', 'm', 'b', 'i', 'e'],
        }
    }

    /// The status as text, as it is displayed and stored.
    pub fn to_text(&self) -> (r: String)
        ensures
            r@ == self.spec_text(),
    {
        let s = match self {
            SessionStatus::Running => "running",
            SessionStatus::Waiting => "waiting",
            SessionStatus::Completed => "completed",
            SessionStatus::Failed => "failed",
            SessionStatus::Killed => "killed",
            SessionStatus::Zombie => "zombie",
        };
        proof {
            reveal_strlit("running");
            reveal_strlit("waiting");
            reveal_strlit("completed");
            reveal_strlit("failed");
            reveal_strlit("killed");
            reveal_strlit("zombie");
        }
        to_owned_string(s)
    }

    /// A session still in progress: running or waiting for input.
    pub open spec fn spec_in_progress(self) -> bool {
        self == SessionStatus::Running || self == SessionStatus::Waiting
    }

    /// The status after checking whether the session's process is alive: a session in
    /// progress whose process is gone is a zombie; any other status stays.
    pub open spec fn spec_refreshed(self, alive: bool) -> SessionStatus {
        if self.spec_in_progress() && !alive {
            SessionStatus::Zombie
        } else {
            self
        }
    }

    /// The status after a check of the session's process, given whether it is alive.
    pub fn refreshed(self, alive: bool) -> (r: SessionStatus)
        ensures
            r == self.spec_refreshed(alive),
    {
        if (self == SessionStatus::Running || self == SessionStatus::Waiting) && !alive {
            SessionStatus::Zombie
        } else {
            self
        }
    }
}

/// Refreshing twice with the same answer changes nothing more than refreshing once; a
/// live process never changes a status.
pub proof fn lemma_refresh_settles(s: SessionStatus, alive: bool)
    ensures
        s.spec_refreshed(alive).spec_refreshed(alive) == s.spec_refreshed(alive),
        s.spec_refreshed(true) == s,
{
}

/// `<dir>/<session_id><ext>`.
pub open spec fn session_file(dir: Seq<char>, session_id: Seq<char>, ext: Seq<char>) -> Seq<char> {
    join_path(dir, session_id + ext)
}

fn session_file_path(sessions_dir: &str, session_id: &str, ext: &str) -> (r: String)
    ensures
        r@ == session_file(sessions_dir@, session_id@, ext@),
{
    let mut name = to_owned_string(session_id);
    push_str(&mut name, ext);
    path_join(sessions_dir, name.as_str())
}

/// Path to a session's state file: `<dir>/<id>.json`.
pub fn state_path(sessions_dir: &str, session_id: &str) -> (r: String)
    ensures
        r@ == session_file(sessions_dir@, session_id@, seq!['.', 'j', 's', 'o', 'n']),
{
    proof {
        reveal_strlit(".json");
    }
    session_file_path(sessions_dir, session_id, ".json")
}

/// Path to a session's log file: `<dir>/<id>.log`.
pub fn log_path(sessions_dir: &str, session_id: &str) -> (r: String)
    ensures
        r@ == session_file(sessions_dir@, session_id@, seq!['.', 'l', 'o', 'g']),
{
    proof {
        reveal_strlit(".log");
    }
    session_file_path(sessions_dir, session_id, ".log")
}

/// Path to a session's stdin pipe: `<dir>/<id>.stdin`.
pub fn stdin_path(sessions_dir: &str, session_id: &str) -> (r: String)
    ensures
        r@ == session_file(sessions_dir@, session_id@, seq!['.', 's', 't', 'd', 'i', 'n']),
{
    proof {
        reveal_strlit(".stdin");
    }
    session_file_path(sessions_dir, session_id, ".stdin")
}

/// `agent-`, the prefix of every session id.
pub open spec fn agent_prefix() -> Seq<char> {
    seq!['a', 'g', 'e', 'n', 't', '-']
}

/// `.json`, the extension of a session's state file.
pub open spec fn json_ext() -> Seq<char> {
    seq!['.', 'j', 's', 'o', 'n']
}

/// The number `N` of a state-file name `agent-N.json`, when `N` reads as a `u32`.
pub open spec fn agent_number(name: Seq<char>) -> Option<u32> {
    if has_prefix(name, agent_prefix()) && has_suffix(
        name.subrange(6, name.len() as int),
        json_ext(),
    ) {
        parse_u32(name.subrange(6, name.len() - 5))
    } else {
        None
    }
}

/// The largest session number among `names`, 0 when there is none.
pub open spec fn max_agent_number(names: Seq<Seq<char>>) -> nat
    decreases names.len(),
{
    if names.len() == 0 {
        0
    } else {
        let m = max_agent_number(names.drop_last());
        match agent_number(names.last()) {
            Some(k) => if k > m {
                k as nat
            } else {
                m
            },
            None => m,
        }
    }
}

/// The id after the largest one in use: `agent-<max + 1>`.
pub open spec fn spec_next_session_id(names: Seq<Seq<char>>) -> Seq<char> {
    agent_prefix() + dec(max_agent_number(names) + 1)
}

/// The views of a list of strings.
pub open spec fn names_view(names: Seq<String>) -> Seq<Seq<char>> {
    names.map_values(|s: String| s@)
}

proof fn lemma_max_bound(names: Seq<Seq<char>>)
    ensures
        max_agent_number(names) <= u32::MAX,
        forall|i: int|
            0 <= i < names.len() && (#[trigger] agent_number(names[i])) is Some ==> agent_number(
                names[i],
            )->0 <= max_agent_number(names),
    decreases names.len(),
{
    if names.len() > 0 {
        lemma_max_bound(names.drop_last());
        assert forall|i: int|
            0 <= i < names.len() - 1 implies #[trigger] names[i] == names.drop_last()[i] by {}
    }
}

/// The number of a state-file name, read from its characters.
fn agent_number_of(name: &str) -> (r: Option<u32>)
    ensures
        r == agent_number(name@),
{
    let v = chars_of(name);
    let n = v.len();
    let pre = chars_of("agent-");
    let ext = chars_of(".json");
    proof {
        reveal_strlit("agent-");
        reveal_strlit(".json");
        assert(pre@ =~= agent_prefix());
        assert(ext@ =~= json_ext());
    }
    if n < 11 {
        proof {
            if has_prefix(v@, agent_prefix()) {
                assert(!has_suffix(v@.subrange(6, n as int), json_ext()));
            }
        }
        return None;
    }
    let mut k: usize = 0;
    while k < 6
        invariant
            k <= 6,
            n >= 11,
            v@ == name@,
            n == v.len(),
            pre@ == agent_prefix(),
            forall|j: int| 0 <= j < k ==> v@[j] == pre@[j],
        decreases 6 - k,
    {
        if v[k] != pre[k] {
            assert(v@.subrange(0, 6)[k as int] != agent_prefix()[k as int]);
            return None;
        }
        k += 1;
    }
    assert(v@.subrange(0, 6) =~= agent_prefix());
    let mut q: usize = 0;
    while q < 5
        invariant
            q <= 5,
            n >= 11,
            v@ == name@,
            n == v.len(),
            ext@ == json_ext(),
            forall|j: int| 0 <= j < q ==> v@[n - 5 + j] == ext@[j],
        decreases 5 - q,
    {
        if v[n - 5 + q] != ext[q] {
            assert(v@.subrange(6, n as int).subrange(n - 11, n - 6)[q as int] != json_ext()[q as int]);
            return None;
        }
        q += 1;
    }
    assert(v@.subrange(6, n as int).subrange(n - 11, n - 6) =~= json_ext());
    parse_u32_at(&v, 6, n - 5)
}

/// The next sequential session id, given the file names found in the sessions
/// directory: one past the largest `N` of a name `agent-N.json`.
pub fn next_session_id(names: &Vec<String>) -> (r: String)
    ensures
        r@ == spec_next_session_id(names_view(names@)),
{
    let ghost nv = names_view(names@);
    let mut max_num: u32 = 0;
    let mut i: usize = 0;
    while i < names.len()
        invariant
            i <= names.len(),
            nv == names_view(names@),
            max_num == max_agent_number(nv.take(i as int)),
        decreases names.len() - i,
    {
        assert(nv.take(i + 1).drop_last() =~= nv.take(i as int));
        match agent_number_of(names[i].as_str()) {
            Some(num) => {
                if num > max_num {
                    max_num = num;
                }
            },
            None => {},
        }
        i += 1;
    }
    assert(nv.take(names.len() as int) =~= nv);
    let mut r = String::new();
    push_str(&mut r, "agent-");
    proof {
        reveal_strlit("agent-");
    }
    push_u64(&mut r, max_num as u64 + 1);
    r
}

/// A new session id names no session whose state file is already there: no name in the
/// directory is `<next id>.json`. This holds while the largest number in use is below
/// `u32::MAX`; past it a number no longer reads as a `u32` and is not counted.
pub proof fn lemma_next_session_id_fresh(names: Seq<Seq<char>>)
    requires
        max_agent_number(names) < u32::MAX,
    ensures
        forall|i: int|
            0 <= i < names.len() ==> #[trigger] names[i] != spec_next_session_id(names) + json_ext(),
{
    lemma_max_bound(names);
    let m = max_agent_number(names) + 1;
    let id = spec_next_session_id(names);
    let f = id + json_ext();
    lemma_parse_dec(m);
    assert(f.subrange(0, 6) =~= agent_prefix());
    assert(f.subrange(6, f.len() as int).subrange(f.len() - 11, f.len() - 6) =~= json_ext());
    assert(f.subrange(6, f.len() - 5) =~= dec(m));
    assert(agent_number(f) == Some(m as u32));
    assert forall|i: int| 0 <= i < names.len() implies #[trigger] names[i] != f by {
        if names[i] == f {
            assert(agent_number(names[i]) == Some(m as u32));
        }
    }
}

/// A session id matches a search when it equals or contains the searched text.
pub open spec fn session_matches(session_id: Seq<char>, id: Seq<char>) -> bool {
    session_id == id || contains_seq(session_id, id)
}

/// The positions of the session ids that match `id`, in order.
pub open spec fn session_matches_in(ids: Seq<Seq<char>>, id: Seq<char>) -> Seq<int>
    decreases ids.len(),
{
    if ids.len() == 0 {
        Seq::<int>::empty()
    } else {
        let prev = session_matches_in(ids.drop_last(), id);
        if session_matches(ids.last(), id) {
            prev.push(ids.len() - 1)
        } else {
            prev
        }
    }
}

/// The message when no session matches: `session not found: <id>`.
pub open spec fn not_found_message(id: Seq<char>) -> Seq<char> {
    seq!['s', 'e', 's', 's', 'i', 'o', 'n', ' ', 'n', 'o', 't', ' ', 'f', 'o', 'u', 'n', 'd', ':', ' ']
        + id
}

/// The message when several sessions match:
/// `ambiguous session ID '<id>', matches: <id1>, <id2>, ...`.
pub open spec fn ambiguous_message(id: Seq<char>, found: Seq<Seq<char>>) -> Seq<char> {
    seq!['a', 'm', 'b', 'i', 'g', 'u', 'o', 'u', 's', ' ', 's', 'e', 's', 's', 'i', 'o', 'n', ' ', 'I', 'D', ' ', '\'']
        + id + seq!['\'', ',', ' ', 'm', 'a', 't', 'c', 'h', 'e', 's', ':', ' '] + join_seqs(
        found,
        seq![',', ' '],
    )
}

/// Finds a session by a full or partial id, among the ids of the loaded sessions: the
/// position of the one that matches, or an error when none or several do.
pub fn find_session(ids: &Vec<String>, id: &str) -> (r: Result<usize, BrdError>)
    ensures
        ({
            let m = session_matches_in(names_view(ids@), id@);
            &&& m.len() == 0 ==> (r matches Err(BrdError::Other(msg)) && msg@ == not_found_message(id@))
            &&& m.len() == 1 ==> (r matches Ok(k) && k == m[0])
            &&& m.len() > 1 ==> (r matches Err(BrdError::Other(msg)) && msg@ == ambiguous_message(
                id@,
                m.map_values(|k: int| names_view(ids@)[k]),
            ))
        }),
{
    let ghost nv = names_view(ids@);
    let mut found: Vec<usize> = Vec::new();
    let mut found_ids: Vec<String> = Vec::new();
    let mut i: usize = 0;
    while i < ids.len()
        invariant
            i <= ids.len(),
            nv == names_view(ids@),
            found@.map_values(|k: usize| k as int) == session_matches_in(nv.take(i as int), id@),
            names_view(found_ids@) == session_matches_in(nv.take(i as int), id@).map_values(
                |k: int| nv[k],
            ),
            forall|j: int| 0 <= j < found.len() ==> found@[j] < i,
        decreases ids.len() - i,
    {
        let ghost pre = nv.take(i as int);
        let ghost m0 = session_matches_in(pre, id@);
        assert(nv.take(i + 1).drop_last() =~= pre);
        assert(nv.take(i + 1).last() == nv[i as int]);
        let s = ids[i].as_str();
        if str_eq(s, id) || str_contains(s, id) {
            let ghost f0 = names_view(found_ids@);
            found.push(i);
            let t = to_owned_string(s);
            assert(t@ == nv[i as int]);
            found_ids.push(t);
            assert(names_view(found_ids@) =~= f0.push(nv[i as int]));
            assert(found@.map_values(|k: usize| k as int) =~= m0.push(i as int));
            assert(names_view(found_ids@) =~= m0.push(i as int).map_values(|k: int| nv[k]));
        } else {
            assert(!session_matches(nv[i as int], id@));
        }
        i += 1;
    }
    assert(nv.take(ids.len() as int) =~= nv);
    let ghost m = session_matches_in(nv, id@);
    assert(found.len() == m.len());
    if found.len() == 0 {
        let mut msg = String::new();
        push_str(&mut msg, "session not found: ");
        push_str(&mut msg, id);
        proof {
            reveal_strlit("session not found: ");
            assert(msg@ == not_found_message(id@));
        }
        Err(BrdError::Other(msg))
    } else if found.len() == 1 {
        assert(found@.map_values(|k: usize| k as int)[0] == m[0]);
        Ok(found[0])
    } else {
        let mut msg = String::new();
        push_str(&mut msg, "ambiguous session ID '");
        push_str(&mut msg, id);
        push_str(&mut msg, "', matches: ");
        let joined = join_strings(found_ids.as_slice(), ", ");
        push_str(&mut msg, joined.as_str());
        proof {
            reveal_strlit("ambiguous session ID '");
            reveal_strlit("', matches: ");
            reveal_strlit(", ");
            assert(found_ids@.map_values(|s: String| s@) == names_view(found_ids@));
            assert("ambiguous session ID '"@ =~= seq!['a', 'm', 'b', 'i', 'g', 'u', 'o', 'u', 's', ' ', 's', 'e', 's', 's', 'i', 'o', 'n', ' ', 'I', 'D', ' ', '\'']);
            assert("', matches: "@ =~= seq!['\'', ',', ' ', 'm', 'a', 't', 'c', 'h', 'e', 's', ':', ' ']);
            assert(", "@ =~= seq![',', ' ']);
            assert(msg@ =~= ambiguous_message(id@, m.map_values(|k: int| nv[k])));
        }
        Err(BrdError::Other(msg))
    }
}

} // verus!
