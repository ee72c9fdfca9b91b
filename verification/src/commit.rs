//! The message of a commit of issue changes, made from git's list of staged changes.

use vstd::prelude::*;

use crate::text::{
    chars_of, dec, has_prefix, has_suffix, join_seqs, join_strings, lines, lines_of, push_str,
    push_u64, split_words, str_eq, string_of, substring, to_owned_string, words,
};

verus! {

/// The message used when nothing more specific can be said.
pub open spec fn default_message() -> Seq<char> {
    "chore(braid): update issues"@
}

/// `.braid/issues/`, where issue files live.
pub open spec fn issues_prefix() -> Seq<char> {
    ".braid/issues/"@
}

/// The issue id of a path `.braid/issues/<id>.md`.
pub open spec fn issue_of_path(path: Seq<char>) -> Option<Seq<char>> {
    if has_prefix(path, issues_prefix()) && has_suffix(path.subrange(14, path.len() as int), ".md"@) {
        Some(path.subrange(14, path.len() - 3))
    } else {
        None
    }
}

/// What the lines of `git diff --cached --name-status` add up to: how many files were
/// added, modified and deleted, and the ids of the issue files among them, in order.
/// A line counts when it has at least two words (status, path).
pub open spec fn tally(ls: Seq<Seq<char>>) -> (nat, nat, nat, Seq<Seq<char>>)
    decreases ls.len(),
{
    if ls.len() == 0 {
        (0, 0, 0, Seq::<Seq<char>>::empty())
    } else {
        let (a, m, d, ids) = tally(ls.drop_last());
        let w = words(ls.last());
        if w.len() >= 2 {
            let ids2 = match issue_of_path(w[1]) {
                Some(id) => ids.push(id),
                None => ids,
            };
            if w[0] == "A"@ {
                (a + 1, m, d, ids2)
            } else if w[0] == "M"@ {
                (a, m + 1, d, ids2)
            } else if w[0] == "D"@ {
                (a, m, d + 1, ids2)
            } else {
                (a, m, d, ids2)
            }
        } else {
            (a, m, d, ids)
        }
    }
}

/// `add <n>`, `update <n>`, `remove <n>` for the non-zero counts, joined by `, `.
pub open spec fn action_text(a: nat, m: nat, d: nat) -> Seq<char> {
    let parts = (if a > 0 { seq!["add "@ + dec(a)] } else { Seq::<Seq<char>>::empty() })
        + (if m > 0 { seq!["update "@ + dec(m)] } else { Seq::<Seq<char>>::empty() })
        + (if d > 0 { seq!["remove "@ + dec(d)] } else { Seq::<Seq<char>>::empty() });
    join_seqs(parts, ", "@)
}

/// The generated commit message for git's name-status output (`None` when git failed).
pub open spec fn spec_commit_message(out: Option<Seq<char>>) -> Seq<char> {
    match out {
        None => default_message(),
        Some(o) => {
            let ls = lines_of(o);
            let (a, m, d, ids) = tally(ls);
            if ls.len() == 0 || (a == 0 && m == 0 && d == 0) {
                default_message()
            } else if ids.len() == 1 {
                "chore(braid): "@ + action_text(a, m, d) + " issue ("@ + ids[0] + ")"@
            } else if ids.len() <= 3 {
                "chore(braid): "@ + action_text(a, m, d) + " issues ("@ + join_seqs(ids, ", "@) + ")"@
            } else {
                "chore(braid): "@ + action_text(a, m, d) + " issues"@
            }
        },
    }
}

proof fn lemma_tally_bound(ls: Seq<Seq<char>>)
    ensures
        tally(ls).0 <= ls.len(),
        tally(ls).1 <= ls.len(),
        tally(ls).2 <= ls.len(),
    decreases ls.len(),
{
    if ls.len() > 0 {
        lemma_tally_bound(ls.drop_last());
    }
}

fn issue_id_of_path(p: &Vec<char>) -> (r: Option<String>)
    ensures
        match r {
            Some(s) => issue_of_path(p@) == Some(s@),
            None => issue_of_path(p@) is None,
        },
{
    let pre = chars_of(".braid/issues/");
    let suf = chars_of(".md");
    proof {
        reveal_strlit(".braid/issues/");
        reveal_strlit(".md");
    }
    if p.len() < 17 || !crate::text::matches_at(p, &pre, 0) || !crate::text::matches_at(p, &suf, p.len() - 3) {
        proof {
            if has_prefix(p@, issues_prefix()) && has_suffix(p@.subrange(14, p@.len() as int), ".md"@) {
                assert(p@.subrange(14, p@.len() as int).subrange(p@.len() - 17, p@.len() - 14) =~= p@.subrange(p@.len() - 3, p@.len() as int));
                assert(crate::text::occurs_at(p@, pre@, 0));
            }
        }
        return None;
    }
    assert(p@.subrange(14, p@.len() as int).subrange(p@.len() - 17, p@.len() - 14) =~= p@.subrange(p@.len() - 3, p@.len() as int));
    Some(substring(p, 14, p.len() - 3))
}

/// Generates the commit message for staged issue changes from git's name-status output
/// (`None` when the command failed).
pub fn generate_commit_message(name_status: Option<&str>) -> (r: String)
    ensures
        r@ == spec_commit_message(match name_status {
            Some(s) => Some(s@),
            None => None,
        }),
{
    let out = match name_status {
        None => return to_owned_string("chore(braid): update issues"),
        Some(o) => o,
    };
    let c = chars_of(out);
    assert(c@.subrange(0, c.len() as int) =~= out@);
    let ls = lines(&c, 0, c.len());
    let ghost lv = lines_of(out@);
    assert(ls@.map_values(|v: Vec<char>| v@) =~= lv);
    let mut added: usize = 0;
    let mut modified: usize = 0;
    let mut deleted: usize = 0;
    let mut ids: Vec<String> = Vec::new();
    let mut i: usize = 0;
    while i < ls.len()
        invariant
            i <= ls.len(),
            ls.len() == lv.len(),
            forall|j: int| 0 <= j < ls.len() ==> #[trigger] ls@[j]@ == lv[j],
            (added as nat, modified as nat, deleted as nat, ids@.map_values(|s: String| s@)) == tally(lv.take(i as int)),
        decreases ls.len() - i,
    {
        proof {
            lemma_tally_bound(lv.take(i as int));
        }
        assert(lv.take(i + 1).drop_last() =~= lv.take(i as int));
        let line = &ls[i];
        assert(line@.subrange(0, line.len() as int) =~= line@);
        let w = split_words(line, 0, line.len());
        if w.len() >= 2 {
            let ghost ids0 = ids@.map_values(|s: String| s@);
            match issue_id_of_path(&w[1]) {
                Some(id) => {
                    ids.push(id);
                    assert(ids@.map_values(|s: String| s@) =~= ids0.push(issue_of_path(w@[1]@)->0));
                },
                None => {},
            }
            let st = string_of(w[0].as_slice());
            if str_eq(st.as_str(), "A") {
                added += 1;
            } else if str_eq(st.as_str(), "M") {
                modified += 1;
            } else if str_eq(st.as_str(), "D") {
                deleted += 1;
            }
        }
        i += 1;
    }
    assert(lv.take(ls.len() as int) =~= lv);
    if ls.len() == 0 || (added == 0 && modified == 0 && deleted == 0) {
        return to_owned_string("chore(braid): update issues");
    }
    let mut parts: Vec<String> = Vec::new();
    if added > 0 {
        let mut p = to_owned_string("add ");
        push_u64(&mut p, added as u64);
        parts.push(p);
    }
    let ghost p1 = parts@.map_values(|s: String| s@);
    if modified > 0 {
        let mut p = to_owned_string("update ");
        push_u64(&mut p, modified as u64);
        parts.push(p);
    }
    let ghost p2 = parts@.map_values(|s: String| s@);
    if deleted > 0 {
        let mut p = to_owned_string("remove ");
        push_u64(&mut p, deleted as u64);
        parts.push(p);
    }
    let ghost a = added as nat;
    let ghost m = modified as nat;
    let ghost d = deleted as nat;
    assert(parts@.map_values(|s: String| s@) =~= (if a > 0 { seq!["add "@ + dec(a)] } else { Seq::<Seq<char>>::empty() })
        + (if m > 0 { seq!["update "@ + dec(m)] } else { Seq::<Seq<char>>::empty() })
        + (if d > 0 { seq!["remove "@ + dec(d)] } else { Seq::<Seq<char>>::empty() }));
    let action = join_strings(parts.as_slice(), ", ");
    let mut msg = to_owned_string("chore(braid): ");
    push_str(&mut msg, action.as_str());
    if ids.len() == 1 {
        push_str(&mut msg, " issue (");
        push_str(&mut msg, ids[0].as_str());
        push_str(&mut msg, ")");
    } else if ids.len() <= 3 {
        push_str(&mut msg, " issues (");
        let j = join_strings(ids.as_slice(), ", ");
        push_str(&mut msg, j.as_str());
        push_str(&mut msg, ")");
    } else {
        push_str(&mut msg, " issues");
    }
    msg
}

} // verus!
