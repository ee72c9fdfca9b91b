//! Fresh issue ids: the configured prefix, a dash, and random lowercase letters and
//! digits, avoiding the ids already taken.

use vstd::prelude::*;
use crate::config::Config;
use crate::error::BrdError;
use crate::text::{chars_of, push_char, push_str, str_eq, to_owned_string};

verus! {

/// How many random candidates are tried before giving up.
pub const ID_ATTEMPTS: u32 = 20;

/// The characters an id's random part is made of.
pub open spec fn is_id_char(c: char) -> bool {
    ('0' <= c && c <= '9') || ('a' <= c && c <= 'z')
}

/// Whether `id` is the prefix, a dash, and `len` id characters.
pub open spec fn is_generated_id(prefix: Seq<char>, len: nat, id: Seq<char>) -> bool {
    &&& id.len() == prefix.len() + 1 + len
    &&& id.take(prefix.len() as int) == prefix
    &&& id[prefix.len() as int] == '-'
    &&& forall|i: int| prefix.len() + 1 <= i < id.len() ==> is_id_char(#[trigger] id[i])
}

pub open spec fn ids_view(v: Seq<String>) -> Seq<Seq<char>> {
    v.map_values(|s: String| s@)
}

/// A random number below `n` (`rand::rng().random_range(0..n)`).
/// Stated: only that it is below `n`; which number it is depends on chance.
#[verifier::external_body]
fn random_below(n: usize) -> (r: usize)
    requires
        n > 0,
    ensures
        r < n,
{
    rand::Rng::random_range(&mut rand::rng(), 0..n)
}

fn random_id_char() -> (c: char)
    ensures
        is_id_char(c),
{
    let set = chars_of("0123456789abcdefghijklmnopqrstuvwxyz");
    proof {
        reveal_strlit("0123456789abcdefghijklmnopqrstuvwxyz");
        assert(set.len() == 36);
    }
    let i = random_below(set.len());
    set[i]
}

/// A candidate id: the prefix, a dash and `len` random id characters.
fn candidate_id(prefix: &str, len: u32) -> (r: String)
    ensures
        is_generated_id(prefix@, len as nat, r@),
{
    let mut r = to_owned_string(prefix);
    push_char(&mut r, '-');
    let mut k: u32 = 0;
    while k < len
        invariant
            k <= len,
            r@.len() == prefix@.len() + 1 + k,
            r@.take(prefix@.len() as int) == prefix@,
            r@[prefix@.len() as int] == '-',
            forall|i: int| prefix@.len() + 1 <= i < r@.len() ==> is_id_char(#[trigger] r@[i]),
        decreases len - k,
    {
        let c = random_id_char();
        let ghost before = r@;
        push_char(&mut r, c);
        assert(r@.take(prefix@.len() as int) =~= before.take(prefix@.len() as int));
        k += 1;
    }
    r
}

fn is_taken(id: &str, taken: &Vec<String>) -> (r: bool)
    ensures
        r == ids_view(taken@).contains(id@),
{
    let mut i: usize = 0;
    while i < taken.len()
        invariant
            i <= taken.len(),
            forall|j: int| 0 <= j < i ==> taken@[j]@ != id@,
        decreases taken.len() - i,
    {
        if str_eq(taken[i].as_str(), id) {
            assert(ids_view(taken@)[i as int] == id@);
            return true;
        }
        i += 1;
    }
    proof {
        if ids_view(taken@).contains(id@) {
            let j = choose|j: int| 0 <= j < ids_view(taken@).len() && ids_view(taken@)[j] == id@;
            assert(taken@[j]@ == id@);
        }
    }
    false
}

/// The message when no candidate id is free.
pub open spec fn no_free_id_message() -> Seq<char> {
    "failed to generate unique ID after 20 attempts"@
}

/// The first of `cands` that is not among `taken`.
pub open spec fn spec_first_free(cands: Seq<Seq<char>>, taken: Seq<Seq<char>>) -> Option<Seq<char>>
    decreases cands.len(),
{
    if cands.len() == 0 {
        None
    } else if !taken.contains(cands[0]) {
        Some(cands[0])
    } else {
        spec_first_free(cands.drop_first(), taken)
    }
}

/// A free candidate is one of the candidates and is not taken.
pub proof fn lemma_first_free_is_free(cands: Seq<Seq<char>>, taken: Seq<Seq<char>>)
    ensures
        spec_first_free(cands, taken) matches Some(id) ==> cands.contains(id) && !taken.contains(id),
    decreases cands.len(),
{
    if cands.len() > 0 && taken.contains(cands[0]) {
        lemma_first_free_is_free(cands.drop_first(), taken);
        if spec_first_free(cands, taken) is Some {
            let id = spec_first_free(cands, taken)->0;
            let j = choose|j: int| 0 <= j < cands.drop_first().len() && cands.drop_first()[j] == id;
            assert(cands[j + 1] == id);
        }
    }
}

/// Picks the first candidate id that is not taken; when every candidate is taken, the
/// error that no unique id was found.
pub fn first_free(candidates: &Vec<String>, taken: &Vec<String>) -> (r: Result<String, BrdError>)
    ensures
        match spec_first_free(ids_view(candidates@), ids_view(taken@)) {
            Some(id) => r matches Ok(s) && s@ == id,
            None => r matches Err(BrdError::Other(m)) && m@ == no_free_id_message(),
        },
{
    let ghost cv = ids_view(candidates@);
    let ghost tv = ids_view(taken@);
    assert(cv.skip(0) =~= cv);
    let mut i: usize = 0;
    while i < candidates.len()
        invariant
            i <= candidates.len(),
            cv == ids_view(candidates@),
            tv == ids_view(taken@),
            spec_first_free(cv, tv) == spec_first_free(cv.skip(i as int), tv),
        decreases candidates.len() - i,
    {
        assert(cv.skip(i as int).drop_first() =~= cv.skip(i + 1));
        assert(cv.skip(i as int)[0] == candidates@[i as int]@);
        if !is_taken(candidates[i].as_str(), taken) {
            return Ok(to_owned_string(candidates[i].as_str()));
        }
        i += 1;
    }
    assert(cv.skip(candidates.len() as int) =~= Seq::<Seq<char>>::empty());
    let mut m = String::new();
    push_str(&mut m, "failed to generate unique ID after 20 attempts");
    Err(BrdError::Other(m))
}

/// No taken id has the shape of a generated id, so no draw can collide.
pub open spec fn no_generated_taken(config: Config, taken: Seq<Seq<char>>) -> bool {
    forall|t: Seq<char>| taken.contains(t) ==> !is_generated_id(config.id_prefix@, config.id_len as nat, t)
}

/// Generates an id that is not among `taken` (the ids whose issue files exist): draws
/// [`ID_ATTEMPTS`] random candidates and keeps the first free one. Chance decides whether
/// one is free; an id returned is always of the configured shape and not taken, and when
/// no taken id has that shape, one is always found.
pub fn generate_issue_id(config: &Config, taken: &Vec<String>) -> (r: Result<String, BrdError>)
    ensures
        match r {
            Ok(id) => is_generated_id(config.id_prefix@, config.id_len as nat, id@) && !ids_view(
                taken@,
            ).contains(id@),
            Err(e) => e matches BrdError::Other(m) && m@ == no_free_id_message(),
        },
        no_generated_taken(*config, ids_view(taken@)) ==> r is Ok,
{
    let mut cands: Vec<String> = Vec::new();
    let mut attempt: u32 = 0;
    while attempt < ID_ATTEMPTS
        invariant
            attempt <= ID_ATTEMPTS,
            cands.len() == attempt,
            forall|j: int| 0 <= j < cands.len() ==> is_generated_id(
                config.id_prefix@,
                config.id_len as nat,
                #[trigger] cands@[j]@,
            ),
        decreases ID_ATTEMPTS - attempt,
    {
        let id = candidate_id(config.id_prefix.as_str(), config.id_len);
        cands.push(id);
        attempt += 1;
    }
    let r = first_free(&cands, taken);
    proof {
        let cv = ids_view(cands@);
        let tv = ids_view(taken@);
        lemma_first_free_is_free(cv, tv);
        if spec_first_free(cv, tv) is Some {
            let id = spec_first_free(cv, tv)->0;
            let j = choose|j: int| 0 <= j < cv.len() && cv[j] == id;
            assert(cands@[j]@ == id);
        }
        if no_generated_taken(*config, tv) {
            assert(is_generated_id(config.id_prefix@, config.id_len as nat, cands@[0]@));
            assert(cv[0] == cands@[0]@);
            assert(!tv.contains(cv[0]));
        }
    }
    r
}

} // verus!
