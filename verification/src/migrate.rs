//! Issue schema versions and the migrations between them.

use vstd::prelude::*;
use crate::error::BrdError;
use crate::frontmatter::parse_error;
use crate::text::str_eq;

verus! {

/// The current schema version. All new issues are created with this version.
pub const CURRENT_SCHEMA: u32 = 9;

/// Whether a schema version needs migration.
pub fn needs_migration(schema_version: u32) -> (r: bool)
    ensures
        r == (schema_version < CURRENT_SCHEMA),
{
    schema_version < CURRENT_SCHEMA
}

/// How many of the schema versions `vs` are behind the current one.
pub open spec fn spec_stale_count(vs: Seq<u32>) -> nat
    decreases vs.len(),
{
    if vs.len() == 0 {
        0
    } else {
        spec_stale_count(vs.drop_last()) + if vs.last() < CURRENT_SCHEMA {
            1nat
        } else {
            0nat
        }
    }
}

/// Counts the issue files (given their schema versions) that need migration.
pub fn stale_count(versions: &Vec<u32>) -> (r: usize)
    ensures
        r == spec_stale_count(versions@),
{
    let mut n: usize = 0;
    let mut i: usize = 0;
    while i < versions.len()
        invariant
            i <= versions.len(),
            n == spec_stale_count(versions@.take(i as int)),
            n <= i,
        decreases versions.len() - i,
    {
        assert(versions@.take(i + 1).drop_last() =~= versions@.take(i as int));
        if needs_migration(versions[i]) {
            n += 1;
        }
        i += 1;
    }
    assert(versions@.take(versions.len() as int) =~= versions@);
    n
}

/// The description of the migration step from `version` to the next, for the versions
/// that have one.
pub open spec fn step_summary(version: u32) -> Option<Seq<char>> {
    match version {
        0 => Some("v0→v1: add schema version field"@),
        1 => Some("v1→v2: rename 'brd' to 'schema_version'"@),
        2 => Some("v2→v3: add required 'owner' field"@),
        3 => Some("v3→v4: rename 'labels' to 'tags'"@),
        4 => Some("v4→v5: external-repo config support"@),
        5 => Some("v5→v6: auto_pull/auto_push config support"@),
        6 => Some("v6→v7: rename status 'todo' to 'open'"@),
        7 => Some("v7→v8: replace updated_at with started_at/completed_at"@),
        8 => Some("v8→v9: add scheduled_for field"@),
        _ => None,
    }
}

/// The descriptions of the steps from `from` up to `to`, in order.
pub open spec fn spec_summaries(from: u32, to: u32) -> Seq<Seq<char>>
    decreases to,
{
    if to <= from {
        Seq::<Seq<char>>::empty()
    } else {
        let prev = spec_summaries(from, (to - 1) as u32);
        match step_summary((to - 1) as u32) {
            Some(t) => prev.push(t),
            None => prev,
        }
    }
}

proof fn lemma_summaries_stop(from: u32, to: u32, mid: u32)
    requires
        9 <= mid <= to,
    ensures
        spec_summaries(from, to) == spec_summaries(from, mid),
    decreases to,
{
    if to > mid {
        lemma_summaries_stop(from, (to - 1) as u32, mid);
    }
}

fn step_text(version: u32) -> (r: &'static str)
    requires
        version < 9,
    ensures
        step_summary(version) == Some(r@),
{
    match version {
        0 => "v0→v1: add schema version field",
        1 => "v1→v2: rename 'brd' to 'schema_version'",
        2 => "v2→v3: add required 'owner' field",
        3 => "v3→v4: rename 'labels' to 'tags'",
        4 => "v4→v5: external-repo config support",
        5 => "v5→v6: auto_pull/auto_push config support",
        6 => "v6→v7: rename status 'todo' to 'open'",
        7 => "v7→v8: replace updated_at with started_at/completed_at",
        8 => "v8→v9: add scheduled_for field",
        _ => "v8→v9: add scheduled_for field",
    }
}

/// Describes the migration steps from `from_version` to `to_version`, one line per step.
pub fn migration_summary(from_version: u32, to_version: u32) -> (r: Vec<String>)
    ensures
        r@.map_values(|s: String| s@) == spec_summaries(from_version, to_version),
{
    let mut r: Vec<String> = Vec::new();
    let mut v = from_version;
    while v < to_version && v < 9
        invariant
            from_version <= v,
            v <= to_version || v == from_version,
            r@.map_values(|s: String| s@) == spec_summaries(from_version, v),
        decreases 9 - v,
    {
        let t = step_text(v);
        let ghost r0 = r@.map_values(|s: String| s@);
        r.push(crate::text::to_owned_string(t));
        assert(r@.map_values(|s: String| s@) =~= r0.push(t@));
        v += 1;
    }
    proof {
        if v < to_version {
            lemma_summaries_stop(from_version, to_version, v);
        }
        if from_version >= to_version {
            assert(spec_summaries(from_version, to_version) =~= Seq::<Seq<char>>::empty());
        }
    }
    r
}


/// A YAML value as the issue migrations see it. Values that the migrations never look
/// into (booleans, negative or fractional numbers, sequences, mappings) stand here as
/// `Other`, with a handle by which the caller finds the original value again.
pub enum YamlValue {
    Null,
    PosInt(u64),
    Str(String),
    Tagged(String, Box<YamlValue>),
    Other(u64),
}

/// The mathematical form of a [`YamlValue`].
pub enum YamlV {
    Null,
    PosInt(u64),
    Str(Seq<char>),
    Tagged(Seq<char>, Box<YamlV>),
    Other(u64),
}

pub open spec fn yaml_view(v: YamlValue) -> YamlV
    decreases v,
{
    match v {
        YamlValue::Null => YamlV::Null,
        YamlValue::PosInt(n) => YamlV::PosInt(n),
        YamlValue::Str(s) => YamlV::Str(s@),
        YamlValue::Tagged(t, b) => YamlV::Tagged(t@, Box::new(yaml_view(*b))),
        YamlValue::Other(h) => YamlV::Other(h),
    }
}

impl View for YamlValue {
    type V = YamlV;

    open spec fn view(&self) -> YamlV {
        yaml_view(*self)
    }
}

/// One key/value pair of a YAML mapping, in the mapping's order.
pub struct YamlEntry {
    pub key: YamlValue,
    pub value: YamlValue,
}

/// The frontmatter document: a mapping, a mapping under one or more tags (the handle
/// stands for the tags), or any other value.
pub enum YamlDoc {
    Mapping(Vec<YamlEntry>),
    TaggedMapping(u64, Vec<YamlEntry>),
    Other(u64),
}

pub enum DocV {
    Mapping(Seq<(YamlV, YamlV)>),
    TaggedMapping(u64, Seq<(YamlV, YamlV)>),
    Other(u64),
}

pub open spec fn entries_view(v: Seq<YamlEntry>) -> Seq<(YamlV, YamlV)> {
    v.map_values(|e: YamlEntry| (e.key@, e.value@))
}

impl View for YamlDoc {
    type V = DocV;

    open spec fn view(&self) -> DocV {
        match self {
            YamlDoc::Mapping(v) => DocV::Mapping(entries_view(v@)),
            YamlDoc::TaggedMapping(h, v) => DocV::TaggedMapping(*h, entries_view(v@)),
            YamlDoc::Other(h) => DocV::Other(*h),
        }
    }
}

/// Whether an entry's key is the plain string `k`.
pub open spec fn key_is(e: (YamlV, YamlV), k: Seq<char>) -> bool {
    e.0 == YamlV::Str(k)
}

/// The first position at or after `i` whose key is `k`, or -1.
pub open spec fn pos_from(s: Seq<(YamlV, YamlV)>, k: Seq<char>, i: int) -> int
    decreases s.len() - i,
{
    if i >= s.len() {
        -1
    } else if key_is(s[i], k) {
        i
    } else {
        pos_from(s, k, i + 1)
    }
}

pub open spec fn key_pos(s: Seq<(YamlV, YamlV)>, k: Seq<char>) -> int {
    pos_from(s, k, 0)
}

/// What a mapping holds under the string key `k`.
pub open spec fn map_get(s: Seq<(YamlV, YamlV)>, k: Seq<char>) -> Option<YamlV> {
    let p = key_pos(s, k);
    if p >= 0 {
        Some(s[p].1)
    } else {
        None
    }
}

/// Sets the value under `k`, in place if the key is there, else as a new last entry.
pub open spec fn map_insert(s: Seq<(YamlV, YamlV)>, k: Seq<char>, v: YamlV) -> Seq<(YamlV, YamlV)> {
    let p = key_pos(s, k);
    if p >= 0 {
        s.update(p, (s[p].0, v))
    } else {
        s.push((YamlV::Str(k), v))
    }
}

/// Removes the entry under `k`, moving the last entry into its place.
pub open spec fn map_remove(s: Seq<(YamlV, YamlV)>, k: Seq<char>) -> Seq<(YamlV, YamlV)> {
    let p = key_pos(s, k);
    if p >= 0 {
        s.update(p, s.last()).drop_last()
    } else {
        s
    }
}

/// The integer a value holds, looking through tags.
pub open spec fn untagged_u64(v: YamlV) -> Option<u64>
    decreases v,
{
    match v {
        YamlV::PosInt(n) => Some(n),
        YamlV::Tagged(_, b) => untagged_u64(*b),
        _ => None,
    }
}

/// The string a value holds, looking through tags.
pub open spec fn untagged_str(v: YamlV) -> Option<Seq<char>>
    decreases v,
{
    match v {
        YamlV::Str(s) => Some(s),
        YamlV::Tagged(_, b) => untagged_str(*b),
        _ => None,
    }
}

proof fn lemma_pos_from_range(s: Seq<(YamlV, YamlV)>, k: Seq<char>, i: int)
    requires
        0 <= i,
    ensures
        pos_from(s, k, i) == -1 || (i <= pos_from(s, k, i) < s.len() && key_is(s[pos_from(s, k, i)], k)),
    decreases s.len() - i,
{
    if i < s.len() && !key_is(s[i], k) {
        lemma_pos_from_range(s, k, i + 1);
    }
}

proof fn lemma_key_pos_range(s: Seq<(YamlV, YamlV)>, k: Seq<char>)
    ensures
        key_pos(s, k) == -1 || (0 <= key_pos(s, k) < s.len() && key_is(s[key_pos(s, k)], k)),
{
    lemma_pos_from_range(s, k, 0);
}

fn find_key(entries: &Vec<YamlEntry>, k: &str) -> (r: Option<usize>)
    ensures
        match r {
            Some(i) => key_pos(entries_view(entries@), k@) == i as int && i < entries.len(),
            None => key_pos(entries_view(entries@), k@) == -1,
        },
{
    let ghost s = entries_view(entries@);
    let mut i: usize = 0;
    while i < entries.len()
        invariant
            0 <= i <= entries.len(),
            s == entries_view(entries@),
            key_pos(s, k@) == pos_from(s, k@, i as int),
        decreases entries.len() - i,
    {
        let hit = match &entries[i].key {
            YamlValue::Str(t) => str_eq(t.as_str(), k),
            _ => false,
        };
        assert(s[i as int] == (entries@[i as int].key@, entries@[i as int].value@));
        if hit {
            return Some(i);
        }
        i += 1;
    }
    None
}

/// A copy of a value.
pub fn copy_value(v: &YamlValue) -> (r: YamlValue)
    ensures
        r@ == v@,
    decreases v,
{
    match v {
        YamlValue::Null => YamlValue::Null,
        YamlValue::PosInt(n) => YamlValue::PosInt(*n),
        YamlValue::Str(s) => YamlValue::Str(s.clone()),
        YamlValue::Tagged(t, b) => YamlValue::Tagged(t.clone(), Box::new(copy_value(&**b))),
        YamlValue::Other(h) => YamlValue::Other(*h),
    }
}

fn str_value(s: &str) -> (r: YamlValue)
    ensures
        r@ == YamlV::Str(s@),
{
    YamlValue::Str(s.to_string())
}

fn map_insert_exec(entries: &mut Vec<YamlEntry>, k: &str, v: YamlValue)
    ensures
        entries_view(final(entries)@) == map_insert(entries_view(old(entries)@), k@, v@),
{
    let ghost s = entries_view(entries@);
    match find_key(entries, k) {
        Some(i) => {
            let old_e = entries.remove(i);
            let ghost vv = v@;
            entries.insert(i, YamlEntry { key: old_e.key, value: v });
            assert(entries_view(entries@) =~= s.update(i as int, (s[i as int].0, vv)));
        },
        None => {
            let ghost vv = v@;
            let key = str_value(k);
            entries.push(YamlEntry { key, value: v });
            assert(entries_view(entries@) =~= s.push((YamlV::Str(k@), vv)));
        },
    }
}

fn map_take_exec(entries: &mut Vec<YamlEntry>, k: &str) -> (r: Option<YamlValue>)
    ensures
        entries_view(final(entries)@) == map_remove(entries_view(old(entries)@), k@),
        match r {
            Some(x) => map_get(entries_view(old(entries)@), k@) == Some(x@),
            None => map_get(entries_view(old(entries)@), k@) is None,
        },
{
    let ghost s = entries_view(entries@);
    match find_key(entries, k) {
        Some(i) => {
            let e = entries.swap_remove(i);
            assert(entries_view(entries@) =~= s.update(i as int, s.last()).drop_last());
            Some(e.value)
        },
        None => None,
    }
}

fn map_has(entries: &Vec<YamlEntry>, k: &str) -> (r: bool)
    ensures
        r == (key_pos(entries_view(entries@), k@) >= 0),
{
    match find_key(entries, k) {
        Some(_) => true,
        None => false,
    }
}

fn map_get_exec<'a>(entries: &'a Vec<YamlEntry>, k: &str) -> (r: Option<&'a YamlValue>)
    ensures
        match r {
            Some(x) => map_get(entries_view(entries@), k@) == Some(x@),
            None => map_get(entries_view(entries@), k@) is None,
        },
{
    match find_key(entries, k) {
        Some(i) => {
            assert(entries_view(entries@)[i as int] == (entries@[i as int].key@, entries@[i as int].value@));
            Some(&entries[i].value)
        },
        None => None,
    }
}

fn untag_u64(v: &YamlValue) -> (r: Option<u64>)
    ensures
        r == untagged_u64(v@),
    decreases v,
{
    match v {
        YamlValue::PosInt(n) => Some(*n),
        YamlValue::Tagged(_, b) => untag_u64(&**b),
        _ => None,
    }
}

fn untag_str<'a>(v: &'a YamlValue) -> (r: Option<&'a str>)
    ensures
        match r {
            Some(s) => untagged_str(v@) == Some(s@),
            None => untagged_str(v@) is None,
        },
    decreases v,
{
    match v {
        YamlValue::Str(s) => Some(s.as_str()),
        YamlValue::Tagged(_, b) => untag_str(&**b),
        _ => None,
    }
}


/// The text of the status a mapping holds, or the empty text.
pub open spec fn status_text(s: Seq<(YamlV, YamlV)>) -> Seq<char> {
    match map_get(s, "status"@) {
        Some(x) => match untagged_str(x) {
            Some(t) => t,
            None => Seq::<char>::empty(),
        },
        None => Seq::<char>::empty(),
    }
}

/// The v7 to v8 change of timestamps: `updated_at` goes; a started issue gets it as
/// `started_at`, a finished or skipped one as both `started_at` and `completed_at`.
pub open spec fn timestamps_step(s: Seq<(YamlV, YamlV)>) -> Seq<(YamlV, YamlV)> {
    let ts = map_get(s, "updated_at"@);
    let s1 = map_remove(s, "updated_at"@);
    let st = status_text(s1);
    match ts {
        Some(t) => if st == "doing"@ {
            map_insert(s1, "started_at"@, t)
        } else if st == "done"@ || st == "skip"@ {
            map_insert(map_insert(s1, "started_at"@, t), "completed_at"@, t)
        } else {
            s1
        },
        None => s1,
    }
}

/// The migration step of a mapping's entries from schema `v` to `v + 1`; no change
/// from version 9 on.
pub open spec fn step(s: Seq<(YamlV, YamlV)>, v: int) -> Seq<(YamlV, YamlV)> {
    let sv = "schema_version"@;
    if v == 0 {
        if key_pos(s, "brd"@) >= 0 {
            s
        } else {
            map_insert(s, "brd"@, YamlV::PosInt(1))
        }
    } else if v == 1 {
        map_insert(map_remove(s, "brd"@), sv, YamlV::PosInt(2))
    } else if v == 2 {
        let s1 = if key_pos(s, "owner"@) >= 0 {
            s
        } else {
            map_insert(s, "owner"@, YamlV::Null)
        };
        map_insert(s1, sv, YamlV::PosInt(3))
    } else if v == 3 {
        let s1 = match map_get(s, "labels"@) {
            Some(l) => map_insert(map_remove(s, "labels"@), "tags"@, l),
            None => s,
        };
        map_insert(s1, sv, YamlV::PosInt(4))
    } else if v == 4 {
        map_insert(s, sv, YamlV::PosInt(5))
    } else if v == 5 {
        map_insert(s, sv, YamlV::PosInt(6))
    } else if v == 6 {
        let s1 = if map_get(s, "status"@) == Some(YamlV::Str("todo"@)) {
            map_insert(s, "status"@, YamlV::Str("open"@))
        } else {
            s
        };
        map_insert(s1, sv, YamlV::PosInt(7))
    } else if v == 7 {
        map_insert(timestamps_step(s), sv, YamlV::PosInt(8))
    } else if v == 8 {
        map_insert(s, sv, YamlV::PosInt(9))
    } else {
        s
    }
}

/// The steps from `from` up to `to`, in order.
pub open spec fn run_steps(s: Seq<(YamlV, YamlV)>, from: int, to: int) -> Seq<(YamlV, YamlV)>
    decreases to - from,
{
    if from >= to {
        s
    } else {
        run_steps(step(s, from), from + 1, to)
    }
}

/// The schema version a mapping declares: `schema_version`, else `brd`, else 0; the
/// error names the field whose value is not a non-negative integer.
pub open spec fn entries_version(s: Seq<(YamlV, YamlV)>) -> Result<u32, (Seq<char>, Seq<char>)> {
    match map_get(s, "schema_version"@) {
        Some(v) => match untagged_u64(v) {
            Some(n) => Ok(n as u32),
            None => Err(("schema_version"@, "expected integer"@)),
        },
        None => match map_get(s, "brd"@) {
            Some(v) => match untagged_u64(v) {
                Some(n) => Ok(n as u32),
                None => Err(("brd"@, "expected integer"@)),
            },
            None => Ok(0),
        },
    }
}

pub open spec fn spec_schema_version(d: DocV) -> Result<u32, (Seq<char>, Seq<char>)> {
    match d {
        DocV::Mapping(s) => entries_version(s),
        DocV::TaggedMapping(_, s) => entries_version(s),
        DocV::Other(_) => Ok(0),
    }
}

/// What migrating a document to `target` gives: the document unchanged when it is at
/// the target already; else, for a plain mapping, the steps from its version up, and
/// `true`. Tagged mappings and other values pass through the steps unchanged.
pub open spec fn spec_migrate(d: DocV, target: u32) -> Result<(DocV, bool), (Seq<char>, Seq<char>)> {
    match spec_schema_version(d) {
        Err(e) => Err(e),
        Ok(c) => if c >= target {
            Ok((d, false))
        } else {
            match d {
                DocV::Mapping(s) => Ok((DocV::Mapping(run_steps(s, c as int, target as int)), true)),
                _ => Ok((d, true)),
            }
        },
    }
}

/// The result of a version read or a migration as views.
pub open spec fn version_view(r: Result<u32, BrdError>) -> Option<Result<u32, (Seq<char>, Seq<char>)>> {
    match r {
        Ok(n) => Some(Ok(n)),
        Err(BrdError::ParseError(w, m)) => Some(Err((w@, m@))),
        Err(_) => None,
    }
}

pub open spec fn migrate_view(r: Result<(YamlDoc, bool), BrdError>) -> Option<Result<(DocV, bool), (Seq<char>, Seq<char>)>> {
    match r {
        Ok((d, b)) => Some(Ok((d@, b))),
        Err(BrdError::ParseError(w, m)) => Some(Err((w@, m@))),
        Err(_) => None,
    }
}

fn entries_version_exec(entries: &Vec<YamlEntry>) -> (r: Result<u32, BrdError>)
    ensures
        version_view(r) == Some(entries_version(entries_view(entries@))),
{
    match map_get_exec(entries, "schema_version") {
        Some(v) => match untag_u64(v) {
            Some(n) => Ok(n as u32),
            None => Err(parse_error("schema_version", "expected integer")),
        },
        None => match map_get_exec(entries, "brd") {
            Some(v) => match untag_u64(v) {
                Some(n) => Ok(n as u32),
                None => Err(parse_error("brd", "expected integer")),
            },
            None => Ok(0),
        },
    }
}

/// Reads the schema version of an issue's frontmatter.
pub fn get_schema_version(frontmatter: &YamlDoc) -> (r: Result<u32, BrdError>)
    ensures
        version_view(r) == Some(spec_schema_version(frontmatter@)),
{
    match frontmatter {
        YamlDoc::Mapping(e) => entries_version_exec(e),
        YamlDoc::TaggedMapping(_, e) => entries_version_exec(e),
        YamlDoc::Other(_) => Ok(0),
    }
}

fn set_version(entries: &mut Vec<YamlEntry>, n: u64)
    ensures
        entries_view(final(entries)@) == map_insert(entries_view(old(entries)@), "schema_version"@, YamlV::PosInt(n)),
{
    map_insert_exec(entries, "schema_version", YamlValue::PosInt(n));
}

fn timestamps_step_exec(entries: &mut Vec<YamlEntry>)
    ensures
        entries_view(final(entries)@) == timestamps_step(entries_view(old(entries)@)),
{
    let ts = map_take_exec(entries, "updated_at");
    let (doing, finished) = match map_get_exec(entries, "status") {
        Some(v) => match untag_str(v) {
            Some(t) => (str_eq(t, "doing"), str_eq(t, "done") || str_eq(t, "skip")),
            None => (false, false),
        },
        None => (false, false),
    };
    proof {
        reveal_strlit("doing");
        reveal_strlit("done");
        reveal_strlit("skip");
        assert("doing"@.len() == 5 && "done"@.len() == 4 && "skip"@.len() == 4);
    }
    match ts {
        Some(t) => {
            if doing {
                map_insert_exec(entries, "started_at", t);
            } else if finished {
                let t2 = copy_value(&t);
                map_insert_exec(entries, "started_at", t2);
                map_insert_exec(entries, "completed_at", t);
            }
        },
        None => {},
    }
}

/// Applies the migration step from schema `v` to `v + 1` to a mapping's entries.
fn apply_migration(entries: &mut Vec<YamlEntry>, v: u32)
    ensures
        entries_view(final(entries)@) == step(entries_view(old(entries)@), v as int),
{
    if v == 0 {
        if !map_has(entries, "brd") {
            map_insert_exec(entries, "brd", YamlValue::PosInt(1));
        }
    } else if v == 1 {
        let _ = map_take_exec(entries, "brd");
        set_version(entries, 2);
    } else if v == 2 {
        if !map_has(entries, "owner") {
            map_insert_exec(entries, "owner", YamlValue::Null);
        }
        set_version(entries, 3);
    } else if v == 3 {
        match map_take_exec(entries, "labels") {
            Some(l) => map_insert_exec(entries, "tags", l),
            None => {},
        }
        set_version(entries, 4);
    } else if v == 4 {
        set_version(entries, 5);
    } else if v == 5 {
        set_version(entries, 6);
    } else if v == 6 {
        let is_todo = match map_get_exec(entries, "status") {
            Some(YamlValue::Str(t)) => str_eq(t.as_str(), "todo"),
            _ => false,
        };
        proof {
            reveal_strlit("todo");
        }
        if is_todo {
            map_insert_exec(entries, "status", str_value("open"));
        }
        set_version(entries, 7);
    } else if v == 7 {
        timestamps_step_exec(entries);
        set_version(entries, 8);
    } else if v == 8 {
        set_version(entries, 9);
    }
}

proof fn lemma_steps_stop(s: Seq<(YamlV, YamlV)>, from: int, to: int)
    requires
        9 <= from,
    ensures
        run_steps(s, from, to) == s,
    decreases to - from,
{
    if from < to {
        lemma_steps_stop(s, from + 1, to);
    }
}

fn run_migrations(entries: &mut Vec<YamlEntry>, from: u32, to: u32)
    requires
        from < to,
    ensures
        entries_view(final(entries)@) == run_steps(entries_view(old(entries)@), from as int, to as int),
{
    let ghost s0 = entries_view(entries@);
    let mut v = from;
    while v < to && v < 9
        invariant
            from <= v <= to,
            run_steps(s0, from as int, to as int) == run_steps(entries_view(entries@), v as int, to as int),
        decreases 9 - v,
    {
        apply_migration(entries, v);
        v += 1;
    }
    proof {
        if v < to {
            lemma_steps_stop(entries_view(entries@), v as int, to as int);
        }
    }
}

/// Migrates an issue's frontmatter to schema `target_version`, step by step; returns
/// the document and whether it was below the target.
pub fn migrate_frontmatter(frontmatter: YamlDoc, target_version: u32) -> (r: Result<(YamlDoc, bool), BrdError>)
    ensures
        migrate_view(r) == Some(spec_migrate(frontmatter@, target_version)),
{
    let current = match get_schema_version(&frontmatter) {
        Ok(c) => c,
        Err(e) => return Err(e),
    };
    if current >= target_version {
        return Ok((frontmatter, false));
    }
    match frontmatter {
        YamlDoc::Mapping(mut e) => {
            run_migrations(&mut e, current, target_version);
            Ok((YamlDoc::Mapping(e), true))
        },
        other => Ok((other, true)),
    }
}


proof fn lemma_pos_same_keys(s: Seq<(YamlV, YamlV)>, t: Seq<(YamlV, YamlV)>, k: Seq<char>, i: int)
    requires
        0 <= i,
        s.len() == t.len(),
        forall|j: int| 0 <= j < s.len() ==> s[j].0 == t[j].0,
    ensures
        pos_from(s, k, i) == pos_from(t, k, i),
    decreases s.len() - i,
{
    if i < s.len() {
        assert(s[i].0 == t[i].0);
        lemma_pos_same_keys(s, t, k, i + 1);
    }
}

proof fn lemma_pos_pushed(s: Seq<(YamlV, YamlV)>, k: Seq<char>, v: YamlV, i: int)
    requires
        0 <= i <= s.len(),
        pos_from(s, k, i) == -1,
    ensures
        pos_from(s.push((YamlV::Str(k), v)), k, i) == s.len(),
    decreases s.len() - i,
{
    let t = s.push((YamlV::Str(k), v));
    if i < s.len() {
        assert(t[i] == s[i]);
        lemma_pos_pushed(s, k, v, i + 1);
    } else {
        assert(t[i] == (YamlV::Str(k), v));
    }
}

/// Reading a key back after setting it gives the value set.
pub proof fn lemma_get_after_insert(s: Seq<(YamlV, YamlV)>, k: Seq<char>, v: YamlV)
    ensures
        map_get(map_insert(s, k, v), k) == Some(v),
{
    let p = key_pos(s, k);
    lemma_key_pos_range(s, k);
    if p >= 0 {
        let t = s.update(p, (s[p].0, v));
        assert forall|j: int| 0 <= j < s.len() implies s[j].0 == t[j].0 by {}
        lemma_pos_same_keys(s, t, k, 0);
    } else {
        lemma_pos_pushed(s, k, v, 0);
    }
}

proof fn lemma_run_steps_last(s: Seq<(YamlV, YamlV)>, from: int, to: int)
    requires
        from < to,
    ensures
        run_steps(s, from, to) == step(run_steps(s, from, to - 1), to - 1),
    decreases to - from,
{
    let s1 = step(s, from);
    assert(run_steps(s, from, to) == run_steps(s1, from + 1, to));
    if from + 1 < to {
        lemma_run_steps_last(s1, from + 1, to);
        assert(run_steps(s, from, to - 1) == run_steps(s1, from + 1, to - 1));
    } else {
        assert(run_steps(s1, from + 1, to) == s1);
        assert(run_steps(s, from, to - 1) == s);
    }
}

/// Migrating a plain mapping from a version below `target` declares `target` as its
/// schema version afterwards, for every target from 2 up to the current schema.
pub proof fn lemma_migrate_reaches_target(d: DocV, target: u32)
    requires
        d is Mapping,
        2 <= target <= CURRENT_SCHEMA,
        spec_schema_version(d) matches Ok(c) && c < target,
    ensures
        spec_migrate(d, target) matches Ok((m, changed)) && changed && m is Mapping
            && spec_schema_version(m) == Ok::<u32, (Seq<char>, Seq<char>)>(target),
{
    let s = d->Mapping_0;
    let c = spec_schema_version(d)->Ok_0;
    lemma_run_steps_last(s, c as int, target as int);
    let prev = run_steps(s, c as int, target as int - 1);
    let sv = "schema_version"@;
    let x = if target == 2 {
        map_remove(prev, "brd"@)
    } else if target == 3 {
        if key_pos(prev, "owner"@) >= 0 { prev } else { map_insert(prev, "owner"@, YamlV::Null) }
    } else if target == 4 {
        match map_get(prev, "labels"@) {
            Some(l) => map_insert(map_remove(prev, "labels"@), "tags"@, l),
            None => prev,
        }
    } else if target == 7 {
        if map_get(prev, "status"@) == Some(YamlV::Str("todo"@)) {
            map_insert(prev, "status"@, YamlV::Str("open"@))
        } else {
            prev
        }
    } else if target == 8 {
        timestamps_step(prev)
    } else {
        prev
    };
    assert(step(prev, target as int - 1) == map_insert(x, sv, YamlV::PosInt(target as u64)));
    lemma_get_after_insert(x, sv, YamlV::PosInt(target as u64));
}

/// A migrated mapping is at its target: migrating it again to the same target changes
/// nothing and reports no change.
pub proof fn lemma_migrate_idempotent(d: DocV, target: u32)
    requires
        d is Mapping,
        2 <= target <= CURRENT_SCHEMA,
        spec_schema_version(d) matches Ok(c) && c < target,
    ensures
        spec_migrate(d, target) matches Ok((m, _)) && spec_migrate(m, target) == Ok::<(DocV, bool), (Seq<char>, Seq<char>)>((m, false)),
{
    lemma_migrate_reaches_target(d, target);
}

/// No two entries of a mapping share a key, as in every YAML mapping.
pub open spec fn keys_unique(s: Seq<(YamlV, YamlV)>) -> bool {
    forall|i: int, j: int| 0 <= i < s.len() && 0 <= j < s.len() && i != j ==> s[i].0 != s[j].0
}

proof fn lemma_pos_at(s: Seq<(YamlV, YamlV)>, k: Seq<char>, q: int, i: int)
    requires
        0 <= i <= q < s.len(),
        key_is(s[q], k),
        forall|j: int| i <= j < q ==> !key_is(s[j], k),
    ensures
        pos_from(s, k, i) == q,
    decreases q - i,
{
    if i < q {
        lemma_pos_at(s, k, q, i + 1);
    }
}

proof fn lemma_pos_absent(s: Seq<(YamlV, YamlV)>, k: Seq<char>, i: int)
    requires
        0 <= i,
        forall|j: int| i <= j < s.len() ==> !key_is(s[j], k),
    ensures
        pos_from(s, k, i) == -1,
    decreases s.len() - i,
{
    if i < s.len() {
        lemma_pos_absent(s, k, i + 1);
    }
}

proof fn lemma_get_unique(s: Seq<(YamlV, YamlV)>, k: Seq<char>, q: int)
    requires
        keys_unique(s),
        0 <= q < s.len(),
        key_is(s[q], k),
    ensures
        map_get(s, k) == Some(s[q].1),
{
    assert forall|j: int| 0 <= j < q implies !key_is(s[j], k) by {
        assert(s[j].0 != s[q].0);
    }
    lemma_pos_at(s, k, q, 0);
}

proof fn lemma_get_absent(s: Seq<(YamlV, YamlV)>, k: Seq<char>)
    requires
        forall|j: int| 0 <= j < s.len() ==> !key_is(s[j], k),
    ensures
        map_get(s, k) is None,
{
    lemma_pos_absent(s, k, 0);
}

proof fn lemma_pos_pushed_other(s: Seq<(YamlV, YamlV)>, k: Seq<char>, k2: Seq<char>, v: YamlV, i: int)
    requires
        0 <= i <= s.len(),
        k != k2,
    ensures
        pos_from(s.push((YamlV::Str(k), v)), k2, i) == pos_from(s, k2, i),
    decreases s.len() - i,
{
    let t = s.push((YamlV::Str(k), v));
    if i < s.len() {
        assert(t[i] == s[i]);
        lemma_pos_pushed_other(s, k, k2, v, i + 1);
    } else {
        assert(t[i] == (YamlV::Str(k), v));
        assert(!key_is(t[i], k2));
        assert(pos_from(t, k2, i + 1) == -1);
    }
}

/// Setting one key leaves what every other key reads.
pub proof fn lemma_get_after_insert_other(s: Seq<(YamlV, YamlV)>, k: Seq<char>, k2: Seq<char>, v: YamlV)
    requires
        k != k2,
    ensures
        map_get(map_insert(s, k, v), k2) == map_get(s, k2),
{
    let p = key_pos(s, k);
    lemma_key_pos_range(s, k);
    lemma_key_pos_range(s, k2);
    if p >= 0 {
        let t = s.update(p, (s[p].0, v));
        assert forall|j: int| 0 <= j < s.len() implies s[j].0 == t[j].0 by {}
        lemma_pos_same_keys(s, t, k2, 0);
    } else {
        lemma_pos_pushed_other(s, k, k2, v, 0);
    }
}

/// In a mapping without repeated keys, removing a key leaves no repeated key, leaves
/// nothing under the removed key, and leaves what every other key reads.
pub proof fn lemma_remove_unique(s: Seq<(YamlV, YamlV)>, k: Seq<char>, k2: Seq<char>)
    requires
        keys_unique(s),
        k != k2,
    ensures
        keys_unique(map_remove(s, k)),
        map_get(map_remove(s, k), k) is None,
        map_get(map_remove(s, k), k2) == map_get(s, k2),
{
    let p = key_pos(s, k);
    lemma_key_pos_range(s, k);
    if p >= 0 {
        let n = s.len() as int;
        let r = map_remove(s, k);
        assert(r == s.update(p, s.last()).drop_last());
        assert forall|j: int| 0 <= j < r.len() implies r[j] == s[if j == p { n - 1 } else { j }] by {}
        assert forall|i: int, j: int| 0 <= i < r.len() && 0 <= j < r.len() && i != j implies r[i].0 != r[j].0 by {
            assert(r[i] == s[if i == p { n - 1 } else { i }]);
            assert(r[j] == s[if j == p { n - 1 } else { j }]);
        }
        assert forall|j: int| 0 <= j < r.len() implies !key_is(r[j], k) by {
            let sj = if j == p { n - 1 } else { j };
            assert(r[j] == s[sj]);
            if key_is(s[sj], k) {
                assert(s[sj].0 == s[p].0);
            }
        }
        lemma_get_absent(r, k);
        if exists|q: int| 0 <= q < n && key_is(s[q], k2) {
            let q = choose|q: int| 0 <= q < n && key_is(s[q], k2);
            lemma_get_unique(s, k2, q);
            assert(q != p);
            let rq = if q == n - 1 { p } else { q };
            assert(r[rq] == s[q]);
            lemma_get_unique(r, k2, rq);
        } else {
            assert forall|j: int| 0 <= j < r.len() implies !key_is(r[j], k2) by {
                assert(r[j] == s[if j == p { n - 1 } else { j }]);
            }
            lemma_get_absent(r, k2);
            lemma_get_absent(s, k2);
        }
    }
}

/// Migrating a schema 7 issue to schema 8 or later replaces `updated_at` by the
/// timestamps its status calls for: an issue in progress gets it as `started_at`, a
/// done or skipped one as both `started_at` and `completed_at`, any other keeps the
/// timestamps it had and loses `updated_at` alone.
pub proof fn lemma_v7_timestamps(s: Seq<(YamlV, YamlV)>, st: Seq<char>, t: YamlV, target: u32)
    requires
        keys_unique(s),
        map_get(s, "schema_version"@) == Some(YamlV::PosInt(7)),
        map_get(s, "status"@) == Some(YamlV::Str(st)),
        map_get(s, "updated_at"@) == Some(t),
        8 <= target <= CURRENT_SCHEMA,
    ensures
        spec_migrate(DocV::Mapping(s), target) matches Ok((DocV::Mapping(m), changed)) && changed
            && map_get(m, "updated_at"@) is None
            && (st == "doing"@ ==> map_get(m, "started_at"@) == Some(t)
                && map_get(m, "completed_at"@) == map_get(s, "completed_at"@))
            && (st == "done"@ || st == "skip"@ ==> map_get(m, "started_at"@) == Some(t)
                && map_get(m, "completed_at"@) == Some(t))
            && (st != "doing"@ && st != "done"@ && st != "skip"@ ==> map_get(m, "started_at"@)
                == map_get(s, "started_at"@) && map_get(m, "completed_at"@) == map_get(s, "completed_at"@)),
{
    let sv = "schema_version"@;
    let up = "updated_at"@;
    let sa = "started_at"@;
    let ca = "completed_at"@;
    let stk = "status"@;
    reveal_strlit("schema_version");
    reveal_strlit("updated_at");
    reveal_strlit("started_at");
    reveal_strlit("completed_at");
    reveal_strlit("status");
    reveal_strlit("doing");
    reveal_strlit("done");
    reveal_strlit("skip");
    assert(up != stk && up != ca && up != sv && sa != ca && sa != sv && ca != sv) by {
        assert(up.len() == 10 && stk.len() == 6 && ca.len() == 12 && sv.len() == 14 && sa.len() == 10);
    }
    assert(up != sa) by {
        assert(up[0] != sa[0]);
    }
    assert("doing"@ != "done"@ && "doing"@ != "skip"@) by {
        assert("doing"@.len() == 5 && "done"@.len() == 4 && "skip"@.len() == 4);
    }
    lemma_remove_unique(s, up, stk);
    lemma_remove_unique(s, up, sa);
    lemma_remove_unique(s, up, ca);
    let s1 = map_remove(s, up);
    assert(status_text(s1) == st);
    let x = timestamps_step(s);
    if st == "doing"@ {
        assert(x == map_insert(s1, sa, t));
        lemma_get_after_insert(s1, sa, t);
        lemma_get_after_insert_other(s1, sa, ca, t);
        lemma_get_after_insert_other(s1, sa, up, t);
    } else if st == "done"@ || st == "skip"@ {
        let y = map_insert(s1, sa, t);
        assert(x == map_insert(y, ca, t));
        lemma_get_after_insert(s1, sa, t);
        lemma_get_after_insert(y, ca, t);
        lemma_get_after_insert_other(y, ca, sa, t);
        lemma_get_after_insert_other(s1, sa, up, t);
        lemma_get_after_insert_other(y, ca, up, t);
    } else {
        assert(x == s1);
    }
    let m8 = map_insert(x, sv, YamlV::PosInt(8));
    assert(step(s, 7) == m8);
    assert(run_steps(s, 7, 8) == run_steps(m8, 8, 8));
    lemma_get_after_insert_other(x, sv, up, YamlV::PosInt(8));
    lemma_get_after_insert_other(x, sv, sa, YamlV::PosInt(8));
    lemma_get_after_insert_other(x, sv, ca, YamlV::PosInt(8));
    if target == 9 {
        let m9 = map_insert(m8, sv, YamlV::PosInt(9));
        assert(step(m8, 8) == m9);
        assert(run_steps(s, 7, 9) == run_steps(m8, 8, 9));
        assert(run_steps(m8, 8, 9) == run_steps(m9, 9, 9));
        lemma_get_after_insert_other(m8, sv, up, YamlV::PosInt(9));
        lemma_get_after_insert_other(m8, sv, sa, YamlV::PosInt(9));
        lemma_get_after_insert_other(m8, sv, ca, YamlV::PosInt(9));
    }
}

/// Migrating a mapping at schema `v` one version up gives the mapping after step `v`.
proof fn lemma_migrate_one(s: Seq<(YamlV, YamlV)>, v: u32)
    requires
        map_get(s, "schema_version"@) == Some(YamlV::PosInt(v as u64)),
        v < u32::MAX,
    ensures
        spec_migrate(DocV::Mapping(s), (v + 1) as u32) == Ok::<(DocV, bool), (Seq<char>, Seq<char>)>(
            (DocV::Mapping(step(s, v as int)), true),
        ),
{
    assert(entries_version(s) == Ok::<u32, (Seq<char>, Seq<char>)>(v));
    assert(run_steps(s, v as int, v as int + 1) == run_steps(step(s, v as int), v as int + 1, v as int + 1));
}

/// Migrating a schema 2 issue to schema 3 gives it an `owner`, empty when it had none,
/// and keeps the owner it had.
pub proof fn lemma_v2_owner(s: Seq<(YamlV, YamlV)>)
    requires
        map_get(s, "schema_version"@) == Some(YamlV::PosInt(2)),
    ensures
        spec_migrate(DocV::Mapping(s), 3) matches Ok((DocV::Mapping(m), changed)) && changed
            && map_get(m, "owner"@) == (match map_get(s, "owner"@) {
                Some(o) => Some(o),
                None => Some(YamlV::Null),
            }),
{
    let sv = "schema_version"@;
    let ow = "owner"@;
    reveal_strlit("schema_version");
    reveal_strlit("owner");
    assert(sv != ow) by {
        assert(sv.len() != ow.len());
    }
    lemma_migrate_one(s, 2);
    lemma_key_pos_range(s, ow);
    let s1 = if key_pos(s, ow) >= 0 { s } else { map_insert(s, ow, YamlV::Null) };
    if key_pos(s, ow) < 0 {
        lemma_get_after_insert(s, ow, YamlV::Null);
    }
    lemma_get_after_insert_other(s1, sv, ow, YamlV::PosInt(3));
}

/// Migrating a schema 3 issue to schema 4 renames `labels` to `tags`: the tags are the
/// labels it had, and no `labels` are left; without labels its tags stay as they were.
pub proof fn lemma_v3_labels_become_tags(s: Seq<(YamlV, YamlV)>)
    requires
        keys_unique(s),
        map_get(s, "schema_version"@) == Some(YamlV::PosInt(3)),
    ensures
        spec_migrate(DocV::Mapping(s), 4) matches Ok((DocV::Mapping(m), changed)) && changed
            && map_get(m, "labels"@) is None
            && map_get(m, "tags"@) == (match map_get(s, "labels"@) {
                Some(l) => Some(l),
                None => map_get(s, "tags"@),
            }),
{
    let sv = "schema_version"@;
    let lb = "labels"@;
    let tg = "tags"@;
    reveal_strlit("schema_version");
    reveal_strlit("labels");
    reveal_strlit("tags");
    assert(sv != lb && sv != tg && lb != tg) by {
        assert(sv.len() == 14 && lb.len() == 6 && tg.len() == 4);
    }
    lemma_migrate_one(s, 3);
    match map_get(s, lb) {
        Some(l) => {
            let s0 = map_remove(s, lb);
            lemma_remove_unique(s, lb, tg);
            lemma_get_after_insert(s0, tg, l);
            lemma_get_after_insert_other(s0, tg, lb, l);
            let s1 = map_insert(s0, tg, l);
            lemma_get_after_insert_other(s1, sv, tg, YamlV::PosInt(4));
            lemma_get_after_insert_other(s1, sv, lb, YamlV::PosInt(4));
        },
        None => {
            lemma_get_after_insert_other(s, sv, tg, YamlV::PosInt(4));
            lemma_get_after_insert_other(s, sv, lb, YamlV::PosInt(4));
        },
    }
}

/// Migrating a schema 6 issue to schema 7 renames the status `todo` to `open` and keeps
/// every other status.
pub proof fn lemma_v6_todo_becomes_open(s: Seq<(YamlV, YamlV)>)
    requires
        map_get(s, "schema_version"@) == Some(YamlV::PosInt(6)),
    ensures
        spec_migrate(DocV::Mapping(s), 7) matches Ok((DocV::Mapping(m), changed)) && changed
            && map_get(m, "status"@) == (if map_get(s, "status"@) == Some(YamlV::Str("todo"@)) {
                Some(YamlV::Str("open"@))
            } else {
                map_get(s, "status"@)
            }),
{
    let sv = "schema_version"@;
    let stk = "status"@;
    reveal_strlit("schema_version");
    reveal_strlit("status");
    assert(sv != stk) by {
        assert(sv.len() != stk.len());
    }
    lemma_migrate_one(s, 6);
    let s1 = if map_get(s, stk) == Some(YamlV::Str("todo"@)) {
        map_insert(s, stk, YamlV::Str("open"@))
    } else {
        s
    };
    lemma_get_after_insert(s, stk, YamlV::Str("open"@));
    lemma_get_after_insert_other(s1, sv, stk, YamlV::PosInt(7));
}

} // verus!
