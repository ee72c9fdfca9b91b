//! Parsing of git's diff output: per-file statistics and unified diff hunks.

use vstd::prelude::*;

use crate::error::BrdError;
use crate::text::{
    contains_seq, join_char_pieces, join_seqs, parse_usize, parse_usize_at, split_chars, split_on, split_str, split_str_chars, str_contains, lemma_split_on_nonempty,
    push_str, rfind_chars, rfind_seq, find_seq,
    chars_of, find_chars, find_from, has_prefix, lemma_find_from, lines, lines_of, matches_at,
    occurs_at, parse_u32, parse_u32_at, split_words, string_of, substring, words, trim, trim_bounds,
};

verus! {

/// Summary of diff statistics.
#[derive(Debug, Clone, Default, PartialEq, Eq)]
pub struct DiffStat {
    /// number of files changed
    pub files_changed: usize,
    /// total lines inserted
    pub insertions: usize,
    /// total lines deleted
    pub deletions: usize,
}

/// File change status in a diff.
#[derive(Debug, Clone, Copy, PartialEq, Eq, Structural)]
pub enum FileStatus {
    Added,
    Modified,
    Deleted,
    Renamed,
    Copied,
    Unknown,
}

impl FileStatus {
    /// The status named by a git status letter.
    pub open spec fn spec_from_char(c: char) -> FileStatus {
        if c == 'A' {
            FileStatus::Added
        } else if c == 'M' {
            FileStatus::Modified
        } else if c == 'D' {
            FileStatus::Deleted
        } else if c == 'R' {
            FileStatus::Renamed
        } else if c == 'C' {
            FileStatus::Copied
        } else {
            FileStatus::Unknown
        }
    }

    /// The status named by a git status letter (`A`, `M`, `D`, `R`, `C`; anything else is
    /// unknown).
    pub fn from_char(c: char) -> (r: FileStatus)
        ensures
            r == FileStatus::spec_from_char(c),
    {
        match c {
            'A' => FileStatus::Added,
            'M' => FileStatus::Modified,
            'D' => FileStatus::Deleted,
            'R' => FileStatus::Renamed,
            'C' => FileStatus::Copied,
            _ => FileStatus::Unknown,
        }
    }
}

/// Per-file diff statistics.
#[derive(Debug, Clone, PartialEq, Eq)]
pub struct FileDiff {
    /// file path (new path for renames)
    pub path: String,
    /// old path (for renames/copies)
    pub old_path: Option<String>,
    /// change status
    pub status: FileStatus,
    /// lines inserted
    pub insertions: usize,
    /// lines deleted
    pub deletions: usize,
}

/// A single line in a diff hunk.
#[derive(Debug, Clone, PartialEq, Eq)]
pub enum DiffLine {
    /// context line (unchanged)
    Context(String),
    /// added line
    Add(String),
    /// removed line
    Remove(String),
}

/// A hunk in a unified diff.
#[derive(Debug, Clone, PartialEq, Eq)]
pub struct DiffHunk {
    /// starting line in old file
    pub old_start: u32,
    /// number of lines from old file
    pub old_count: u32,
    /// starting line in new file
    pub new_start: u32,
    /// number of lines in new file
    pub new_count: u32,
    /// the actual diff lines
    pub lines: Vec<DiffLine>,
}

/// Parsed diff content for a file.
#[derive(Debug, Clone, PartialEq, Eq)]
pub struct ParsedDiff {
    /// file path
    pub path: String,
    /// hunks in the diff
    pub hunks: Vec<DiffHunk>,
}

/// `x.unwrap_or(d)` for parsed numbers.
pub open spec fn or_default(x: Option<u32>, d: u32) -> u32 {
    match x {
        Some(v) => v,
        None => d,
    }
}

/// A range `start[,count]`: each part defaults to 1 when it does not parse; a missing
/// count is 1.
pub open spec fn spec_parse_range(s: Seq<char>) -> (u32, u32) {
    match find_from(s, seq![','], 0) {
        Some(i) => (
            or_default(parse_u32(s.subrange(0, i)), 1),
            or_default(parse_u32(s.subrange(i + 1, s.len() as int)), 1),
        ),
        None => (or_default(parse_u32(s), 1), 1),
    }
}

fn unwrap_or_one(x: Option<u32>) -> (r: u32)
    ensures
        r == or_default(x, 1),
{
    match x {
        Some(v) => v,
        None => 1,
    }
}

/// Parses a range `s[lo..hi]` like "1,5" or "1" into (start, count).
fn parse_range_at(s: &Vec<char>, lo: usize, hi: usize) -> (r: (u32, u32))
    requires
        lo <= hi <= s.len(),
    ensures
        r == spec_parse_range(s@.subrange(lo as int, hi as int)),
{
    let ghost t = s@.subrange(lo as int, hi as int);
    let mut i = lo;
    while i < hi && s[i] != ','
        invariant
            lo <= i <= hi <= s.len(),
            forall|q: int| lo <= q < i ==> s@[q] != ',',
        decreases hi - i,
    {
        i += 1;
    }
    proof {
        lemma_find_from(t, seq![','], 0);
        assert forall|q: int| 0 <= q < i - lo implies !occurs_at(t, seq![','], q) by {
            assert(t.subrange(q, q + 1)[0] == t[q]);
        }
        if i < hi {
            assert(t.subrange(i - lo, i - lo + 1) =~= seq![',']);
            assert(occurs_at(t, seq![','], i - lo));
        } else {
            assert forall|q: int| 0 <= q implies !occurs_at(t, seq![','], q) by {
                if q < t.len() {
                    assert(t.subrange(q, q + 1)[0] == t[q]);
                }
            }
        }
    }
    if i < hi {
        assert(t.subrange(0, i - lo) =~= s@.subrange(lo as int, i as int));
        assert(t.subrange(i - lo + 1, t.len() as int) =~= s@.subrange(i + 1, hi as int));
        (unwrap_or_one(parse_u32_at(s, lo, i)), unwrap_or_one(parse_u32_at(s, i + 1, hi)))
    } else {
        (unwrap_or_one(parse_u32_at(s, lo, hi)), 1)
    }
}

/// Parses a range like "1,5" or "1" into (start, count).
pub fn parse_range(s: &str) -> (r: (u32, u32))
    ensures
        r == spec_parse_range(s@),
{
    let v = chars_of(s);
    assert(v@.subrange(0, v.len() as int) =~= v@);
    parse_range_at(&v, 0, v.len())
}


/// A diff line, as text.
pub enum LineView {
    Context(Seq<char>),
    Add(Seq<char>),
    Remove(Seq<char>),
}

/// A hunk, as text.
pub struct HunkView {
    pub old_start: u32,
    pub old_count: u32,
    pub new_start: u32,
    pub new_count: u32,
    pub lines: Seq<LineView>,
}

/// A parsed file diff, as text.
pub struct ParsedView {
    pub path: Seq<char>,
    pub hunks: Seq<HunkView>,
}

impl View for DiffLine {
    type V = LineView;

    open spec fn view(&self) -> LineView {
        match self {
            DiffLine::Context(s) => LineView::Context(s@),
            DiffLine::Add(s) => LineView::Add(s@),
            DiffLine::Remove(s) => LineView::Remove(s@),
        }
    }
}

impl View for DiffHunk {
    type V = HunkView;

    open spec fn view(&self) -> HunkView {
        HunkView {
            old_start: self.old_start,
            old_count: self.old_count,
            new_start: self.new_start,
            new_count: self.new_count,
            lines: self.lines@.map_values(|l: DiffLine| l@),
        }
    }
}

impl View for ParsedDiff {
    type V = ParsedView;

    open spec fn view(&self) -> ParsedView {
        ParsedView { path: self.path@, hunks: self.hunks@.map_values(|h: DiffHunk| h@) }
    }
}

/// The header line of a hunk, `@@ -old_start[,old_count] +new_start[,new_count] @@ ...`,
/// parsed into an empty hunk.
pub open spec fn spec_parse_hunk_header(line: Seq<char>) -> Option<HunkView> {
    if !has_prefix(line, "@@ "@) {
        None
    } else {
        let rest = line.subrange(3, line.len() as int);
        match find_seq(rest, " @@"@) {
            None => None,
            Some(end) => {
                let w = words(rest.subrange(0, end));
                if w.len() < 2 || w[0][0] != '-' || w[1][0] != '+' {
                    None
                } else {
                    let o = spec_parse_range(w[0].subrange(1, w[0].len() as int));
                    let n = spec_parse_range(w[1].subrange(1, w[1].len() as int));
                    Some(
                        HunkView {
                            old_start: o.0,
                            old_count: o.1,
                            new_start: n.0,
                            new_count: n.1,
                            lines: Seq::<LineView>::empty(),
                        },
                    )
                }
            },
        }
    }
}

/// Parses a hunk header line like "@@ -1,5 +1,6 @@ optional context".
fn parse_hunk_header_chars(line: &Vec<char>) -> (r: Option<DiffHunk>)
    ensures
        match spec_parse_hunk_header(line@) {
            Some(h) => r matches Some(x) && x@ == h,
            None => r is None,
        },
{
    let pre = chars_of("@@ ");
    proof {
        reveal_strlit("@@ ");
    }
    if !matches_at(line, &pre, 0) {
        assert(!has_prefix(line@, "@@ "@)) by {
            if has_prefix(line@, "@@ "@) {
                assert(occurs_at(line@, pre@, 0));
            }
        }
        return None;
    }
    assert(has_prefix(line@, "@@ "@));
    let rest = {
        let mut v: Vec<char> = Vec::new();
        let mut i: usize = 3;
        while i < line.len()
            invariant
                3 <= i <= line.len(),
                v@ == line@.subrange(3, i as int),
            decreases line.len() - i,
        {
            v.push(line[i]);
            i += 1;
            assert(v@ =~= line@.subrange(3, i as int));
        }
        v
    };
    let close = chars_of(" @@");
    proof {
        lemma_find_from(rest@, close@, 0);
    }
    let end = match find_chars(&rest, &close, 0) {
        Some(e) => e,
        None => {
            return None;
        },
    };
    let w = split_words(&rest, 0, end);
    if w.len() < 2 {
        return None;
    }
    proof {
        let t = rest@.subrange(0, end as int);
        lemma_word_nonempty(t, 0);
        lemma_word_nonempty(t, 1);
    }
    if w[0][0] != '-' || w[1][0] != '+' {
        return None;
    }
    let (old_start, old_count) = parse_range_at(&w[0], 1, w[0].len());
    let (new_start, new_count) = parse_range_at(&w[1], 1, w[1].len());
    let h = DiffHunk { old_start, old_count, new_start, new_count, lines: Vec::new() };
    assert(h@.lines =~= Seq::<LineView>::empty());
    Some(h)
}

/// Every word is non-empty.
proof fn lemma_word_nonempty(s: Seq<char>, k: int)
    requires
        0 <= k < words(s).len(),
    ensures
        words(s)[k].len() > 0,
    decreases s.len(),
{
    if s.len() > 0 {
        let prev = words(s.drop_last());
        if crate::text::is_white(s.last()) {
            lemma_word_nonempty(s.drop_last(), k);
        } else if s.len() >= 2 && !crate::text::is_white(s[s.len() - 2]) {
            crate::text::lemma_words_nonempty(s.drop_last());
            if k < prev.len() - 1 {
                lemma_word_nonempty(s.drop_last(), k);
            } else {
                assert(words(s)[k] == prev.last().push(s.last()));
            }
        } else {
            if k < prev.len() {
                lemma_word_nonempty(s.drop_last(), k);
            }
        }
    }
}

/// Parses a hunk header line like "@@ -1,5 +1,6 @@ optional context".
pub fn parse_hunk_header(line: &str) -> (r: Option<DiffHunk>)
    ensures
        match spec_parse_hunk_header(line@) {
            Some(h) => r matches Some(x) && x@ == h,
            None => r is None,
        },
{
    let v = chars_of(line);
    parse_hunk_header_chars(&v)
}


/// The scanner state of `parse_diff` after some lines.
pub struct DiffScan {
    pub results: Seq<ParsedView>,
    pub path: Option<Seq<char>>,
    pub hunks: Seq<HunkView>,
    pub hunk: Option<HunkView>,
}

/// Header lines that carry no hunk content.
pub open spec fn is_meta_line(l: Seq<char>) -> bool {
    ||| has_prefix(l, "index "@)
    ||| has_prefix(l, "--- "@)
    ||| has_prefix(l, "+++ "@)
    ||| has_prefix(l, "new file"@)
    ||| has_prefix(l, "deleted file"@)
    ||| has_prefix(l, "similarity"@)
    ||| has_prefix(l, "rename "@)
    ||| has_prefix(l, "old mode"@)
    ||| has_prefix(l, "new mode"@)
}

/// `hunks` with the open hunk, if any, appended.
pub open spec fn close_hunk(hunks: Seq<HunkView>, hunk: Option<HunkView>) -> Seq<HunkView> {
    match hunk {
        Some(h) => hunks.push(h),
        None => hunks,
    }
}

/// A hunk body line: `+` added, `-` removed, ` ` or empty context; anything else is none.
pub open spec fn classify_line(l: Seq<char>) -> Option<LineView> {
    if l.len() == 0 {
        Some(LineView::Context(Seq::<char>::empty()))
    } else if l[0] == '+' {
        Some(LineView::Add(l.subrange(1, l.len() as int)))
    } else if l[0] == '-' {
        Some(LineView::Remove(l.subrange(1, l.len() as int)))
    } else if l[0] == ' ' {
        Some(LineView::Context(l.subrange(1, l.len() as int)))
    } else {
        None
    }
}

/// One line of the scan.
pub open spec fn diff_step(st: DiffScan, l: Seq<char>) -> DiffScan {
    if has_prefix(l, "diff --git "@) {
        let done = match st.path {
            Some(p) => {
                let hs = close_hunk(st.hunks, st.hunk);
                DiffScan {
                    results: if hs.len() > 0 {
                        st.results.push(ParsedView { path: p, hunks: hs })
                    } else {
                        st.results
                    },
                    path: None,
                    hunks: Seq::<HunkView>::empty(),
                    hunk: None,
                }
            },
            None => st,
        };
        DiffScan {
            path: match rfind_seq(l, " b/"@) {
                Some(i) => Some(l.subrange(i + 3, l.len() as int)),
                None => None,
            },
            ..done
        }
    } else if is_meta_line(l) {
        st
    } else if has_prefix(l, "@@"@) {
        DiffScan { hunks: close_hunk(st.hunks, st.hunk), hunk: spec_parse_hunk_header(l), ..st }
    } else {
        match st.hunk {
            Some(h) => match classify_line(l) {
                Some(x) => DiffScan { hunk: Some(HunkView { lines: h.lines.push(x), ..h }), ..st },
                None => st,
            },
            None => st,
        }
    }
}

/// The scan over a list of lines.
pub open spec fn diff_run(ls: Seq<Seq<char>>) -> DiffScan
    decreases ls.len(),
{
    if ls.len() == 0 {
        DiffScan {
            results: Seq::<ParsedView>::empty(),
            path: None,
            hunks: Seq::<HunkView>::empty(),
            hunk: None,
        }
    } else {
        diff_step(diff_run(ls.drop_last()), ls.last())
    }
}

/// The results once the last file is closed.
pub open spec fn diff_finish(st: DiffScan) -> Seq<ParsedView> {
    match st.path {
        Some(p) => {
            let hs = close_hunk(st.hunks, st.hunk);
            if hs.len() > 0 {
                st.results.push(ParsedView { path: p, hunks: hs })
            } else {
                st.results
            }
        },
        None => st.results,
    }
}

/// A unified diff parsed into files and hunks.
pub open spec fn spec_parse_diff(d: Seq<char>) -> Seq<ParsedView> {
    diff_finish(diff_run(lines_of(d)))
}

/// Views of parsed diffs.
pub open spec fn parsed_views(v: Seq<ParsedDiff>) -> Seq<ParsedView> {
    v.map_values(|p: ParsedDiff| p@)
}

/// Views of hunks.
pub open spec fn hunk_views(v: Seq<DiffHunk>) -> Seq<HunkView> {
    v.map_values(|h: DiffHunk| h@)
}

/// The exec scanner state matches `st`.
pub open spec fn scan_matches(
    results: Seq<ParsedDiff>,
    path: Option<String>,
    hunks: Seq<DiffHunk>,
    hunk: Option<DiffHunk>,
    st: DiffScan,
) -> bool {
    &&& parsed_views(results) == st.results
    &&& match path {
        Some(p) => st.path == Some(p@),
        None => st.path is None,
    }
    &&& hunk_views(hunks) == st.hunks
    &&& match hunk {
        Some(h) => st.hunk == Some(h@),
        None => st.hunk is None,
    }
}

fn starts_with_lit(l: &Vec<char>, lit: &str) -> (r: bool)
    ensures
        r == has_prefix(l@, lit@),
{
    let p = chars_of(lit);
    let r = matches_at(l, &p, 0);
    proof {
        if has_prefix(l@, lit@) {
            assert(occurs_at(l@, p@, 0));
        }
    }
    r
}

/// Moves the open file, if any, into `results`.
fn close_file(
    results: &mut Vec<ParsedDiff>,
    path: &mut Option<String>,
    hunks: &mut Vec<DiffHunk>,
    hunk: &mut Option<DiffHunk>,
    Ghost(st): Ghost<DiffScan>,
)
    requires
        scan_matches(old(results)@, *old(path), old(hunks)@, *old(hunk), st),
        st.path is Some,
    ensures
        ({
            let hs = close_hunk(st.hunks, st.hunk);
            scan_matches(
                final(results)@,
                *final(path),
                final(hunks)@,
                *final(hunk),
                DiffScan {
                    results: if hs.len() > 0 {
                        st.results.push(ParsedView { path: st.path->0, hunks: hs })
                    } else {
                        st.results
                    },
                    path: None,
                    hunks: Seq::<HunkView>::empty(),
                    hunk: None,
                },
            )
        }),
{
    let p = path.take().unwrap();
    match hunk.take() {
        Some(h) => {
            hunks.push(h);
        },
        None => {},
    }
    assert(hunk_views(hunks@) =~= close_hunk(st.hunks, st.hunk));
    if hunks.len() > 0 {
        let mut taken: Vec<DiffHunk> = Vec::new();
        std::mem::swap(&mut taken, hunks);
        results.push(ParsedDiff { path: p, hunks: taken });
        assert(parsed_views(results@) =~= parsed_views(old(results)@).push(results@.last()@));
    }
    assert(hunk_views(hunks@) =~= Seq::<HunkView>::empty());
}

/// The text after the last " b/" of a `diff --git` header.
fn header_path(l: &Vec<char>) -> (r: Option<String>)
    ensures
        match rfind_seq(l@, " b/"@) {
            Some(i) => r matches Some(s) && s@ == l@.subrange(i + 3, l@.len() as int),
            None => r is None,
        },
{
    let pat = chars_of(" b/");
    proof {
        reveal_strlit(" b/");
    }
    match rfind_chars(l, &pat) {
        Some(i) => Some(substring(l, i + 3, l.len())),
        None => None,
    }
}

/// Parses a raw unified diff into files and their hunks.
pub fn parse_diff(diff: &str) -> (r: Vec<ParsedDiff>)
    ensures
        parsed_views(r@) == spec_parse_diff(diff@),
{
    let text = chars_of(diff);
    let ls = lines(&text, 0, text.len());
    let ghost lv = lines_of(text@.subrange(0, text.len() as int));
    assert(text@.subrange(0, text.len() as int) =~= diff@);
    let mut results: Vec<ParsedDiff> = Vec::new();
    let mut path: Option<String> = None;
    let mut hunks: Vec<DiffHunk> = Vec::new();
    let mut hunk: Option<DiffHunk> = None;
    let mut k: usize = 0;
    assert(parsed_views(results@) =~= Seq::<ParsedView>::empty());
    assert(hunk_views(hunks@) =~= Seq::<HunkView>::empty());
    assert(lv.take(0) =~= Seq::<Seq<char>>::empty());
    while k < ls.len()
        invariant
            lv == lines_of(diff@),
            ls.len() == lv.len(),
            forall|j: int| 0 <= j < ls.len() ==> #[trigger] ls[j]@ == lv[j],
            k <= ls.len(),
            scan_matches(results@, path, hunks@, hunk, diff_run(lv.take(k as int))),
        decreases ls.len() - k,
    {
        let ghost st = diff_run(lv.take(k as int));
        assert(lv.take(k + 1).drop_last() =~= lv.take(k as int));
        let l = &ls[k];
        assert(l@ == lv[k as int]);
        if starts_with_lit(l, "diff --git ") {
            if path.is_some() {
                close_file(&mut results, &mut path, &mut hunks, &mut hunk, Ghost(st));
            }
            path = header_path(l);
        } else if starts_with_lit(l, "index ") || starts_with_lit(l, "--- ") || starts_with_lit(
            l,
            "+++ ",
        ) || starts_with_lit(l, "new file") || starts_with_lit(l, "deleted file")
            || starts_with_lit(l, "similarity") || starts_with_lit(l, "rename ")
            || starts_with_lit(l, "old mode") || starts_with_lit(l, "new mode") {
        } else if starts_with_lit(l, "@@") {
            match hunk.take() {
                Some(h) => {
                    hunks.push(h);
                },
                None => {},
            }
            assert(hunk_views(hunks@) =~= close_hunk(st.hunks, st.hunk));
            hunk = parse_hunk_header_chars(l);
        } else {
            match hunk.take() {
                Some(mut h) => {
                    let ghost hv = h@;
                    let n = l.len();
                    let mut pushed = true;
                    if n == 0 {
                        h.lines.push(DiffLine::Context(String::new()));
                    } else if l[0] == '+' {
                        h.lines.push(DiffLine::Add(substring(l, 1, n)));
                    } else if l[0] == '-' {
                        h.lines.push(DiffLine::Remove(substring(l, 1, n)));
                    } else if l[0] == ' ' {
                        h.lines.push(DiffLine::Context(substring(l, 1, n)));
                    } else {
                        pushed = false;
                    }
                    proof {
                        if pushed {
                            assert(h@.lines =~= hv.lines.push(h.lines@.last()@));
                        }
                    }
                    hunk = Some(h);
                },
                None => {},
            }
        }
        k += 1;
    }
    assert(lv.take(ls.len() as int) =~= lv);
    if path.is_some() {
        close_file(&mut results, &mut path, &mut hunks, &mut hunk, Ghost(diff_run(lv)));
    }
    results
}


/// A per-file diff statistic, as text.
pub struct FileDiffView {
    pub path: Seq<char>,
    pub old_path: Option<Seq<char>>,
    pub status: FileStatus,
    pub insertions: usize,
    pub deletions: usize,
}

impl View for FileDiff {
    type V = FileDiffView;

    open spec fn view(&self) -> FileDiffView {
        FileDiffView {
            path: self.path@,
            old_path: match self.old_path {
                Some(s) => Some(s@),
                None => None,
            },
            status: self.status,
            insertions: self.insertions,
            deletions: self.deletions,
        }
    }
}

/// One entry of the name-status listing: the path, its status, and the old path of a
/// rename or copy.
pub struct StatusEntry {
    pub path: Seq<char>,
    pub status: FileStatus,
    pub old: Option<Seq<char>>,
}

/// The entry a `--name-status` line contributes: `status\tpath` or `status\told\tnew`.
pub open spec fn status_entry(l: Seq<char>) -> Option<StatusEntry> {
    let parts = split_on(l, '\t');
    let st = FileStatus::spec_from_char(
        if parts[0].len() > 0 {
            parts[0][0]
        } else {
            '?'
        },
    );
    if l.len() == 0 {
        None
    } else if parts.len() == 2 {
        Some(StatusEntry { path: parts[1], status: st, old: None })
    } else if parts.len() == 3 {
        Some(StatusEntry { path: parts[2], status: st, old: Some(parts[1]) })
    } else {
        None
    }
}

/// The entries of all `--name-status` lines, in order.
pub open spec fn status_entries(ls: Seq<Seq<char>>) -> Seq<StatusEntry>
    decreases ls.len(),
{
    if ls.len() == 0 {
        Seq::<StatusEntry>::empty()
    } else {
        match status_entry(ls.last()) {
            Some(e) => status_entries(ls.drop_last()).push(e),
            None => status_entries(ls.drop_last()),
        }
    }
}

/// The status recorded last for `p` (later lines override earlier ones); modified when the
/// path is not listed.
pub open spec fn lookup_status(es: Seq<StatusEntry>, p: Seq<char>) -> (FileStatus, Option<Seq<char>>)
    decreases es.len(),
{
    if es.len() == 0 {
        (FileStatus::Modified, None)
    } else if es.last().path == p {
        (es.last().status, es.last().old)
    } else {
        lookup_status(es.drop_last(), p)
    }
}

/// `x.unwrap_or(0)` for parsed counts.
pub open spec fn or_zero(x: Option<usize>) -> usize {
    match x {
        Some(v) => v,
        None => 0,
    }
}

/// The path and old path written in a numstat path field, `old => new` for renames.
pub open spec fn numstat_paths(pp: Seq<char>) -> (Seq<char>, Option<Seq<char>>) {
    if contains_seq(pp, " => "@) && split_str(pp, " => "@).len() == 2 {
        (split_str(pp, " => "@)[1], Some(split_str(pp, " => "@)[0]))
    } else {
        (pp, None)
    }
}

/// The file statistic a `--numstat` line contributes, if any.
pub open spec fn numstat_file(l: Seq<char>, es: Seq<StatusEntry>) -> Option<FileDiffView> {
    let parts = split_on(l, '\t');
    if l.len() == 0 || parts.len() < 3 {
        None
    } else {
        let (path, old) = numstat_paths(join_seqs(parts.subrange(2, parts.len() as int), seq!['\t']));
        let (st, sold) = lookup_status(es, path);
        Some(
            FileDiffView {
                path: path,
                old_path: match old {
                    Some(o) => Some(o),
                    None => sold,
                },
                status: st,
                insertions: or_zero(parse_usize(parts[0])),
                deletions: or_zero(parse_usize(parts[1])),
            },
        )
    }
}

/// The file statistics of all `--numstat` lines, in order.
pub open spec fn numstat_files(ls: Seq<Seq<char>>, es: Seq<StatusEntry>) -> Seq<FileDiffView>
    decreases ls.len(),
{
    if ls.len() == 0 {
        Seq::<FileDiffView>::empty()
    } else {
        match numstat_file(ls.last(), es) {
            Some(f) => numstat_files(ls.drop_last(), es).push(f),
            None => numstat_files(ls.drop_last(), es),
        }
    }
}

/// Views of file statistics.
pub open spec fn file_views(v: Seq<FileDiff>) -> Seq<FileDiffView> {
    v.map_values(|f: FileDiff| f@)
}

struct ExecStatus {
    path: String,
    status: FileStatus,
    old: Option<String>,
}

spec fn exec_status_view(e: ExecStatus) -> StatusEntry {
    StatusEntry {
        path: e.path@,
        status: e.status,
        old: match e.old {
            Some(o) => Some(o@),
            None => None,
        },
    }
}

fn pieces_string(parts: &Vec<Vec<char>>, k: usize) -> (r: String)
    requires
        k < parts.len(),
    ensures
        r@ == parts[k as int]@,
{
    let p = &parts[k];
    string_of(p.as_slice())
}

fn lookup_status_exec(es: &Vec<ExecStatus>, p: &Vec<char>) -> (r: (FileStatus, Option<String>))
    ensures
        r.0 == lookup_status(es@.map_values(|e: ExecStatus| exec_status_view(e)), p@).0,
        match r.1 {
            Some(o) => lookup_status(es@.map_values(|e: ExecStatus| exec_status_view(e)), p@).1
                == Some(o@),
            None => lookup_status(es@.map_values(|e: ExecStatus| exec_status_view(e)), p@).1 is None,
        },
{
    let ghost ev = es@.map_values(|e: ExecStatus| exec_status_view(e));
    let mut i = es.len();
    assert(ev.take(i as int) =~= ev);
    while i > 0
        invariant
            i <= es.len(),
            ev == es@.map_values(|e: ExecStatus| exec_status_view(e)),
            lookup_status(ev, p@) == lookup_status(ev.take(i as int), p@),
        decreases i,
    {
        assert(ev.take(i as int).drop_last() =~= ev.take(i - 1));
        let e = &es[i - 1];
        let pv = chars_of(e.path.as_str());
        if pv.len() == p.len() && matches_at(&pv, p, 0) {
            assert(pv@.subrange(0, p.len() as int) =~= pv@);
            let o = match &e.old {
                Some(s) => Some(to_owned(s)),
                None => None,
            };
            return (e.status, o);
        } else {
            proof {
                if pv@ == p@ {
                    assert(pv@.subrange(0, p.len() as int) =~= pv@);
                    assert(occurs_at(pv@, p@, 0));
                }
            }
        }
        i -= 1;
    }
    assert(ev.take(0) =~= Seq::<StatusEntry>::empty());
    (FileStatus::Modified, None)
}

fn to_owned(s: &String) -> (r: String)
    ensures
        r@ == s@,
{
    crate::text::to_owned_string(s.as_str())
}

fn unwrap_or_zero(x: Option<usize>) -> (r: usize)
    ensures
        r == or_zero(x),
{
    match x {
        Some(v) => v,
        None => 0,
    }
}

/// Parses `git diff --numstat` and `git diff --name-status` output into per-file
/// statistics, in numstat order.
pub fn parse_diff_output(numstat: &str, name_status: &str) -> (r: Result<Vec<FileDiff>, BrdError>)
    ensures
        r matches Ok(files) && file_views(files@) == numstat_files(
            lines_of(numstat@),
            status_entries(lines_of(name_status@)),
        ),
{
    let ns = chars_of(name_status);
    assert(ns@.subrange(0, ns.len() as int) =~= name_status@);
    let nls = lines(&ns, 0, ns.len());
    let ghost nlv = lines_of(name_status@);
    let mut es: Vec<ExecStatus> = Vec::new();
    let mut k: usize = 0;
    assert(nlv.take(0) =~= Seq::<Seq<char>>::empty());
    assert(es@.map_values(|e: ExecStatus| exec_status_view(e)) =~= Seq::<StatusEntry>::empty());
    while k < nls.len()
        invariant
            nlv == lines_of(name_status@),
            nls.len() == nlv.len(),
            forall|j: int| 0 <= j < nls.len() ==> #[trigger] nls[j]@ == nlv[j],
            k <= nls.len(),
            es@.map_values(|e: ExecStatus| exec_status_view(e)) == status_entries(nlv.take(k as int)),
        decreases nls.len() - k,
    {
        assert(nlv.take(k + 1).drop_last() =~= nlv.take(k as int));
        let l = &nls[k];
        assert(l@ == nlv[k as int]);
        if l.len() > 0 {
            let parts = split_chars(l, 0, l.len(), '\t');
            proof {
                assert(l@.subrange(0, l.len() as int) =~= l@);
                lemma_split_on_nonempty(l@, '\t');
            }
            let c = if parts[0].len() > 0 {
                parts[0][0]
            } else {
                '?'
            };
            let st = FileStatus::from_char(c);
            let ghost before = es@.map_values(|e: ExecStatus| exec_status_view(e));
            if parts.len() == 2 {
                es.push(ExecStatus { path: pieces_string(&parts, 1), status: st, old: None });
                assert(es@.map_values(|e: ExecStatus| exec_status_view(e)) =~= before.push(
                    status_entry(l@)->0,
                ));
            } else if parts.len() == 3 {
                es.push(
                    ExecStatus {
                        path: pieces_string(&parts, 2),
                        status: st,
                        old: Some(pieces_string(&parts, 1)),
                    },
                );
                assert(es@.map_values(|e: ExecStatus| exec_status_view(e)) =~= before.push(
                    status_entry(l@)->0,
                ));
            }
        }
        k += 1;
    }
    assert(nlv.take(nls.len() as int) =~= nlv);
    let ghost esv = status_entries(nlv);
    let nm = chars_of(numstat);
    assert(nm@.subrange(0, nm.len() as int) =~= numstat@);
    let mls = lines(&nm, 0, nm.len());
    let ghost mlv = lines_of(numstat@);
    let arrow = chars_of(" => ");
    proof {
        reveal_strlit(" => ");
    }
    let mut files: Vec<FileDiff> = Vec::new();
    let mut m: usize = 0;
    assert(mlv.take(0) =~= Seq::<Seq<char>>::empty());
    assert(file_views(files@) =~= Seq::<FileDiffView>::empty());
    while m < mls.len()
        invariant
            mlv == lines_of(numstat@),
            mls.len() == mlv.len(),
            forall|j: int| 0 <= j < mls.len() ==> #[trigger] mls[j]@ == mlv[j],
            m <= mls.len(),
            esv == es@.map_values(|e: ExecStatus| exec_status_view(e)),
            arrow@ == " => "@,
            arrow.len() == 4,
            file_views(files@) == numstat_files(mlv.take(m as int), esv),
        decreases mls.len() - m,
    {
        assert(mlv.take(m + 1).drop_last() =~= mlv.take(m as int));
        let l = &mls[m];
        assert(l@ == mlv[m as int]);
        if l.len() > 0 {
            let parts = split_chars(l, 0, l.len(), '\t');
            proof {
                assert(l@.subrange(0, l.len() as int) =~= l@);
            }
            if parts.len() >= 3 {
                let ins = unwrap_or_zero(parse_usize_at(&parts[0], 0, parts[0].len()));
                let del = unwrap_or_zero(parse_usize_at(&parts[1], 0, parts[1].len()));
                proof {
                    assert(parts[0]@.subrange(0, parts[0].len() as int) =~= parts[0]@);
                    assert(parts[1]@.subrange(0, parts[1].len() as int) =~= parts[1]@);
                    assert(parts@.map_values(|v: Vec<char>| v@) =~= split_on(l@, '\t'));
                }
                let pp = join_char_pieces(&parts, 2, '\t');
                proof {
                    crate::text::lemma_find_from(pp@, arrow@, 0);
                }
                let has_arrow = find_chars(&pp, &arrow, 0).is_some();
                let (path, old) = if has_arrow {
                    let ap = split_str_chars(&pp, &arrow);
                    if ap.len() == 2 {
                        (string_of(ap[1].as_slice()), Some(string_of(ap[0].as_slice())))
                    } else {
                        (string_of(pp.as_slice()), None)
                    }
                } else {
                    (string_of(pp.as_slice()), None)
                };
                let pathv = chars_of(path.as_str());
                let (st, sold) = lookup_status_exec(&es, &pathv);
                let old_path = match old {
                    Some(o) => Some(o),
                    None => sold,
                };
                let ghost before = file_views(files@);
                files.push(
                    FileDiff { path, old_path, status: st, insertions: ins, deletions: del },
                );
                assert(file_views(files@) =~= before.push(numstat_file(l@, esv)->0));
            }
        }
        m += 1;
    }
    assert(mlv.take(mls.len() as int) =~= mlv);
    Ok(files)
}

/// Totals over per-file statistics.
pub open spec fn sum_insertions(fs: Seq<FileDiff>) -> int
    decreases fs.len(),
{
    if fs.len() == 0 {
        0
    } else {
        sum_insertions(fs.drop_last()) + fs.last().insertions
    }
}

/// Totals over per-file statistics.
pub open spec fn sum_deletions(fs: Seq<FileDiff>) -> int
    decreases fs.len(),
{
    if fs.len() == 0 {
        0
    } else {
        sum_deletions(fs.drop_last()) + fs.last().deletions
    }
}

/// Summary of per-file statistics: file count and total insertions and deletions.
/// The totals must fit a `usize`.
pub fn diff_stat(files: &[FileDiff]) -> (r: DiffStat)
    requires
        sum_insertions(files@) <= usize::MAX,
        sum_deletions(files@) <= usize::MAX,
    ensures
        r.files_changed == files.len(),
        r.insertions == sum_insertions(files@),
        r.deletions == sum_deletions(files@),
{
    let mut ins: usize = 0;
    let mut del: usize = 0;
    let mut i: usize = 0;
    while i < files.len()
        invariant
            i <= files.len(),
            ins == sum_insertions(files@.take(i as int)),
            del == sum_deletions(files@.take(i as int)),
            sum_insertions(files@) <= usize::MAX,
            sum_deletions(files@) <= usize::MAX,
        decreases files.len() - i,
    {
        assert(files@.take(i + 1).drop_last() =~= files@.take(i as int));
        proof {
            lemma_sums_prefix(files@, i + 1);
        }
        ins = ins + files[i].insertions;
        del = del + files[i].deletions;
        i += 1;
    }
    assert(files@.take(files.len() as int) =~= files@);
    DiffStat { files_changed: files.len(), insertions: ins, deletions: del }
}

proof fn lemma_sums_prefix(fs: Seq<FileDiff>, k: int)
    requires
        0 <= k <= fs.len(),
    ensures
        sum_insertions(fs.take(k)) <= sum_insertions(fs),
        sum_deletions(fs.take(k)) <= sum_deletions(fs),
    decreases fs.len() - k,
{
    if k < fs.len() {
        lemma_sums_prefix(fs, k + 1);
        assert(fs.take(k + 1).drop_last() =~= fs.take(k));
    } else {
        assert(fs.take(k) =~= fs);
    }
}

/// The views of a list of strings.
pub open spec fn args_view(v: Seq<String>) -> Seq<Seq<char>> {
    v.map_values(|d: String| d@)
}

fn owned(s: &str) -> (r: String)
    ensures
        r@ == s@,
{
    crate::text::to_owned_string(s)
}

/// What a git command prints, as the library reads it: standard output with whitespace
/// trimmed at both ends.
pub open spec fn git_out(stdout: Seq<char>) -> Seq<char> {
    trim(stdout)
}

fn trimmed(stdout: &str) -> (r: Vec<char>)
    ensures
        r@ == git_out(stdout@),
{
    let v = chars_of(stdout);
    let (a, b) = trim_bounds(&v, 0, v.len());
    assert(v@.subrange(0, v.len() as int) =~= stdout@);
    let mut r: Vec<char> = Vec::new();
    let mut i = a;
    while i < b
        invariant
            a <= i <= b <= v.len(),
            r@ == v@.subrange(a as int, i as int),
        decreases b - i,
    {
        r.push(v[i]);
        i += 1;
        assert(r@ =~= v@.subrange(a as int, i as int));
    }
    r
}

/// The working tree is clean when `git status --porcelain` prints nothing.
pub fn is_clean(status_stdout: &str) -> (r: bool)
    ensures
        r == (git_out(status_stdout@).len() == 0),
{
    trimmed(status_stdout).len() == 0
}

/// The current branch, from what `git rev-parse --abbrev-ref HEAD` printed; an empty
/// answer is an error.
pub fn current_branch(rev_parse_stdout: &str) -> (r: Result<String, BrdError>)
    ensures
        git_out(rev_parse_stdout@).len() == 0 ==> (r matches Err(BrdError::Other(m)) && m@
            == "failed to get current branch"@),
        git_out(rev_parse_stdout@).len() > 0 ==> (r matches Ok(b) && b@ == git_out(
            rev_parse_stdout@,
        )),
{
    let t = trimmed(rev_parse_stdout);
    if t.len() == 0 {
        return Err(BrdError::Other(owned("failed to get current branch")));
    }
    Ok(string_of(t.as_slice()))
}

/// The number of stash entries, from what `git stash list` printed: one per line.
pub fn stash_count(list_stdout: &str) -> (r: usize)
    ensures
        r == (if git_out(list_stdout@).len() == 0 {
            0
        } else {
            lines_of(git_out(list_stdout@)).len()
        }),
{
    let t = trimmed(list_stdout);
    if t.len() == 0 {
        0
    } else {
        assert(t@.subrange(0, t.len() as int) =~= t@);
        lines(&t, 0, t.len()).len()
    }
}

/// Whether `git stash push` made a stash, given the stash count before, whether the push
/// command succeeded, and the count after: a failed push is an error; otherwise a stash
/// was made when the count grew.
pub fn stash_push(before: usize, pushed: bool, after: usize) -> (r: Result<bool, BrdError>)
    ensures
        !pushed ==> (r matches Err(BrdError::Other(m)) && m@ == "failed to stash changes"@),
        pushed ==> r == Ok::<bool, BrdError>(after > before),
{
    if !pushed {
        return Err(BrdError::Other(owned("failed to stash changes")));
    }
    Ok(after > before)
}

/// The arguments of a git command whose success tells whether the remote `name` exists.
pub fn has_remote(name: &str) -> (r: Vec<String>)
    ensures
        args_view(r@) == seq!["remote"@, "get-url"@, name@],
{
    let mut r: Vec<String> = Vec::new();
    r.push(owned("remote"));
    r.push(owned("get-url"));
    r.push(owned(name));
    assert(args_view(r@) =~= seq!["remote"@, "get-url"@, name@]);
    r
}

/// `<remote>/<branch>`.
pub open spec fn remote_ref(remote: Seq<char>, branch: Seq<char>) -> Seq<char> {
    remote + seq!['/'] + branch
}

/// The arguments of a git command whose success tells whether `branch` exists on
/// `remote` (as the remote-tracking ref `<remote>/<branch>`).
pub fn has_remote_branch(remote: &str, branch: &str) -> (r: Vec<String>)
    ensures
        args_view(r@) == seq!["rev-parse"@, "--verify"@, remote_ref(remote@, branch@)],
{
    let mut refspec = owned(remote);
    push_str(&mut refspec, "/");
    push_str(&mut refspec, branch);
    proof {
        reveal_strlit("/");
        assert("/"@ =~= seq!['/']);
        assert(refspec@ =~= remote_ref(remote@, branch@));
    }
    let mut r: Vec<String> = Vec::new();
    r.push(owned("rev-parse"));
    r.push(owned("--verify"));
    r.push(refspec);
    assert(args_view(r@) =~= seq!["rev-parse"@, "--verify"@, remote_ref(remote@, branch@)]);
    r
}

/// The arguments of a git command whose success tells whether `branch` exists.
pub fn branch_exists(branch: &str) -> (r: Vec<String>)
    ensures
        args_view(r@) == seq!["rev-parse"@, "--verify"@, branch@],
{
    let mut r: Vec<String> = Vec::new();
    r.push(owned("rev-parse"));
    r.push(owned("--verify"));
    r.push(owned(branch));
    assert(args_view(r@) =~= seq!["rev-parse"@, "--verify"@, branch@]);
    r
}

/// The arguments of the git command that pops the most recent stash.
pub fn stash_pop() -> (r: Vec<String>)
    ensures
        args_view(r@) == seq!["stash"@, "pop"@],
{
    let mut r: Vec<String> = Vec::new();
    r.push(owned("stash"));
    r.push(owned("pop"));
    assert(args_view(r@) =~= seq!["stash"@, "pop"@]);
    r
}

/// The revision arguments that select what a diff compares: `base..head` for two refs,
/// the one ref given, or nothing for uncommitted changes.
pub open spec fn range_args(base: Option<Seq<char>>, head: Option<Seq<char>>) -> Seq<Seq<char>> {
    match (base, head) {
        (Some(b), Some(h)) => seq![b + seq!['.', '.'] + h],
        (Some(b), None) => seq![b],
        (None, Some(h)) => seq![h],
        (None, None) => Seq::<Seq<char>>::empty(),
    }
}

/// The view of an optional text.
pub open spec fn opt_view(o: Option<&str>) -> Option<Seq<char>> {
    match o {
        Some(s) => Some(s@),
        None => None,
    }
}

fn push_range(r: &mut Vec<String>, base: Option<&str>, head: Option<&str>)
    ensures
        args_view(final(r)@) == args_view(old(r)@) + range_args(opt_view(base), opt_view(head)),
{
    let ghost r0 = args_view(r@);
    match (base, head) {
        (Some(b), Some(h)) => {
            let mut range = owned(b);
            push_str(&mut range, "..");
            push_str(&mut range, h);
            proof {
                reveal_strlit("..");
                assert(".."@ =~= seq!['.', '.']);
                assert(range@ =~= b@ + seq!['.', '.'] + h@);
            }
            r.push(range);
        },
        (Some(b), None) => {
            r.push(owned(b));
        },
        (None, Some(h)) => {
            r.push(owned(h));
        },
        (None, None) => {},
    }
    assert(args_view(r@) =~= r0 + range_args(opt_view(base), opt_view(head)));
}

/// The arguments of the two git commands whose outputs `parse_diff_output` reads: the
/// per-file counts (`--numstat`), then the per-file status (`--name-status`), both with
/// rename detection, over the selected range.
pub fn diff_files(base: Option<&str>, head: Option<&str>) -> (r: (Vec<String>, Vec<String>))
    ensures
        args_view(r.0@) == seq!["diff"@, "--numstat"@, "--find-renames"@] + range_args(
            opt_view(base),
            opt_view(head),
        ),
        args_view(r.1@) == seq!["diff"@, "--name-status"@, "--find-renames"@] + range_args(
            opt_view(base),
            opt_view(head),
        ),
{
    let mut a: Vec<String> = Vec::new();
    a.push(owned("diff"));
    a.push(owned("--numstat"));
    a.push(owned("--find-renames"));
    assert(args_view(a@) =~= seq!["diff"@, "--numstat"@, "--find-renames"@]);
    push_range(&mut a, base, head);
    let mut b: Vec<String> = Vec::new();
    b.push(owned("diff"));
    b.push(owned("--name-status"));
    b.push(owned("--find-renames"));
    assert(args_view(b@) =~= seq!["diff"@, "--name-status"@, "--find-renames"@]);
    push_range(&mut b, base, head);
    (a, b)
}

/// The arguments of the git command that prints a unified diff with three lines of
/// context over the selected range, limited to `file` when one is given.
pub fn diff_content(base: Option<&str>, head: Option<&str>, file: Option<&str>) -> (r: Vec<String>)
    ensures
        args_view(r@) == seq!["diff"@, "-U3"@] + range_args(opt_view(base), opt_view(head)) + match file {
            Some(f) => seq!["--"@, f@],
            None => Seq::<Seq<char>>::empty(),
        },
{
    let mut a: Vec<String> = Vec::new();
    a.push(owned("diff"));
    a.push(owned("-U3"));
    assert(args_view(a@) =~= seq!["diff"@, "-U3"@]);
    push_range(&mut a, base, head);
    let ghost a0 = args_view(a@);
    match file {
        Some(f) => {
            a.push(owned("--"));
            a.push(owned(f));
            assert(args_view(a@) =~= a0 + seq!["--"@, f@]);
        },
        None => {
            assert(args_view(a@) =~= a0 + Seq::<Seq<char>>::empty());
        },
    }
    a
}

} // verus!
