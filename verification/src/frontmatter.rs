//! The markdown layout of an issue file: a `---` fenced frontmatter block, then a body.

use vstd::prelude::*;

use crate::error::BrdError;
use crate::text::{
    chars_of, find_chars, find_from, has_prefix, lemma_find_from, matches_at, occurs_at,
    push_char, push_str, skip_white, string_of, substring, trim, trim_bounds, trim_start,
    trim_end, is_white,
};

verus! {

/// `---`, the fence around the frontmatter.
pub open spec fn fence() -> Seq<char> {
    seq!['-', '-', '-']
}

/// A newline followed by a fence: where the frontmatter ends.
pub open spec fn closing_fence() -> Seq<char> {
    seq!['\n', '-', '-', '-']
}

/// Where the closing fence starts in `t` (the content with leading whitespace removed),
/// looking past the opening fence.
pub open spec fn closing_at(t: Seq<char>) -> Option<int> {
    find_from(t, closing_fence(), 3)
}

/// `s` with its leading newlines removed (`str::trim_start_matches('\n')`).
pub open spec fn skip_newlines(s: Seq<char>) -> Seq<char>
    decreases s.len(),
{
    if s.len() > 0 && s[0] == '\n' {
        skip_newlines(s.drop_first())
    } else {
        s
    }
}

/// The two parts of a fenced text `t` whose closing fence starts at `e`: the text between
/// the fences, and what follows the closing fence.
pub open spec fn fenced_parts(t: Seq<char>, e: int) -> (Seq<char>, Seq<char>) {
    (t.subrange(3, e), t.subrange(e + 4, t.len() as int))
}

/// Splits `content` at its fences: `None` where the opening fence is missing (after
/// leading whitespace), `Some(None)` where the closing fence is, and otherwise the raw
/// frontmatter and the raw rest.
pub open spec fn spec_fenced(content: Seq<char>) -> Option<Option<(Seq<char>, Seq<char>)>> {
    let t = trim_start(content);
    if !has_prefix(t, fence()) {
        None
    } else {
        match closing_at(t) {
            Some(e) => Some(Some(fenced_parts(t, e))),
            None => Some(None),
        }
    }
}

/// The content with leading whitespace removed, and where its closing fence starts, if
/// it opens with a fence.
pub(crate) fn fenced(content: &str) -> (r: Option<(Vec<char>, Option<usize>)>)
    ensures
        match spec_fenced(content@) {
            None => r is None,
            Some(None) => r matches Some((t, e)) && t@ == trim_start(content@) && e is None,
            Some(Some(_)) => r matches Some((t, e)) && t@ == trim_start(content@) && e is Some
                && closing_at(t@) == Some(e->0 as int) && 3 <= e->0 && e->0 + 4 <= t.len(),
        },
{
    let c = chars_of(content);
    let a = skip_white(&c, 0, c.len());
    assert(c@.subrange(0, c.len() as int) =~= content@);
    let mut t: Vec<char> = Vec::new();
    let mut i = a;
    while i < c.len()
        invariant
            a <= i <= c.len(),
            t@ == c@.subrange(a as int, i as int),
        decreases c.len() - i,
    {
        t.push(c[i]);
        i += 1;
        assert(t@ =~= c@.subrange(a as int, i as int));
    }
    let f = chars_of("---");
    let nf = chars_of("\n---");
    proof {
        reveal_strlit("---");
        reveal_strlit("\n---");
        assert(f@ =~= fence());
        assert(nf@ =~= closing_fence());
    }
    if !matches_at(&t, &f, 0) {
        proof {
            if has_prefix(t@, fence()) {
                assert(occurs_at(t@, f@, 0));
            }
        }
        return None;
    }
    proof {
        lemma_find_from(t@, nf@, 3);
    }
    let e = find_chars(&t, &nf, 3);
    Some((t, e))
}

/// The message of a missing opening fence in an issue file.
pub open spec fn issue_open_message() -> Seq<char> {
    "missing frontmatter delimiter"@
}

/// The message of a missing closing fence in an issue file.
pub open spec fn issue_close_message() -> Seq<char> {
    "missing closing frontmatter delimiter"@
}

/// How an issue file splits: the trimmed frontmatter, and the body without its leading
/// newlines; or the parse error, in `issue`, of a missing fence.
pub open spec fn spec_split_frontmatter(content: Seq<char>) -> Result<(Seq<char>, Seq<char>), (Seq<char>, Seq<char>)> {
    match spec_fenced(content) {
        None => Err(("issue"@, issue_open_message())),
        Some(None) => Err(("issue"@, issue_close_message())),
        Some(Some((f, b))) => Ok((trim(f), skip_newlines(b))),
    }
}

/// The result of a split as views.
pub open spec fn split_view(r: Result<(String, String), BrdError>) -> Option<Result<(Seq<char>, Seq<char>), (Seq<char>, Seq<char>)>> {
    match r {
        Ok((a, b)) => Some(Ok((a@, b@))),
        Err(BrdError::ParseError(w, m)) => Some(Err((w@, m@))),
        Err(_) => None,
    }
}

pub(crate) fn parse_error(what: &str, msg: &str) -> (r: BrdError)
    ensures
        r matches BrdError::ParseError(w, m) && w@ == what@ && m@ == msg@,
{
    let mut w = String::new();
    push_str(&mut w, what);
    let mut m = String::new();
    push_str(&mut m, msg);
    BrdError::ParseError(w, m)
}

/// Splits the content of an issue file into its frontmatter and its body.
pub fn split_frontmatter(content: &str) -> (r: Result<(String, String), BrdError>)
    ensures
        split_view(r) == Some(spec_split_frontmatter(content@)),
{
    match fenced(content) {
        None => Err(parse_error("issue", "missing frontmatter delimiter")),
        Some((_, None)) => Err(parse_error("issue", "missing closing frontmatter delimiter")),
        Some((t, Some(e))) => {
            let (p, q) = trim_bounds(&t, 3, e);
            let front = substring(&t, p, q);
            let mut k = e + 4;
            while k < t.len() && t[k] == '\n'
                invariant
                    e + 4 <= k <= t.len(),
                    skip_newlines(t@.subrange(e + 4, t.len() as int)) == skip_newlines(
                        t@.subrange(k as int, t.len() as int),
                    ),
                decreases t.len() - k,
            {
                assert(t@.subrange(k as int, t.len() as int).drop_first() =~= t@.subrange(
                    k + 1,
                    t.len() as int,
                ));
                k += 1;
            }
            proof {
                let s = t@.subrange(k as int, t.len() as int);
                if s.len() > 0 {
                    assert(s[0] == t@[k as int]);
                }
            }
            let body = substring(&t, k, t.len());
            Ok((front, body))
        },
    }
}

/// The markdown of an issue: the frontmatter between fences (each fence on its own
/// line), then, when the body is not empty, a blank line and the body.
pub open spec fn spec_markdown(frontmatter: Seq<char>, body: Seq<char>) -> Seq<char> {
    fence() + seq!['\n'] + frontmatter + fence() + seq!['\n'] + if body.len() > 0 {
        seq!['\n'] + body
    } else {
        Seq::<char>::empty()
    }
}

/// Lays out an issue file from its serialized frontmatter and its body.
pub fn to_markdown(frontmatter: &str, body: &str) -> (r: String)
    ensures
        r@ == spec_markdown(frontmatter@, body@),
{
    let mut out = String::new();
    push_str(&mut out, "---\n");
    push_str(&mut out, frontmatter);
    push_str(&mut out, "---\n");
    let b = chars_of(body);
    if b.len() > 0 {
        push_char(&mut out, '\n');
        push_str(&mut out, body);
    }
    proof {
        reveal_strlit("---\n");
        assert(out@ =~= spec_markdown(frontmatter@, body@));
    }
    out
}

/// No line of `f` starts with a fence.
pub open spec fn no_fence_line(f: Seq<char>) -> bool {
    forall|j: int|
        0 <= j && j + 3 <= f.len() && (j == 0 || f[j - 1] == '\n') ==> #[trigger] f.subrange(
            j,
            j + 3,
        ) != fence()
}

proof fn lemma_trim_white_end(x: Seq<char>, w: char)
    requires
        is_white(w),
    ensures
        trim_end(trim_start(x.push(w))) == trim_end(trim_start(x)),
    decreases x.len(),
{
    if x.len() == 0 {
        assert(x.push(w).subrange(1, 1) =~= Seq::<char>::empty());
        assert(trim_start(x.push(w)) == trim_start(Seq::<char>::empty()));
    } else if is_white(x[0]) {
        lemma_trim_white_end(x.subrange(1, x.len() as int), w);
        assert(x.push(w).subrange(1, x.len() + 1 as int) =~= x.subrange(1, x.len() as int).push(w));
    } else {
        assert(trim_start(x.push(w)) == x.push(w));
        assert(x.push(w).drop_last() =~= x);
    }
}

/// Laying out an issue and splitting it again gives back the frontmatter (trimmed) and
/// the body, provided the serialized frontmatter ends with a newline, none of its lines
/// starts with a fence, and the body does not start with a newline.
pub proof fn lemma_markdown_roundtrip(f: Seq<char>, b: Seq<char>)
    requires
        f.len() > 0,
        f.last() == '\n',
        no_fence_line(f),
        b.len() == 0 || b[0] != '\n',
    ensures
        spec_split_frontmatter(spec_markdown(f, b)) == Ok::<
            (Seq<char>, Seq<char>),
            (Seq<char>, Seq<char>),
        >((trim(f), b)),
{
    let t = spec_markdown(f, b);
    let n = f.len() as int;
    let tail = if b.len() > 0 {
        seq!['\n'] + b
    } else {
        Seq::<char>::empty()
    };
    assert(t =~= fence() + seq!['\n'] + f + fence() + seq!['\n'] + tail);
    assert(t[0] == '-');
    assert(!is_white('-'));
    assert(trim_start(t) == t);
    assert(t.subrange(0, 3) =~= fence());
    assert forall|k: int| 0 <= k < n implies t[4 + k] == #[trigger] f[k] by {}
    assert(t[3 + n] == '\n');
    assert(t.subrange(3 + n, 7 + n) =~= closing_fence());
    assert forall|j: int| 3 <= j < 3 + n implies !occurs_at(t, closing_fence(), j) by {
        if occurs_at(t, closing_fence(), j) {
            assert(closing_fence()[0] == '\n' && closing_fence()[1] == '-' && closing_fence()[2]
                == '-' && closing_fence()[3] == '-');
            assert(t.subrange(j, j + 4)[0] == t[j]);
            assert(t.subrange(j, j + 4)[1] == t[j + 1]);
            assert(t.subrange(j, j + 4)[2] == t[j + 2]);
            assert(t.subrange(j, j + 4)[3] == t[j + 3]);
            if j <= n {
                let k = j - 3;
                assert(t[j + 1] == f[k]);
                assert(t[j + 2] == f[k + 1]);
                assert(t[j + 3] == f[k + 2]);
                assert(f.subrange(k, k + 3) =~= fence());
                if k > 0 {
                    assert(f[k - 1] == t[j]);
                }
                assert(f.subrange(k, k + 3) != fence());
            } else {
                assert(t.subrange(j, j + 4)[3 + n - j] == t[3 + n]);
            }
        }
    }
    lemma_find_from(t, closing_fence(), 3);
    assert(closing_at(t) == Some(3 + n)) by {
        let r = closing_at(t);
        if r is Some {
            let k = r->0;
            if k < 3 + n {
                assert(!occurs_at(t, closing_fence(), k));
            }
            if k > 3 + n {
                assert(occurs_at(t, closing_fence(), 3 + n));
            }
        } else {
            assert(occurs_at(t, closing_fence(), 3 + n));
        }
    }
    let x = f.drop_last();
    assert(t.subrange(3, 3 + n) =~= seq!['\n'] + x);
    assert(t.subrange(7 + n, t.len() as int) =~= seq!['\n'] + tail);
    assert((seq!['\n'] + x).subrange(1, n) =~= x);
    assert(trim_start(seq!['\n'] + x) == trim_start(x));
    lemma_trim_white_end(x, '\n');
    assert(x.push('\n') =~= f);
    assert((seq!['\n'] + tail).drop_first() =~= tail);
    assert(skip_newlines(seq!['\n'] + tail) == skip_newlines(tail));
    if b.len() > 0 {
        assert(tail.drop_first() =~= b);
        assert(skip_newlines(tail) == skip_newlines(b));
        assert(skip_newlines(b) == b);
    } else {
        assert(skip_newlines(tail) == b);
    }
    assert(trim(seq!['\n'] + x) == trim(f));
    assert(spec_fenced(t) == Some(Some(fenced_parts(t, 3 + n))));
}

} // verus!
