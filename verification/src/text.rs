//! Character-level text utilities with mathematical specifications.
//!
//! Strings are viewed as `Seq<char>`; every operation here is stated over that view.

use vstd::prelude::*;

verus! {

/// Collects the characters of `s` into a vector.
pub fn chars_of(s: &str) -> (v: Vec<char>)
    ensures
        v@ == s@,
{
    let mut v: Vec<char> = Vec::new();
    let ghost full = s@;
    for c in it: s.chars()
        invariant
            it.seq() == full,
            v@ == it.seq().take(it.index() as int),
    {
        v.push(c);
    }
    v
}

/// Appends one character to a string (std `String::push`).
#[verifier::external_body]
pub(crate) fn push_char(s: &mut String, c: char)
    ensures
        final(s)@ == old(s)@.push(c),
{
    s.push(c);
}

/// Builds a `String` holding exactly the characters of `v`.
pub fn string_of(v: &[char]) -> (s: String)
    ensures
        s@ == v@,
{
    let mut s = String::new();
    let mut i: usize = 0;
    while i < v.len()
        invariant
            i <= v.len(),
            s@ == v@.take(i as int),
        decreases v.len() - i,
    {
        push_char(&mut s, v[i]);
        i += 1;
        assert(s@ =~= v@.take(i as int));
    }
    assert(v@.take(v.len() as int) =~= v@);
    s
}


/// Unicode `White_Space` property, as used by `str::trim` and `split_whitespace`.
pub open spec fn is_white(c: char) -> bool {
    let n = c as u32;
    ||| 9 <= n <= 13
    ||| n == 32
    ||| n == 0x85
    ||| n == 0xA0
    ||| n == 0x1680
    ||| 0x2000 <= n <= 0x200A
    ||| n == 0x2028
    ||| n == 0x2029
    ||| n == 0x202F
    ||| n == 0x205F
    ||| n == 0x3000
}

/// `char::is_whitespace`.
pub fn char_is_white(c: char) -> (b: bool)
    ensures
        b == is_white(c),
{
    let n = c as u32;
    (9 <= n && n <= 13) || n == 32 || n == 0x85 || n == 0xA0 || n == 0x1680 || (0x2000 <= n
        && n <= 0x200A) || n == 0x2028 || n == 0x2029 || n == 0x202F || n == 0x205F || n == 0x3000
}

/// `s` with its leading whitespace removed.
pub open spec fn trim_start(s: Seq<char>) -> Seq<char>
    decreases s.len(),
{
    if s.len() > 0 && is_white(s[0]) {
        trim_start(s.subrange(1, s.len() as int))
    } else {
        s
    }
}

/// `s` with its trailing whitespace removed.
pub open spec fn trim_end(s: Seq<char>) -> Seq<char>
    decreases s.len(),
{
    if s.len() > 0 && is_white(s.last()) {
        trim_end(s.drop_last())
    } else {
        s
    }
}

/// `s` with whitespace removed at both ends (`str::trim`).
pub open spec fn trim(s: Seq<char>) -> Seq<char> {
    trim_end(trim_start(s))
}

/// Index of the first character of `trim_start(s[lo..hi])` inside `s`.
pub fn skip_white(s: &Vec<char>, lo: usize, hi: usize) -> (i: usize)
    requires
        lo <= hi <= s.len(),
    ensures
        lo <= i <= hi,
        trim_start(s@.subrange(lo as int, hi as int)) == s@.subrange(i as int, hi as int),
{
    let mut i = lo;
    while i < hi && char_is_white(s[i])
        invariant
            lo <= i <= hi <= s.len(),
            trim_start(s@.subrange(lo as int, hi as int)) == trim_start(
                s@.subrange(i as int, hi as int),
            ),
        decreases hi - i,
    {
        assert(s@.subrange(i as int, hi as int).subrange(1, (hi - i) as int) =~= s@.subrange(
            i + 1,
            hi as int,
        ));
        i += 1;
    }
    i
}

/// Index just past the last character of `trim_end(s[lo..hi])` inside `s`.
pub fn skip_white_back(s: &Vec<char>, lo: usize, hi: usize) -> (j: usize)
    requires
        lo <= hi <= s.len(),
    ensures
        lo <= j <= hi,
        trim_end(s@.subrange(lo as int, hi as int)) == s@.subrange(lo as int, j as int),
{
    let mut j = hi;
    while j > lo && char_is_white(s[j - 1])
        invariant
            lo <= j <= hi <= s.len(),
            trim_end(s@.subrange(lo as int, hi as int)) == trim_end(
                s@.subrange(lo as int, j as int),
            ),
        decreases j - lo,
    {
        assert(s@.subrange(lo as int, j as int).drop_last() =~= s@.subrange(lo as int, j - 1));
        j -= 1;
    }
    j
}

/// Bounds `(a, b)` of `trim(s[lo..hi])` inside `s`.
pub fn trim_bounds(s: &Vec<char>, lo: usize, hi: usize) -> (r: (usize, usize))
    requires
        lo <= hi <= s.len(),
    ensures
        lo <= r.0 <= r.1 <= hi,
        trim(s@.subrange(lo as int, hi as int)) == s@.subrange(r.0 as int, r.1 as int),
{
    let a = skip_white(s, lo, hi);
    let b = skip_white_back(s, a, hi);
    (a, b)
}

/// `needle` occurs in `hay` starting at index `i`.
pub open spec fn occurs_at(hay: Seq<char>, needle: Seq<char>, i: int) -> bool {
    0 <= i && i + needle.len() <= hay.len() && hay.subrange(i, i + needle.len()) == needle
}

/// `needle` occurs somewhere in `hay` (`str::contains`).
pub open spec fn contains_seq(hay: Seq<char>, needle: Seq<char>) -> bool {
    exists|i: int| occurs_at(hay, needle, i)
}

/// The first index at or after `from` where `needle` occurs, if any (`str::find`).
pub open spec fn find_from(hay: Seq<char>, needle: Seq<char>, from: int) -> Option<int>
    decreases hay.len() + 1 - from,
{
    if from < 0 || from + needle.len() > hay.len() {
        None
    } else if occurs_at(hay, needle, from) {
        Some(from)
    } else {
        find_from(hay, needle, from + 1)
    }
}

/// The first index where `needle` occurs in `hay`.
pub open spec fn find_seq(hay: Seq<char>, needle: Seq<char>) -> Option<int> {
    find_from(hay, needle, 0)
}

/// Whether `needle` occurs at index `i` of `hay`.
pub fn matches_at(hay: &Vec<char>, needle: &Vec<char>, i: usize) -> (b: bool)
    ensures
        b == occurs_at(hay@, needle@, i as int),
{
    if i > hay.len() || needle.len() > hay.len() - i {
        return false;
    }
    let mut k: usize = 0;
    while k < needle.len()
        invariant
            i + needle.len() <= hay.len(),
            k <= needle.len(),
            forall|t: int| 0 <= t < k ==> hay@[i + t] == needle@[t],
        decreases needle.len() - k,
    {
        if hay[i + k] != needle[k] {
            assert(hay@.subrange(i as int, i + needle.len())[k as int] != needle@[k as int]);
            return false;
        }
        k += 1;
    }
    assert(hay@.subrange(i as int, i + needle.len()) =~= needle@);
    true
}

/// Facts about `find_from`: its result is the first occurrence at or after `from`.
pub proof fn lemma_find_from(hay: Seq<char>, needle: Seq<char>, from: int)
    requires
        0 <= from,
    ensures
        match find_from(hay, needle, from) {
            Some(i) => from <= i && occurs_at(hay, needle, i) && forall|j: int|
                from <= j < i ==> !occurs_at(hay, needle, j),
            None => forall|j: int| from <= j ==> !occurs_at(hay, needle, j),
        },
    decreases hay.len() + 1 - from,
{
    if from + needle.len() > hay.len() {
    } else if occurs_at(hay, needle, from) {
    } else {
        lemma_find_from(hay, needle, from + 1);
    }
}

/// First occurrence of `needle` in `hay` at or after `from` (`str::find` on a suffix).
pub fn find_chars(hay: &Vec<char>, needle: &Vec<char>, from: usize) -> (r: Option<usize>)
    ensures
        r == match find_from(hay@, needle@, from as int) {
            Some(i) => Some(i as usize),
            None => None::<usize>,
        },
        r matches Some(i) ==> from <= i && i + needle.len() <= hay.len(),
{
    proof {
        lemma_find_from(hay@, needle@, from as int);
    }
    if from > hay.len() || needle.len() > hay.len() - from {
        return None;
    }
    let mut i = from;
    let last = hay.len() - needle.len();
    loop
        invariant
            from <= i <= last,
            last == hay.len() - needle.len(),
            needle.len() <= hay.len(),
            find_from(hay@, needle@, from as int) == find_from(hay@, needle@, i as int),
        decreases last - i,
    {
        if matches_at(hay, needle, i) {
            return Some(i);
        }
        if i >= last {
            assert(find_from(hay@, needle@, i + 1) == None::<int>);
            return None;
        }
        i += 1;
    }
}

/// `pre` is a prefix of `s`.
pub open spec fn has_prefix(s: Seq<char>, pre: Seq<char>) -> bool {
    pre.len() <= s.len() && s.subrange(0, pre.len() as int) == pre
}

/// `suf` is a suffix of `s`.
pub open spec fn has_suffix(s: Seq<char>, suf: Seq<char>) -> bool {
    suf.len() <= s.len() && s.subrange(s.len() - suf.len(), s.len() as int) == suf
}

/// `s[lo..]` starts with `pre`.
pub fn starts_with_at(s: &Vec<char>, lo: usize, pre: &Vec<char>) -> (b: bool)
    ensures
        b == occurs_at(s@, pre@, lo as int),
{
    matches_at(s, pre, lo)
}

/// The characters `s[lo..hi]` as a `String`.
pub fn substring(s: &Vec<char>, lo: usize, hi: usize) -> (r: String)
    requires
        lo <= hi <= s.len(),
    ensures
        r@ == s@.subrange(lo as int, hi as int),
{
    let mut r = String::new();
    let mut i = lo;
    while i < hi
        invariant
            lo <= i <= hi <= s.len(),
            r@ == s@.subrange(lo as int, i as int),
        decreases hi - i,
    {
        push_char(&mut r, s[i]);
        i += 1;
        assert(r@ =~= s@.subrange(lo as int, i as int));
    }
    r
}

/// Appends the characters of `t` to `s`.
pub fn push_chars(s: &mut String, t: &Vec<char>)
    ensures
        final(s)@ == old(s)@ + t@,
{
    let mut i: usize = 0;
    while i < t.len()
        invariant
            i <= t.len(),
            s@ == old(s)@ + t@.take(i as int),
        decreases t.len() - i,
    {
        push_char(s, t[i]);
        i += 1;
        assert(s@ =~= old(s)@ + t@.take(i as int));
    }
    assert(t@.take(t.len() as int) =~= t@);
}

/// Appends `t` to `s`.
pub fn push_str(s: &mut String, t: &str)
    ensures
        final(s)@ == old(s)@ + t@,
{
    let v = chars_of(t);
    push_chars(s, &v);
}

/// The decimal digit character for `d < 10`.
pub open spec fn digit_char(d: nat) -> char {
    (('0' as u32) + d) as char
}

/// Decimal representation of a natural number, without leading zeros.
pub open spec fn dec(n: nat) -> Seq<char>
    decreases n,
{
    if n < 10 {
        seq![digit_char(n)]
    } else {
        dec(n / 10).push(digit_char(n % 10))
    }
}

/// Decimal representation of an integer, with a leading `-` when negative (`{}` formatting).
pub open spec fn int_dec(n: int) -> Seq<char> {
    if n < 0 {
        seq!['-'] + dec((-n) as nat)
    } else {
        dec(n as nat)
    }
}

fn digit(d: u64) -> (c: char)
    requires
        d < 10,
    ensures
        c == digit_char(d as nat),
{
    if d == 0 { '0' }
    else if d == 1 { '1' }
    else if d == 2 { '2' }
    else if d == 3 { '3' }
    else if d == 4 { '4' }
    else if d == 5 { '5' }
    else if d == 6 { '6' }
    else if d == 7 { '7' }
    else if d == 8 { '8' }
    else { '9' }
}

/// Appends the decimal representation of `n` to `s`.
pub fn push_u64(s: &mut String, n: u64)
    ensures
        final(s)@ == old(s)@ + dec(n as nat),
    decreases n,
{
    if n >= 10 {
        push_u64(s, n / 10);
    }
    let c = digit(n % 10);
    push_char(s, c);
    assert(final(s)@ =~= old(s)@ + dec(n as nat)) by {
        if n >= 10 {
            assert(dec(n as nat) == dec((n / 10) as nat).push(digit_char((n % 10) as nat)));
        }
    }
}

/// Appends the decimal representation of a signed `n` to `s`.
pub fn push_i64(s: &mut String, n: i64)
    ensures
        final(s)@ == old(s)@ + int_dec(n as int),
{
    if n < 0 {
        push_char(s, '-');
        let m: u64 = if n == i64::MIN { 9223372036854775808u64 } else { (-n) as u64 };
        push_u64(s, m);
        assert(final(s)@ =~= old(s)@ + int_dec(n as int));
    } else {
        push_u64(s, n as u64);
    }
}


/// The pieces of `s` between occurrences of `c` (`str::split` with a char pattern).
pub open spec fn split_on(s: Seq<char>, c: char) -> Seq<Seq<char>>
    decreases s.len(),
{
    if s.len() == 0 {
        seq![Seq::<char>::empty()]
    } else {
        let prev = split_on(s.drop_last(), c);
        if s.last() == c {
            prev.push(Seq::<char>::empty())
        } else {
            prev.update(prev.len() - 1, prev.last().push(s.last()))
        }
    }
}

/// `split_on` always yields at least one piece.
pub proof fn lemma_split_on_nonempty(s: Seq<char>, c: char)
    ensures
        split_on(s, c).len() >= 1,
    decreases s.len(),
{
    if s.len() > 0 {
        lemma_split_on_nonempty(s.drop_last(), c);
    }
}

/// Exec version of `split_on` over `s[lo..hi]`.
pub fn split_chars(s: &Vec<char>, lo: usize, hi: usize, c: char) -> (r: Vec<Vec<char>>)
    requires
        lo <= hi <= s.len(),
    ensures
        r.len() == split_on(s@.subrange(lo as int, hi as int), c).len(),
        forall|j: int|
            0 <= j < r.len() ==> #[trigger] r[j]@ == split_on(
                s@.subrange(lo as int, hi as int),
                c,
            )[j],
{
    let mut parts: Vec<Vec<char>> = Vec::new();
    let mut cur: Vec<char> = Vec::new();
    let mut i = lo;
    assert(s@.subrange(lo as int, lo as int) =~= Seq::<char>::empty());
    while i < hi
        invariant
            lo <= i <= hi <= s.len(),
            parts.len() + 1 == split_on(s@.subrange(lo as int, i as int), c).len(),
            forall|j: int|
                0 <= j < parts.len() ==> #[trigger] parts[j]@ == split_on(
                    s@.subrange(lo as int, i as int),
                    c,
                )[j],
            cur@ == split_on(s@.subrange(lo as int, i as int), c).last(),
        decreases hi - i,
    {
        let ghost pre = s@.subrange(lo as int, i as int);
        proof {
            lemma_split_on_nonempty(pre, c);
            assert(s@.subrange(lo as int, i + 1).drop_last() =~= pre);
        }
        if s[i] == c {
            parts.push(cur);
            cur = Vec::new();
        } else {
            cur.push(s[i]);
        }
        i += 1;
    }
    parts.push(cur);
    parts
}

/// Removes one trailing `\r`, if present.
pub open spec fn strip_cr(s: Seq<char>) -> Seq<char> {
    if s.len() > 0 && s.last() == '\r' {
        s.drop_last()
    } else {
        s
    }
}

/// The lines of `s` (`str::lines`): split at `\n`, a `\r` before a `\n` is removed,
/// and a final line terminator does not start an extra empty line.
pub open spec fn lines_of(s: Seq<char>) -> Seq<Seq<char>> {
    let parts = split_on(s, '\n');
    let n = if parts.last().len() == 0 {
        parts.len() - 1
    } else {
        parts.len() as int
    };
    Seq::new(
        n as nat,
        |i: int|
            if i < parts.len() - 1 {
                strip_cr(parts[i])
            } else {
                parts[i]
            },
    )
}

/// Exec version of `lines_of` over `s[lo..hi]`.
pub fn lines(s: &Vec<char>, lo: usize, hi: usize) -> (r: Vec<Vec<char>>)
    requires
        lo <= hi <= s.len(),
    ensures
        r.len() == lines_of(s@.subrange(lo as int, hi as int)).len(),
        forall|j: int|
            0 <= j < r.len() ==> #[trigger] r[j]@ == lines_of(s@.subrange(lo as int, hi as int))[j],
{
    let parts = split_chars(s, lo, hi, '\n');
    let ghost sp = split_on(s@.subrange(lo as int, hi as int), '\n');
    proof {
        lemma_split_on_nonempty(s@.subrange(lo as int, hi as int), '\n');
    }
    let n = if parts[parts.len() - 1].len() == 0 {
        parts.len() - 1
    } else {
        parts.len()
    };
    let mut r: Vec<Vec<char>> = Vec::new();
    let mut i: usize = 0;
    while i < n
        invariant
            n <= parts.len(),
            parts.len() == sp.len(),
            forall|j: int| 0 <= j < parts.len() ==> #[trigger] parts[j]@ == sp[j],
            sp == split_on(s@.subrange(lo as int, hi as int), '\n'),
            n == lines_of(s@.subrange(lo as int, hi as int)).len(),
            i <= n,
            r.len() == i,
            forall|j: int|
                0 <= j < i ==> #[trigger] r[j]@ == lines_of(s@.subrange(lo as int, hi as int))[j],
        decreases n - i,
    {
        let p = &parts[i];
        let mut line: Vec<char> = Vec::new();
        let mut len = p.len();
        if i + 1 < parts.len() && len > 0 && p[len - 1] == '\r' {
            len = len - 1;
        }
        let mut k: usize = 0;
        while k < len
            invariant
                len <= p.len(),
                k <= len,
                line@ == p@.take(k as int),
            decreases len - k,
        {
            line.push(p[k]);
            k += 1;
            assert(line@ =~= p@.take(k as int));
        }
        proof {
            assert(line@ =~= lines_of(s@.subrange(lo as int, hi as int))[i as int]);
        }
        r.push(line);
        i += 1;
    }
    r
}

/// The whitespace-separated words of `s` (`str::split_whitespace`).
pub open spec fn words(s: Seq<char>) -> Seq<Seq<char>>
    decreases s.len(),
{
    if s.len() == 0 {
        Seq::<Seq<char>>::empty()
    } else {
        let prev = words(s.drop_last());
        let c = s.last();
        if is_white(c) {
            prev
        } else if s.len() >= 2 && !is_white(s[s.len() - 2]) {
            prev.update(prev.len() - 1, prev.last().push(c))
        } else {
            prev.push(seq![c])
        }
    }
}

/// A non-empty text ending in a non-white character has at least one word.
pub proof fn lemma_words_nonempty(s: Seq<char>)
    requires
        s.len() > 0,
        !is_white(s.last()),
    ensures
        words(s).len() > 0,
    decreases s.len(),
{
    if s.len() >= 2 && !is_white(s[s.len() - 2]) {
        lemma_words_nonempty(s.drop_last());
    }
}

/// Exec version of `words` over `s[lo..hi]`.
pub fn split_words(s: &Vec<char>, lo: usize, hi: usize) -> (r: Vec<Vec<char>>)
    requires
        lo <= hi <= s.len(),
    ensures
        r.len() == words(s@.subrange(lo as int, hi as int)).len(),
        forall|j: int|
            0 <= j < r.len() ==> #[trigger] r[j]@ == words(s@.subrange(lo as int, hi as int))[j],
{
    let mut r: Vec<Vec<char>> = Vec::new();
    let mut i = lo;
    assert(s@.subrange(lo as int, lo as int) =~= Seq::<char>::empty());
    while i < hi
        invariant
            lo <= i <= hi <= s.len(),
            r.len() == words(s@.subrange(lo as int, i as int)).len(),
            forall|j: int|
                0 <= j < r.len() ==> #[trigger] r[j]@ == words(s@.subrange(lo as int, i as int))[j],
        decreases hi - i,
    {
        let ghost pre = s@.subrange(lo as int, i as int);
        let ghost nxt = s@.subrange(lo as int, i + 1);
        proof {
            assert(nxt.drop_last() =~= pre);
        }
        let c = s[i];
        if char_is_white(c) {
        } else if i > lo && !char_is_white(s[i - 1]) {
            proof {
                assert(pre.last() == s@[i - 1]);
                lemma_words_nonempty(pre);
            }
            let last = r.len() - 1;
            let mut w = r.remove(last);
            w.push(c);
            r.push(w);
            proof {
                assert forall|j: int| 0 <= j < r.len() implies #[trigger] r[j]@ == words(nxt)[j] by {
                    if j < last {
                    } else {
                    }
                }
            }
        } else {
            let mut w: Vec<char> = Vec::new();
            w.push(c);
            r.push(w);
            proof {
                assert(w@ =~= seq![c]);
            }
        }
        i += 1;
    }
    r
}

/// ASCII decimal digit.
pub open spec fn is_digit(c: char) -> bool {
    '0' <= c <= '9'
}

/// The value of a string of decimal digits.
pub open spec fn digits_val(s: Seq<char>) -> nat
    decreases s.len(),
{
    if s.len() == 0 {
        0
    } else {
        digits_val(s.drop_last()) * 10 + ((s.last() as u32) - ('0' as u32)) as nat
    }
}

/// Every character of `s` is a decimal digit.
pub open spec fn all_digits(s: Seq<char>) -> bool {
    forall|i: int| 0 <= i < s.len() ==> is_digit(#[trigger] s[i])
}

/// The unsigned number written in `s`: an optional `+`, then at least one digit.
pub open spec fn parse_nat(s: Seq<char>) -> Option<nat> {
    let d = if s.len() > 0 && s[0] == '+' {
        s.drop_first()
    } else {
        s
    };
    if d.len() > 0 && all_digits(d) {
        Some(digits_val(d))
    } else {
        None
    }
}

/// `str::parse::<u32>`.
pub open spec fn parse_u32(s: Seq<char>) -> Option<u32> {
    match parse_nat(s) {
        Some(n) => if n <= u32::MAX {
            Some(n as u32)
        } else {
            None
        },
        None => None,
    }
}

/// `str::parse::<usize>`.
pub open spec fn parse_usize(s: Seq<char>) -> Option<usize> {
    match parse_nat(s) {
        Some(n) => if n <= usize::MAX {
            Some(n as usize)
        } else {
            None
        },
        None => None,
    }
}

/// The signed number written in `s`: an optional sign, then at least one digit.
pub open spec fn parse_int(s: Seq<char>) -> Option<int> {
    if s.len() > 0 && s[0] == '-' {
        let d = s.drop_first();
        if d.len() > 0 && all_digits(d) {
            Some(-(digits_val(d) as int))
        } else {
            None
        }
    } else {
        match parse_nat(s) {
            Some(n) => Some(n as int),
            None => None,
        }
    }
}

/// `str::parse::<i64>`.
pub open spec fn parse_i64(s: Seq<char>) -> Option<i64> {
    match parse_int(s) {
        Some(n) => if i64::MIN <= n <= i64::MAX {
            Some(n as i64)
        } else {
            None
        },
        None => None,
    }
}

proof fn lemma_digits_prefix_le(s: Seq<char>, k: int)
    requires
        0 <= k <= s.len(),
    ensures
        digits_val(s.take(k)) <= digits_val(s),
    decreases s.len() - k,
{
    if k < s.len() {
        lemma_digits_prefix_le(s, k + 1);
        assert(s.take(k + 1).drop_last() =~= s.take(k));
    } else {
        assert(s.take(k) =~= s);
    }
}

/// Parses all digits of `s[lo..hi]`; `None` when empty, a non-digit occurs, or the value
/// exceeds `max`.
fn parse_digits(s: &Vec<char>, lo: usize, hi: usize, max: u64) -> (r: Option<u64>)
    requires
        lo <= hi <= s.len(),
        max >= 9,
    ensures
        r == (if hi > lo && all_digits(s@.subrange(lo as int, hi as int)) && digits_val(
            s@.subrange(lo as int, hi as int),
        ) <= max {
            Some(digits_val(s@.subrange(lo as int, hi as int)) as u64)
        } else {
            None::<u64>
        }),
{
    let ghost d = s@.subrange(lo as int, hi as int);
    if hi == lo {
        return None;
    }
    let mut v: u64 = 0;
    let mut i = lo;
    while i < hi
        invariant
            lo <= i <= hi <= s.len(),
            d == s@.subrange(lo as int, hi as int),
            all_digits(d.take(i - lo)),
            v as nat == digits_val(d.take(i - lo)),
            v <= max,
            max >= 9,
        decreases hi - i,
    {
        let c = s[i];
        assert(d.take(i + 1 - lo).drop_last() =~= d.take(i - lo));
        if !('0' <= c && c <= '9') {
            assert(!is_digit(d[i - lo]));
            return None;
        }
        let dv = (c as u32 - '0' as u32) as u64;
        if v > (max - dv) / 10 {
            proof {
                assert(digits_val(d.take(i + 1 - lo)) > max) by (nonlinear_arith)
                    requires
                        digits_val(d.take(i + 1 - lo)) == v * 10 + dv,
                        v > (max - dv) / 10,
                        dv <= 9,
                ;
                lemma_digits_prefix_le(d, i + 1 - lo);
            }
            return None;
        }
        proof {
            assert(v * 10 + dv <= max) by (nonlinear_arith)
                requires
                    v <= (max - dv) / 10,
                    dv <= max,
            ;
        }
        v = v * 10 + dv;
        i += 1;
    }
    assert(d.take(hi - lo) =~= d);
    Some(v)
}


/// The decimal text of `n` reads back as `n`: it is non-empty, made of digits, and its
/// value is `n`.
pub proof fn lemma_dec_digits(n: nat)
    ensures
        dec(n).len() > 0,
        all_digits(dec(n)),
        digits_val(dec(n)) == n,
        is_digit(dec(n)[0]),
    decreases n,
{
    let d = n % 10;
    assert((digit_char(d) as u32) == ('0' as u32) + d);
    if n >= 10 {
        lemma_dec_digits(n / 10);
        let s = dec(n);
        assert(s.drop_last() =~= dec(n / 10));
        assert(s[0] == dec(n / 10)[0]);
        assert(s.last() == digit_char(d));
        assert(digits_val(s) == digits_val(s.drop_last()) * 10 + ((s.last() as u32) - ('0' as u32)) as nat);
        assert(digits_val(s) == digits_val(dec(n / 10)) * 10 + d);
        assert(n == (n / 10) * 10 + d);
    } else {
        let s = dec(n);
        assert(s.drop_last() =~= Seq::<char>::empty());
        assert(digits_val(s) == digits_val(s.drop_last()) * 10 + ((s.last() as u32) - ('0' as u32)) as nat);
    }
}

/// `parse_nat` inverts `dec`.
pub proof fn lemma_parse_dec(n: nat)
    ensures
        parse_nat(dec(n)) == Some(n),
{
    lemma_dec_digits(n);
}

/// `s[lo..hi].parse::<u64>()`, bounded by `max`: the shared core of the unsigned parsers.
fn parse_unsigned(s: &Vec<char>, lo: usize, hi: usize, max: u64) -> (r: Option<u64>)
    requires
        lo <= hi <= s.len(),
        max >= 9,
    ensures
        r == (match parse_nat(s@.subrange(lo as int, hi as int)) {
            Some(n) => if n <= max {
                Some(n as u64)
            } else {
                None::<u64>
            },
            None => None::<u64>,
        }),
{
    let ghost t = s@.subrange(lo as int, hi as int);
    if hi > lo && s[lo] == '+' {
        assert(t.drop_first() =~= s@.subrange(lo + 1, hi as int));
        parse_digits(s, lo + 1, hi, max)
    } else {
        parse_digits(s, lo, hi, max)
    }
}

/// `s[lo..hi].parse::<u32>()`.
pub fn parse_u32_at(s: &Vec<char>, lo: usize, hi: usize) -> (r: Option<u32>)
    requires
        lo <= hi <= s.len(),
    ensures
        r == parse_u32(s@.subrange(lo as int, hi as int)),
{
    match parse_unsigned(s, lo, hi, 0xffff_ffff) {
        Some(v) => Some(v as u32),
        None => None,
    }
}

/// `s[lo..hi].parse::<usize>()`.
pub fn parse_usize_at(s: &Vec<char>, lo: usize, hi: usize) -> (r: Option<usize>)
    requires
        lo <= hi <= s.len(),
    ensures
        r == parse_usize(s@.subrange(lo as int, hi as int)),
{
    let max: u64 = if usize::MAX as u64 >= 0xffff_ffff_ffff_ffff {
        0xffff_ffff_ffff_ffff
    } else {
        usize::MAX as u64
    };
    match parse_unsigned(s, lo, hi, max) {
        Some(v) => Some(v as usize),
        None => None,
    }
}

/// `s[lo..hi].parse::<i64>()`.
pub fn parse_i64_at(s: &Vec<char>, lo: usize, hi: usize) -> (r: Option<i64>)
    requires
        lo <= hi <= s.len(),
    ensures
        r == parse_i64(s@.subrange(lo as int, hi as int)),
{
    let ghost t = s@.subrange(lo as int, hi as int);
    if hi > lo && s[lo] == '-' {
        assert(t.drop_first() =~= s@.subrange(lo + 1, hi as int));
        match parse_digits(s, lo + 1, hi, 9223372036854775808u64) {
            Some(v) => {
                if v == 9223372036854775808u64 {
                    Some(i64::MIN)
                } else {
                    Some(-(v as i64))
                }
            },
            None => {
                proof {
                    if hi > lo + 1 && all_digits(s@.subrange(lo + 1, hi as int)) {
                        assert(digits_val(s@.subrange(lo + 1, hi as int)) > 9223372036854775808u64);
                    }
                }
                None
            },
        }
    } else {
        match parse_unsigned(s, lo, hi, 0x7fff_ffff_ffff_ffff) {
            Some(v) => Some(v as i64),
            None => None,
        }
    }
}

/// Characters of a whole `&str` parsed as a `u32`.
pub fn parse_u32_str(s: &str) -> (r: Option<u32>)
    ensures
        r == parse_u32(s@),
{
    let v = chars_of(s);
    assert(v@.subrange(0, v.len() as int) =~= v@);
    parse_u32_at(&v, 0, v.len())
}


/// What `str::to_lowercase` returns: the Unicode lowercase mapping of a text.
pub uninterp spec fn lowercase(s: Seq<char>) -> Seq<char>;

/// What `str::to_uppercase` returns: the Unicode uppercase mapping of a text.
pub uninterp spec fn uppercase(s: Seq<char>) -> Seq<char>;

/// `str::to_lowercase`: the result is the Unicode lowercase mapping of `s`, a function of
/// `s` alone.
#[verifier::external_body]
pub(crate) fn to_lowercase(s: &str) -> (r: String)
    ensures
        r@ == lowercase(s@),
{
    s.to_lowercase()
}

/// `str::to_uppercase`: the result is the Unicode uppercase mapping of `s`, a function of
/// `s` alone.
#[verifier::external_body]
pub(crate) fn to_uppercase(s: &str) -> (r: String)
    ensures
        r@ == uppercase(s@),
{
    s.to_uppercase()
}

/// Equality of two texts.
pub fn str_eq(a: &str, b: &str) -> (r: bool)
    ensures
        r == (a@ == b@),
{
    let x = chars_of(a);
    let y = chars_of(b);
    if x.len() != y.len() {
        return false;
    }
    let mut i: usize = 0;
    while i < x.len()
        invariant
            x@ == a@,
            y@ == b@,
            x.len() == y.len(),
            i <= x.len(),
            forall|k: int| 0 <= k < i ==> x@[k] == y@[k],
        decreases x.len() - i,
    {
        if x[i] != y[i] {
            assert(x@[i as int] != y@[i as int]);
            return false;
        }
        i += 1;
    }
    assert(x@ =~= y@);
    true
}

/// `needle` occurs in `hay` (`str::contains`).
pub fn str_contains(hay: &str, needle: &str) -> (r: bool)
    ensures
        r == contains_seq(hay@, needle@),
{
    let h = chars_of(hay);
    let n = chars_of(needle);
    proof {
        lemma_find_from(h@, n@, 0);
    }
    find_chars(&h, &n, 0).is_some()
}

/// `s` starts with `pre` (`str::starts_with`).
pub fn str_starts_with(s: &str, pre: &str) -> (r: bool)
    ensures
        r == has_prefix(s@, pre@),
{
    let a = chars_of(s);
    let b = chars_of(pre);
    let r = matches_at(&a, &b, 0);
    proof {
        if has_prefix(s@, pre@) {
            assert(occurs_at(a@, b@, 0));
        }
    }
    r
}

/// `s` ends with `suf` (`str::ends_with`).
pub fn str_ends_with(s: &str, suf: &str) -> (r: bool)
    ensures
        r == has_suffix(s@, suf@),
{
    let a = chars_of(s);
    let b = chars_of(suf);
    if b.len() > a.len() {
        return false;
    }
    matches_at(&a, &b, a.len() - b.len())
}

/// An owned copy of `s`.
pub fn to_owned_string(s: &str) -> (r: String)
    ensures
        r@ == s@,
{
    let v = chars_of(s);
    string_of(v.as_slice())
}

/// Lexicographic order on texts by character code (the order of `str`'s `Ord`).
pub open spec fn seq_lt(a: Seq<char>, b: Seq<char>) -> bool
    decreases a.len(),
{
    if a.len() == 0 {
        b.len() > 0
    } else if b.len() == 0 {
        false
    } else if a[0] != b[0] {
        a[0] < b[0]
    } else {
        seq_lt(a.drop_first(), b.drop_first())
    }
}

/// Three-way lexicographic comparison: -1, 0 or 1.
pub fn compare_str(a: &str, b: &str) -> (r: i8)
    ensures
        r == -1 <==> seq_lt(a@, b@),
        r == 0 <==> a@ == b@,
        r == 1 <==> seq_lt(b@, a@),
        -1 <= r <= 1,
{
    let x = chars_of(a);
    let y = chars_of(b);
    let mut i: usize = 0;
    assert(x@.skip(0) =~= x@);
    assert(y@.skip(0) =~= y@);
    while i < x.len() && i < y.len() && x[i] == y[i]
        invariant
            x@ == a@,
            y@ == b@,
            i <= x.len(),
            i <= y.len(),
            x@.subrange(0, i as int) == y@.subrange(0, i as int),
            seq_lt(x@, y@) == seq_lt(x@.skip(i as int), y@.skip(i as int)),
            seq_lt(y@, x@) == seq_lt(y@.skip(i as int), x@.skip(i as int)),
            (x@ == y@) == (x@.skip(i as int) == y@.skip(i as int)),
        decreases x.len() - i,
    {
        assert(x@.skip(i as int).drop_first() =~= x@.skip(i + 1));
        assert(y@.skip(i as int).drop_first() =~= y@.skip(i + 1));
        assert(x@.subrange(0, i + 1) =~= x@.subrange(0, i as int).push(x@[i as int]));
        assert(y@.subrange(0, i + 1) =~= y@.subrange(0, i as int).push(y@[i as int]));
        proof {
            if x@.skip(i as int) == y@.skip(i as int) {
                assert(x@.skip(i + 1) == y@.skip(i + 1));
            }
            if x@.skip(i + 1) == y@.skip(i + 1) {
                assert(x@.skip(i as int) =~= seq![x@[i as int]] + x@.skip(i + 1));
                assert(y@.skip(i as int) =~= seq![y@[i as int]] + y@.skip(i + 1));
            }
        }
        i += 1;
    }
    if i < x.len() && i < y.len() {
        assert(x@.skip(i as int)[0] != y@.skip(i as int)[0]);
        let xi = x[i];
        let yi = y[i];
        if xi < yi {
            assert(seq_lt(x@.skip(i as int), y@.skip(i as int)));
            assert(!seq_lt(y@.skip(i as int), x@.skip(i as int)));
            -1
        } else {
            assert(seq_lt(y@.skip(i as int), x@.skip(i as int)));
            assert(!seq_lt(x@.skip(i as int), y@.skip(i as int)));
            1
        }
    } else if i < x.len() {
        assert(y@.skip(i as int).len() == 0);
        assert(x@.skip(i as int) != y@.skip(i as int));
        1
    } else if i < y.len() {
        assert(x@.skip(i as int).len() == 0);
        assert(x@.skip(i as int) != y@.skip(i as int));
        -1
    } else {
        assert(x@.skip(i as int) =~= y@.skip(i as int));
        assert(x@ =~= x@.subrange(0, i as int));
        assert(y@ =~= y@.subrange(0, i as int));
        0
    }
}


/// `seq_lt` is irreflexive.
pub proof fn lemma_seq_lt_irrefl(a: Seq<char>)
    ensures
        !seq_lt(a, a),
    decreases a.len(),
{
    if a.len() > 0 {
        lemma_seq_lt_irrefl(a.drop_first());
    }
}

/// `seq_lt` is transitive.
pub proof fn lemma_seq_lt_trans(a: Seq<char>, b: Seq<char>, c: Seq<char>)
    requires
        seq_lt(a, b),
        seq_lt(b, c),
    ensures
        seq_lt(a, c),
    decreases a.len(),
{
    if a.len() > 0 && b.len() > 0 && c.len() > 0 {
        if a[0] == b[0] && b[0] == c[0] {
            lemma_seq_lt_trans(a.drop_first(), b.drop_first(), c.drop_first());
        }
    }
}

/// Distinct texts are ordered one way or the other, and never both ways.
pub proof fn lemma_seq_lt_total(a: Seq<char>, b: Seq<char>)
    ensures
        a != b ==> seq_lt(a, b) || seq_lt(b, a),
        !(seq_lt(a, b) && seq_lt(b, a)),
    decreases a.len(),
{
    if a.len() > 0 && b.len() > 0 {
        lemma_seq_lt_total(a.drop_first(), b.drop_first());
        if a[0] == b[0] && a != b {
            assert(a =~= seq![a[0]] + a.drop_first());
            assert(b =~= seq![b[0]] + b.drop_first());
        }
    } else if a.len() == 0 && b.len() == 0 {
        assert(a =~= b);
    }
}


/// The texts of `list` joined with `sep` between consecutive entries (`[T]::join`).
pub open spec fn join_seqs(list: Seq<Seq<char>>, sep: Seq<char>) -> Seq<char>
    decreases list.len(),
{
    if list.len() == 0 {
        Seq::<char>::empty()
    } else if list.len() == 1 {
        list[0]
    } else {
        join_seqs(list.drop_last(), sep) + sep + list.last()
    }
}

/// Joins the strings of `list` with `sep`.
pub fn join_strings(list: &[String], sep: &str) -> (r: String)
    ensures
        r@ == join_seqs(list@.map_values(|s: String| s@), sep@),
{
    let ghost lv = list@.map_values(|s: String| s@);
    let mut r = String::new();
    let mut i: usize = 0;
    while i < list.len()
        invariant
            i <= list.len(),
            lv == list@.map_values(|s: String| s@),
            r@ == join_seqs(lv.take(i as int), sep@),
        decreases list.len() - i,
    {
        assert(lv.take(i + 1).drop_last() =~= lv.take(i as int));
        if i > 0 {
            push_str(&mut r, sep);
        } else {
            assert(lv.take(0) =~= Seq::<Seq<char>>::empty());
        }
        push_str(&mut r, list[i].as_str());
        proof {
            if i == 0 {
                assert(r@ =~= lv.take(1)[0]);
            }
        }
        i += 1;
    }
    assert(lv.take(list.len() as int) =~= lv);
    r
}


/// The last index at or below `i` where `needle` occurs in `hay`, if any.
pub open spec fn rfind_from(hay: Seq<char>, needle: Seq<char>, i: int) -> Option<int>
    decreases i + 1,
{
    if i < 0 {
        None
    } else if occurs_at(hay, needle, i) {
        Some(i)
    } else {
        rfind_from(hay, needle, i - 1)
    }
}

/// The last index where `needle` occurs in `hay` (`str::rfind`).
pub open spec fn rfind_seq(hay: Seq<char>, needle: Seq<char>) -> Option<int> {
    rfind_from(hay, needle, hay.len() as int)
}

/// Last occurrence of `needle` in `hay`.
pub fn rfind_chars(hay: &Vec<char>, needle: &Vec<char>) -> (r: Option<usize>)
    ensures
        match r {
            Some(i) => rfind_seq(hay@, needle@) == Some(i as int),
            None => rfind_seq(hay@, needle@) is None,
        },
        r matches Some(i) ==> i + needle.len() <= hay.len(),
{
    let mut i = hay.len();
    loop
        invariant
            i <= hay.len(),
            rfind_seq(hay@, needle@) == rfind_from(hay@, needle@, i as int),
        decreases i,
    {
        if matches_at(hay, needle, i) {
            return Some(i);
        }
        if i == 0 {
            assert(rfind_from(hay@, needle@, -1) == None::<int>);
            return None;
        }
        i -= 1;
    }
}


/// Pieces of `s` between non-overlapping occurrences of `sep`, from the left
/// (`str::split` with a string pattern).
pub open spec fn split_str(s: Seq<char>, sep: Seq<char>) -> Seq<Seq<char>>
    decreases s.len(),
{
    if sep.len() == 0 {
        seq![s]
    } else {
        match find_seq(s, sep) {
            Some(i) => if 0 <= i && i + sep.len() <= s.len() {
                seq![s.subrange(0, i)] + split_str(s.subrange(i + sep.len(), s.len() as int), sep)
            } else {
                seq![s]
            },
            None => seq![s],
        }
    }
}

/// Exec version of `split_str` for a non-empty separator.
pub fn split_str_chars(s: &Vec<char>, sep: &Vec<char>) -> (r: Vec<Vec<char>>)
    requires
        sep.len() > 0,
    ensures
        r.len() == split_str(s@, sep@).len(),
        forall|j: int| 0 <= j < r.len() ==> #[trigger] r[j]@ == split_str(s@, sep@)[j],
{
    let mut out: Vec<Vec<char>> = Vec::new();
    let mut lo: usize = 0;
    assert(s@.subrange(0, s.len() as int) =~= s@);
    assert(out@.map_values(|v: Vec<char>| v@) + split_str(s@, sep@) =~= split_str(s@, sep@));
    loop
        invariant
            sep.len() > 0,
            lo <= s.len(),
            split_str(s@, sep@) == out@.map_values(|v: Vec<char>| v@) + split_str(
                s@.subrange(lo as int, s.len() as int),
                sep@,
            ),
        decreases s.len() - lo,
    {
        let ghost t = s@.subrange(lo as int, s.len() as int);
        proof {
            lemma_find_from(s@, sep@, lo as int);
            lemma_find_from(t, sep@, 0);
            assert forall|q: int| 0 <= q implies occurs_at(t, sep@, q) == occurs_at(
                s@,
                sep@,
                lo + q,
            ) by {
                if q + sep.len() <= t.len() {
                    assert(t.subrange(q, q + sep.len()) =~= s@.subrange(lo + q, lo + q + sep.len()));
                }
            }
        }
        match find_chars(s, sep, lo) {
            Some(i) => {
                proof {
                    let fi = find_seq(t, sep@);
                    assert(fi == Some(i - lo)) by {
                        assert(occurs_at(s@, sep@, i as int));
                        assert(occurs_at(t, sep@, i - lo));
                        if fi is Some {
                            let q0 = fi->0;
                            assert(occurs_at(t, sep@, q0));
                            assert(occurs_at(s@, sep@, lo + q0));
                            assert(fi->0 == i - lo);
                        } else {
                            assert(occurs_at(t, sep@, i - lo));
                        }
                    }
                    assert(t.subrange(0, i - lo) =~= s@.subrange(lo as int, i as int));
                    assert(t.subrange(i - lo + sep.len(), t.len() as int) =~= s@.subrange(
                        i + sep.len(),
                        s.len() as int,
                    ));
                }
                let mut piece: Vec<char> = Vec::new();
                let mut q = lo;
                while q < i
                    invariant
                        lo <= q <= i <= s.len(),
                        piece@ == s@.subrange(lo as int, q as int),
                    decreases i - q,
                {
                    piece.push(s[q]);
                    q += 1;
                    assert(piece@ =~= s@.subrange(lo as int, q as int));
                }
                let ghost before = out@.map_values(|v: Vec<char>| v@);
                out.push(piece);
                assert(out@.map_values(|v: Vec<char>| v@) =~= before.push(s@.subrange(
                    lo as int,
                    i as int,
                )));
                lo = i + sep.len();
            },
            None => {
                proof {
                    assert(find_seq(t, sep@) is None) by {
                        if find_seq(t, sep@) is Some {
                            let q = find_seq(t, sep@)->0;
                            assert(occurs_at(s@, sep@, lo + q));
                        }
                    }
                }
                let mut piece: Vec<char> = Vec::new();
                let mut q = lo;
                while q < s.len()
                    invariant
                        lo <= q <= s.len(),
                        piece@ == s@.subrange(lo as int, q as int),
                    decreases s.len() - q,
                {
                    piece.push(s[q]);
                    q += 1;
                    assert(piece@ =~= s@.subrange(lo as int, q as int));
                }
                let ghost before = out@.map_values(|v: Vec<char>| v@);
                out.push(piece);
                assert(out@.map_values(|v: Vec<char>| v@) =~= before.push(t));
                assert(split_str(s@, sep@) =~= out@.map_values(|v: Vec<char>| v@));
                return out;
            },
        }
    }
}

/// Joins `parts[from..]` with the character `sep` between pieces.
pub fn join_char_pieces(parts: &Vec<Vec<char>>, from: usize, sep: char) -> (r: Vec<char>)
    requires
        from <= parts.len(),
    ensures
        r@ == join_seqs(parts@.map_values(|v: Vec<char>| v@).subrange(from as int, parts.len() as int), seq![sep]),
{
    let ghost pv = parts@.map_values(|v: Vec<char>| v@);
    let mut r: Vec<char> = Vec::new();
    let mut i = from;
    assert(pv.subrange(from as int, from as int) =~= Seq::<Seq<char>>::empty());
    while i < parts.len()
        invariant
            from <= i <= parts.len(),
            pv == parts@.map_values(|v: Vec<char>| v@),
            r@ == join_seqs(pv.subrange(from as int, i as int), seq![sep]),
        decreases parts.len() - i,
    {
        let ghost r0 = r@;
        assert(pv.subrange(from as int, i + 1).drop_last() =~= pv.subrange(from as int, i as int));
        if i > from {
            r.push(sep);
        }
        let p = &parts[i];
        let mut q: usize = 0;
        let ghost r1 = r@;
        while q < p.len()
            invariant
                q <= p.len(),
                r@ == r1 + p@.take(q as int),
            decreases p.len() - q,
        {
            r.push(p[q]);
            q += 1;
            assert(r@ =~= r1 + p@.take(q as int));
        }
        assert(p@.take(p.len() as int) =~= p@);
        proof {
            if i > from {
                assert(r@ =~= r0 + seq![sep] + pv[i as int]);
            } else {
                assert(r@ =~= pv.subrange(from as int, i + 1)[0]);
            }
        }
        i += 1;
    }
    r
}


/// `base` joined with the relative component `comp` by `/` (as `Path::join` does for a
/// relative component).
pub open spec fn join_path(base: Seq<char>, comp: Seq<char>) -> Seq<char> {
    if base.len() == 0 {
        comp
    } else if base.last() == '/' {
        base + comp
    } else {
        base + seq!['/'] + comp
    }
}

/// Joins a relative path component onto `base`.
pub fn path_join(base: &str, comp: &str) -> (r: String)
    ensures
        r@ == join_path(base@, comp@),
{
    let b = chars_of(base);
    let mut r = string_of(b.as_slice());
    if b.len() > 0 && b[b.len() - 1] != '/' {
        push_char(&mut r, '/');
    }
    push_str(&mut r, comp);
    r
}

} // verus!
