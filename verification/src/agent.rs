//! The braid instructions block kept in an agent instructions file (`AGENTS.md`): its
//! text, the version and mode read back from a file, and its insertion into a file.

use vstd::prelude::*;

use crate::config::Config;
use crate::error::BrdError;
use crate::text::{
    chars_of, contains_seq, dec, find_chars, find_from, find_seq, has_prefix, has_suffix,
    join_path, lemma_find_from, parse_u32, parse_u32_at, path_join, push_char, push_str,
    push_u64, split_chars, split_on, str_contains, str_eq, str_starts_with, string_of,
    substring, trim, trim_bounds, occurs_at, trim_start, trim_end,
};

verus! {

/// Current version of the agents block.
pub const AGENTS_BLOCK_VERSION: u32 = 7;

/// The marker that opens the block; the version follows it on the same line.
pub const BLOCK_START: &'static str = "<!-- braid:agents:start";

/// The marker that closes the block.
pub const BLOCK_END: &'static str = "<!-- braid:agents:end -->";

/// The mode-independent part of the block.
pub const STATIC_BLOCK: &'static str = r#"## braid workflow

this repo uses braid (`brd`) for issue tracking. issues live in `.braid/issues/` as markdown files.

basic flow:
1. `brd start` — claim the next ready issue
2. do the work, commit as usual
3. `brd done <id>` — mark the issue complete
4. ship your work:
   - in a worktree: `brd agent merge` (rebase + ff-merge to main)
   - on main: just `git push` (you're already there)

useful commands:
- `brd ls` — list all issues
- `brd ready` — show issues with no unresolved dependencies
- `brd show <id>` — view issue details (shows deps and dependents)
- `brd show <id> --context` — view issue with full content of related issues
- `brd config` — show current workflow configuration

**tip:** before starting work, use `brd show <id> --context` to see the issue plus all its dependencies and dependents in one view.

## working on main vs in a worktree

**quick check — am i in a worktree?**

```bash
cat .braid/agent.toml 2>/dev/null && echo "yes, worktree" || echo "no, main"
```

**if you're in a worktree (feature branch):**
- `brd start` handles syncing automatically
- use `brd agent merge` to ship (rebase + ff-merge to main)
- if you see schema mismatch errors, rebase onto latest main

**if you're on main:**
- `brd start` syncs and claims
- after `brd done`, just `git push` your code commits
- no `brd agent merge` needed — you're already on main

## design and meta issues

**design issues** (`type: design`) require human collaboration:
- don't close autonomously — discuss with human first
- research options, write up trade-offs in the issue body
- produce output before closing (implementation issues or a plan)
- only mark done after human approves

**meta issues** (`type: meta`) are tracking issues:
- group related work under a parent issue
- show progress as "done/total" in `brd ls`
- typically not picked up directly — work on the child issues instead"#;

/// The sync section for issues-branch mode, before the branch name.
pub const SYNC_BRANCH_HEAD: &'static str = r#"## syncing issues (issues-branch mode)

this repo uses **issues-branch** — issues live on the `"#;

/// The sync section for issues-branch mode, after the branch name.
pub const SYNC_BRANCH_TAIL: &'static str = r#"` branch in a shared worktree.

**how it works:**
- all local agents see issue changes instantly (shared filesystem)
- `brd start` and `brd done` write to the shared worktree automatically
- no manual commits needed for issue state changes

**remote sync:**
- run `brd sync` to push issue changes to the remote
- run `brd sync` to pull others' issue changes

**changing settings:**
- `brd config` — show current config
- `brd config issues-branch --clear` — disable issues-branch"#;

/// The sync section when issues live with the code.
pub const SYNC_WITH_CODE: &'static str = r#"## syncing issues (issues with code)

this repo stores issues **with code** — issues live in `.braid/issues/` and sync via git.

**how it works:**
- `brd start` auto-syncs: fetches, rebases, claims, commits, and pushes
- `brd done` marks complete and auto-pushes (if auto_push enabled)
- issue changes flow through your normal git workflow

**in a worktree (feature branch):**
```bash
brd done <id>        # marks done, auto-pushes issue state
brd agent merge      # ship code to main (rebase + ff-merge)
```

**on main:**
```bash
brd done <id>        # marks done, auto-pushes issue state
git push             # push your code commits
```

**changing settings:**
- `brd config` — show current config
- `brd config issues-branch <name>` — enable issues-branch for multi-agent setups"#;

/// The header of a newly created instructions file.
pub const NEW_FILE_HEADER: &'static str = "# Instructions for AI agents\n\n";

/// The sync section for a configuration.
pub open spec fn spec_sync_section(config: Config) -> Seq<char> {
    match config.issues_branch {
        Some(b) => SYNC_BRANCH_HEAD@ + b@ + SYNC_BRANCH_TAIL@,
        None => SYNC_WITH_CODE@,
    }
}

/// The first line of the block: `<!-- braid:agents:start v<N> -->`.
pub open spec fn block_first_line(version: u32) -> Seq<char> {
    BLOCK_START@ + seq![' ', 'v'] + dec(version as nat) + seq![' ', '-', '-', '>']
}

/// The whole block for a configuration.
pub open spec fn spec_block(config: Config) -> Seq<char> {
    block_first_line(AGENTS_BLOCK_VERSION) + seq!['\n'] + STATIC_BLOCK@ + seq!['\n', '\n']
        + spec_sync_section(config) + seq!['\n'] + BLOCK_END@
}

/// The static part of the block.
pub fn generate_static_block() -> (r: String)
    ensures
        r@ == STATIC_BLOCK@,
{
    let mut r = String::new();
    push_str(&mut r, STATIC_BLOCK);
    r
}

/// The sync section, which depends on whether issues live on their own branch.
pub fn generate_sync_section(config: &Config) -> (r: String)
    ensures
        r@ == spec_sync_section(*config),
{
    let mut r = String::new();
    match &config.issues_branch {
        Some(b) => {
            push_str(&mut r, SYNC_BRANCH_HEAD);
            push_str(&mut r, b.as_str());
            push_str(&mut r, SYNC_BRANCH_TAIL);
        },
        None => {
            push_str(&mut r, SYNC_WITH_CODE);
        },
    }
    r
}

/// The complete agents block for a configuration.
pub fn generate_block(config: &Config) -> (r: String)
    ensures
        r@ == spec_block(*config),
{
    let static_block = generate_static_block();
    let sync_section = generate_sync_section(config);
    let mut r = String::new();
    push_str(&mut r, BLOCK_START);
    push_str(&mut r, " v");
    push_u64(&mut r, AGENTS_BLOCK_VERSION as u64);
    push_str(&mut r, " -->\n");
    push_str(&mut r, static_block.as_str());
    push_str(&mut r, "\n\n");
    push_str(&mut r, sync_section.as_str());
    push_char(&mut r, '\n');
    push_str(&mut r, BLOCK_END);
    proof {
        reveal_strlit(" v");
        reveal_strlit(" -->\n");
        reveal_strlit("\n\n");
        assert(r@ =~= spec_block(*config));
    }
    r
}

/// `s` with every trailing occurrence of `pat` removed (`str::trim_end_matches`).
pub open spec fn trim_end_matches(s: Seq<char>, pat: Seq<char>) -> Seq<char>
    decreases s.len(),
{
    if pat.len() > 0 && has_suffix(s, pat) {
        trim_end_matches(s.subrange(0, s.len() - pat.len()), pat)
    } else {
        s
    }
}

/// The version written after `v` in a version text such as `v7 -->`.
pub open spec fn version_of(version_text: Seq<char>) -> Option<u32> {
    if version_text.len() > 0 && version_text[0] == 'v' {
        parse_u32(trim(trim_end_matches(version_text.drop_first(), seq!['-', '-', '>'])))
    } else {
        None
    }
}

/// The version of the first block in `content`: the text after the start marker up to
/// the end of its line, trimmed, read as `v<N> -->`.
pub open spec fn spec_extract_version(content: Seq<char>) -> Option<u32> {
    match find_seq(content, BLOCK_START@) {
        Some(i) => {
            let vs = i + BLOCK_START@.len();
            match find_from(content, seq!['\n'], vs) {
                Some(e) => version_of(trim(content.subrange(vs, e))),
                None => None,
            }
        },
        None => None,
    }
}

/// An occurrence at `i` with none before it (from `from` on) is the first.
proof fn lemma_first_occurrence(hay: Seq<char>, needle: Seq<char>, from: int, i: int)
    requires
        0 <= from <= i,
        occurs_at(hay, needle, i),
        forall|j: int| from <= j < i ==> !occurs_at(hay, needle, j),
    ensures
        find_from(hay, needle, from) == Some(i),
{
    lemma_find_from(hay, needle, from);
}

/// The version read back from a generated block is the version it was generated with:
/// in a file holding `pre`, then the block for any configuration, then anything, the
/// version found is [`AGENTS_BLOCK_VERSION`], provided `pre` holds no `<` (so no marker
/// comes before the block's).
pub proof fn lemma_version_read_back(pre: Seq<char>, config: Config, post: Seq<char>)
    requires
        forall|j: int| 0 <= j < pre.len() ==> pre[j] != '<',
    ensures
        spec_extract_version(pre + spec_block(config) + post) == Some(AGENTS_BLOCK_VERSION),
{
    reveal_strlit("<!-- braid:agents:start");
    let s = pre + spec_block(config) + post;
    let n = pre.len() as int;
    let bs = BLOCK_START@;
    assert(bs.len() == 23);
    assert(dec(7) == seq!['7']);
    let head = block_first_line(AGENTS_BLOCK_VERSION) + seq!['\n'];
    assert(head =~= bs + seq![' ', 'v', '7', ' ', '-', '-', '>', '\n']);
    assert(spec_block(config) =~= head + (STATIC_BLOCK@ + seq!['\n', '\n'] + spec_sync_section(config)
        + seq!['\n'] + BLOCK_END@));
    assert forall|k: int| 0 <= k < 31 implies s[n + k] == head[k] by {
        assert(s[n + k] == spec_block(config)[k]);
    }
    assert(s.subrange(n, n + 23) =~= bs) by {
        assert forall|k: int| 0 <= k < 23 implies s.subrange(n, n + 23)[k] == bs[k] by {
            assert(s[n + k] == head[k]);
        }
    }
    assert forall|j: int| 0 <= j < n implies !occurs_at(s, bs, j) by {
        assert(s[j] == pre[j]);
        if occurs_at(s, bs, j) {
            assert(s.subrange(j, j + 23)[0] == s[j]);
        }
    }
    lemma_first_occurrence(s, bs, 0, n);
    let vs = n + 23;
    let nl = seq!['\n'];
    assert(occurs_at(s, nl, vs + 7)) by {
        assert(s.subrange(vs + 7, vs + 8) =~= nl);
    }
    assert forall|j: int| vs <= j < vs + 7 implies !occurs_at(s, nl, j) by {
        if occurs_at(s, nl, j) {
            assert(s.subrange(j, j + 1)[0] == s[j]);
            assert(s[j] == head[j - n]);
        }
    }
    lemma_first_occurrence(s, nl, vs, vs + 7);
    let t = s.subrange(vs, vs + 7);
    assert(t =~= seq![' ', 'v', '7', ' ', '-', '-', '>']);
    let t1 = seq!['v', '7', ' ', '-', '-', '>'];
    assert(t.subrange(1, t.len() as int) =~= t1);
    assert(trim_start(t1) == t1);
    assert(trim_start(t) == t1);
    assert(trim_end(t1) == t1);
    assert(trim(t) == t1);
    let t2 = seq!['7', ' ', '-', '-', '>'];
    assert(t1.drop_first() =~= t2);
    let arrow = seq!['-', '-', '>'];
    assert(t2.subrange(t2.len() - 3, t2.len() as int) =~= arrow);
    let t3 = seq!['7', ' '];
    assert(t2.subrange(0, t2.len() - 3) =~= t3);
    assert(!has_suffix(t3, arrow));
    assert(trim_end_matches(t3, arrow) == t3);
    assert(trim_end_matches(t2, arrow) == t3);
    assert(trim_start(t3) == t3);
    let t4 = seq!['7'];
    assert(t3.drop_last() =~= t4);
    assert(trim_end(t4) == t4);
    assert(trim_end(t3) == t4);
    assert(trim(t3) == t4);
    assert(crate::text::all_digits(t4));
    assert(t4.drop_last() =~= Seq::<char>::empty());
    assert(crate::text::digits_val(Seq::<char>::empty()) == 0);
    assert(t4.last() == '7');
    assert(('7' as u32) - ('0' as u32) == 7);
    assert(crate::text::digits_val(t4) == crate::text::digits_val(t4.drop_last()) * 10 + ((t4.last() as u32) - ('0' as u32)) as nat);
    assert(crate::text::digits_val(t4) == 7);
    assert(parse_u32(t4) == Some(7u32));
}

/// A block written for an issues branch reads back as local-sync: whatever surrounds it,
/// the mode read from a file holding the block is local-sync.
pub proof fn lemma_branch_block_reads_local_sync(pre: Seq<char>, config: Config, post: Seq<char>)
    requires
        config.issues_branch is Some,
    ensures
        has_local_sync_header(pre + spec_block(config) + post),
{
    reveal_strlit("## syncing issues (issues-branch mode)");
    reveal_strlit("## syncing issues (issues-branch mode)\n\nthis repo uses **issues-branch** — issues live on the `");
    let h = "## syncing issues (issues-branch mode)"@;
    let b = config.issues_branch->0;
    let first = block_first_line(AGENTS_BLOCK_VERSION) + seq!['\n'] + STATIC_BLOCK@ + seq!['\n', '\n'];
    let s = pre + spec_block(config) + post;
    let at: int = (pre.len() + first.len()) as int;
    let hl: int = h.len() as int;
    assert(spec_block(config) =~= first + (SYNC_BRANCH_HEAD@ + b@ + SYNC_BRANCH_TAIL@) + (seq!['\n']
        + BLOCK_END@));
    assert(s.subrange(at, at + hl) =~= h) by {
        assert forall|k: int| 0 <= k < hl implies s.subrange(at, at + hl)[k] == h[k] by {
            assert(s[at + k] == spec_block(config)[first.len() + k]);
            assert(spec_block(config)[first.len() + k] == SYNC_BRANCH_HEAD@[k]);
        }
    }
    assert(occurs_at(s, h, at));
}

/// Bounds of `trim_end_matches(s[lo..hi], "-->")` inside `s`: the end moves back past
/// each trailing arrow.
fn trim_arrows(s: &Vec<char>, lo: usize, hi: usize) -> (j: usize)
    requires
        lo <= hi <= s.len(),
    ensures
        lo <= j <= hi,
        trim_end_matches(s@.subrange(lo as int, hi as int), seq!['-', '-', '>']) == s@.subrange(
            lo as int,
            j as int,
        ),
{
    let mut j = hi;
    while j - lo >= 3 && s[j - 3] == '-' && s[j - 2] == '-' && s[j - 1] == '>'
        invariant
            lo <= j <= hi <= s.len(),
            trim_end_matches(s@.subrange(lo as int, hi as int), seq!['-', '-', '>'])
                == trim_end_matches(s@.subrange(lo as int, j as int), seq!['-', '-', '>']),
        decreases j,
    {
        let ghost t = s@.subrange(lo as int, j as int);
        assert(t.subrange(t.len() - 3, t.len() as int) =~= seq!['-', '-', '>']);
        assert(t.subrange(0, t.len() - 3) =~= s@.subrange(lo as int, j - 3));
        j -= 3;
    }
    proof {
        let t = s@.subrange(lo as int, j as int);
        if t.len() >= 3 && has_suffix(t, seq!['-', '-', '>']) {
            assert(t.subrange(t.len() - 3, t.len() as int)[0] == s@[j - 3]);
            assert(t.subrange(t.len() - 3, t.len() as int)[1] == s@[j - 2]);
            assert(t.subrange(t.len() - 3, t.len() as int)[2] == s@[j - 1]);
        }
    }
    j
}

/// The version of the braid block in `content`, if it has one.
pub fn extract_version(content: &str) -> (r: Option<u32>)
    ensures
        r == spec_extract_version(content@),
{
    let c = chars_of(content);
    let start = chars_of(BLOCK_START);
    let nl = chars_of("\n");
    proof {
        reveal_strlit("\n");
        assert(nl@ =~= seq!['\n']);
        lemma_find_from(c@, start@, 0);
    }
    let start_idx = match find_chars(&c, &start, 0) {
        Some(i) => i,
        None => return None,
    };
    let vs = start_idx + start.len();
    proof {
        lemma_find_from(c@, nl@, vs as int);
    }
    let line_end = match find_chars(&c, &nl, vs) {
        Some(e) => e,
        None => return None,
    };
    let (a, b) = trim_bounds(&c, vs, line_end);
    let ghost vt = c@.subrange(a as int, b as int);
    if a == b || c[a] != 'v' {
        proof {
            if vt.len() > 0 {
                assert(vt[0] == c@[a as int]);
            }
        }
        return None;
    }
    assert(vt.drop_first() =~= c@.subrange(a + 1, b as int));
    let e = trim_arrows(&c, a + 1, b);
    let (p, q) = trim_bounds(&c, a + 1, e);
    parse_u32_at(&c, p, q)
}

/// The sync mode a block is written for.
#[derive(Debug, Clone, Copy, PartialEq, Eq, Structural)]
pub enum AgentsBlockMode {
    GitNative,
    LocalSync,
}

impl AgentsBlockMode {
    /// The name of each mode.
    pub open spec fn spec_text(self) -> Seq<char> {
        match self {
            AgentsBlockMode::GitNative => seq!['g', 'i', 't', '-', 'n', 'a', 't', 'i', 'v', 'e'],
            AgentsBlockMode::LocalSync => seq!['l', 'o', 'c', 'a', 'l', '-', 's', 'y', 'n', 'c'],
        }
    }

    /// The mode's name, as displayed.
    pub fn to_text(&self) -> (r: String)
        ensures
            r@ == self.spec_text(),
    {
        let mut r = String::new();
        match self {
            AgentsBlockMode::GitNative => push_str(&mut r, "git-native"),
            AgentsBlockMode::LocalSync => push_str(&mut r, "local-sync"),
        }
        proof {
            reveal_strlit("git-native");
            reveal_strlit("local-sync");
            assert(r@ =~= self.spec_text());
        }
        r
    }
}

/// Headers that mark an issues-branch (local-sync) block, new and old wording.
pub open spec fn has_local_sync_header(content: Seq<char>) -> bool {
    contains_seq(content, "## syncing issues (issues-branch mode)"@) || contains_seq(
        content,
        "## syncing issues (local-sync mode)"@,
    )
}

/// Headers that mark a block for issues kept with the code, new and old wording.
pub open spec fn has_git_native_header(content: Seq<char>) -> bool {
    contains_seq(content, "## syncing issues (issues with code)"@) || contains_seq(
        content,
        "## syncing issues (git-native mode)"@,
    )
}

/// The mode of a block, read from its sync section header.
pub fn extract_mode(content: &str) -> (r: Option<AgentsBlockMode>)
    ensures
        has_local_sync_header(content@) ==> r == Some(AgentsBlockMode::LocalSync),
        !has_local_sync_header(content@) && has_git_native_header(content@) ==> r == Some(
            AgentsBlockMode::GitNative,
        ),
        !has_local_sync_header(content@) && !has_git_native_header(content@) ==> r is None,
{
    if str_contains(content, "## syncing issues (issues-branch mode)") || str_contains(
        content,
        "## syncing issues (local-sync mode)",
    ) {
        Some(AgentsBlockMode::LocalSync)
    } else if str_contains(content, "## syncing issues (issues with code)") || str_contains(
        content,
        "## syncing issues (git-native mode)",
    ) {
        Some(AgentsBlockMode::GitNative)
    } else {
        None
    }
}

/// A block written for issues kept with the code carries the git-native sync header:
/// whatever surrounds it, a file holding the block has that header.
pub proof fn lemma_code_block_has_git_native_header(pre: Seq<char>, config: Config, post: Seq<char>)
    requires
        config.issues_branch is None,
    ensures
        has_git_native_header(pre + spec_block(config) + post),
{
    reveal_strlit("## syncing issues (issues with code)");
    reveal_strlit(r#"## syncing issues (issues with code)

this repo stores issues **with code** — issues live in `.braid/issues/` and sync via git.

**how it works:**
- `brd start` auto-syncs: fetches, rebases, claims, commits, and pushes
- `brd done` marks complete and auto-pushes (if auto_push enabled)
- issue changes flow through your normal git workflow

**in a worktree (feature branch):**
```bash
brd done <id>        # marks done, auto-pushes issue state
brd agent merge      # ship code to main (rebase + ff-merge)
```

**on main:**
```bash
brd done <id>        # marks done, auto-pushes issue state
git push             # push your code commits
```

**changing settings:**
- `brd config` — show current config
- `brd config issues-branch <name>` — enable issues-branch for multi-agent setups"#);
    let h = "## syncing issues (issues with code)"@;
    let first = block_first_line(AGENTS_BLOCK_VERSION) + seq!['\n'] + STATIC_BLOCK@ + seq!['\n', '\n'];
    let s = pre + spec_block(config) + post;
    let at: int = (pre.len() + first.len()) as int;
    let hl: int = h.len() as int;
    assert(spec_block(config) =~= first + SYNC_WITH_CODE@ + (seq!['\n'] + BLOCK_END@));
    assert(s.subrange(at, at + hl) =~= h) by {
        assert forall|k: int| 0 <= k < hl implies s.subrange(at, at + hl)[k] == h[k] by {
            assert(s[at + k] == spec_block(config)[first.len() + k]);
            assert(spec_block(config)[first.len() + k] == SYNC_WITH_CODE@[k]);
        }
    }
    assert(occurs_at(s, h, at));
}

/// Injecting the block again reports an update: after any injection that succeeded, a
/// second one with the same block finds the block's markers and replaces it.
pub proof fn lemma_reinject_updates(existing: Option<Seq<char>>, config: Config)
    requires
        spec_inject(existing, spec_block(config)) is Some,
    ensures
        ({
            let t = (spec_inject(existing, spec_block(config))->0).1;
            spec_inject(Some(t), spec_block(config)) matches Some((k, _)) && k == InjectResult::Updated
        }),
{
    reveal_strlit("<!-- braid:agents:start");
    reveal_strlit("<!-- braid:agents:end -->");
    let block = spec_block(config);
    let t = (spec_inject(existing, block)->0).1;
    let bs = BLOCK_START@;
    let be = BLOCK_END@;
    assert(bs.len() == 23);
    assert(be.len() == 25);
    let mid = block_first_line(AGENTS_BLOCK_VERSION).subrange(23, block_first_line(AGENTS_BLOCK_VERSION).len() as int)
        + seq!['\n'] + STATIC_BLOCK@ + seq!['\n', '\n'] + spec_sync_section(config) + seq!['\n'];
    assert(block_first_line(AGENTS_BLOCK_VERSION).subrange(0, 23) =~= bs);
    assert(block =~= bs + mid + be);
    // where the block sits in the new text
    let (pre, post) = match existing {
        None => (NEW_FILE_HEADER@, seq!['\n']),
        Some(c) => match find_seq(c, bs) {
            Some(i) => {
                let e = find_from(c, be, i)->0;
                (c.subrange(0, i), c.subrange(e + be.len(), c.len() as int))
            },
            None => {
                let base = if c.len() > 0 && c.last() == '\n' { c } else { c.push('\n') };
                (base + seq!['\n'], seq!['\n'])
            },
        },
    };
    assert(t =~= pre + block + post);
    let p = pre.len() as int;
    let q = p + block.len() - 25;
    assert(occurs_at(t, bs, p)) by {
        assert(t.subrange(p, p + 23) =~= bs) by {
            assert forall|k: int| 0 <= k < 23 implies t.subrange(p, p + 23)[k] == bs[k] by {
                assert(t[p + k] == block[k]);
            }
        }
    }
    assert(occurs_at(t, be, q)) by {
        assert(t.subrange(q, q + 25) =~= be) by {
            assert forall|k: int| 0 <= k < 25 implies t.subrange(q, q + 25)[k] == be[k] by {
                assert(t[q + k] == block[block.len() - 25 + k]);
            }
        }
    }
    lemma_find_from(t, bs, 0);
    let i = find_seq(t, bs)->0;
    assert(i <= p);
    lemma_find_from(t, be, i);
}

/// Every `<` of `x` is followed, inside `x`, by a character other than `!`: no comment
/// marker (`<!--`) starts in `x`.
pub open spec fn lt_safe(x: Seq<char>) -> bool {
    forall|i: int| 0 <= i < x.len() && #[trigger] x[i] == '<' ==> i + 1 < x.len() && x[i + 1] != '!'
}

proof fn lemma_lt_safe_concat(a: Seq<char>, b: Seq<char>)
    requires
        lt_safe(a),
        lt_safe(b),
    ensures
        lt_safe(a + b),
{
    let c = a + b;
    assert forall|i: int| 0 <= i < c.len() && #[trigger] c[i] == '<' implies i + 1 < c.len() && c[i + 1] != '!' by {
        if i < a.len() {
            assert(a[i] == '<');
        } else {
            assert(b[i - a.len()] == '<');
        }
    }
}

#[verifier::rlimit(100)]
proof fn lemma_static_lt_safe()
    ensures
        lt_safe(STATIC_BLOCK@),
{
    reveal_strlit(r#"## braid workflow

this repo uses braid (`brd`) for issue tracking. issues live in `.braid/issues/` as markdown files.

basic flow:
1. `brd start` — claim the next ready issue
2. do the work, commit as usual
3. `brd done <id>` — mark the issue complete
4. ship your work:
   - in a worktree: `brd agent merge` (rebase + ff-merge to main)
   - on main: just `git push` (you're already there)

useful commands:
- `brd ls` — list all issues
- `brd ready` — show issues with no unresolved dependencies
- `brd show <id>` — view issue details (shows deps and dependents)
- `brd show <id> --context` — view issue with full content of related issues
- `brd config` — show current workflow configuration

**tip:** before starting work, use `brd show <id> --context` to see the issue plus all its dependencies and dependents in one view.

## working on main vs in a worktree

**quick check — am i in a worktree?**

```bash
cat .braid/agent.toml 2>/dev/null && echo "yes, worktree" || echo "no, main"
```

**if you're in a worktree (feature branch):**
- `brd start` handles syncing automatically
- use `brd agent merge` to ship (rebase + ff-merge to main)
- if you see schema mismatch errors, rebase onto latest main

**if you're on main:**
- `brd start` syncs and claims
- after `brd done`, just `git push` your code commits
- no `brd agent merge` needed — you're already on main

## design and meta issues

**design issues** (`type: design`) require human collaboration:
- don't close autonomously — discuss with human first
- research options, write up trade-offs in the issue body
- produce output before closing (implementation issues or a plan)
- only mark done after human approves

**meta issues** (`type: meta`) are tracking issues:
- group related work under a parent issue
- show progress as "done/total" in `brd ls`
- typically not picked up directly — work on the child issues instead"#);
}

#[verifier::rlimit(100)]
proof fn lemma_sync_sections_lt_safe()
    ensures
        lt_safe(SYNC_WITH_CODE@),
        lt_safe(SYNC_BRANCH_HEAD@),
        lt_safe(SYNC_BRANCH_TAIL@),
{
    reveal_strlit(r#"## syncing issues (issues with code)

this repo stores issues **with code** — issues live in `.braid/issues/` and sync via git.

**how it works:**
- `brd start` auto-syncs: fetches, rebases, claims, commits, and pushes
- `brd done` marks complete and auto-pushes (if auto_push enabled)
- issue changes flow through your normal git workflow

**in a worktree (feature branch):**
```bash
brd done <id>        # marks done, auto-pushes issue state
brd agent merge      # ship code to main (rebase + ff-merge)
```

**on main:**
```bash
brd done <id>        # marks done, auto-pushes issue state
git push             # push your code commits
```

**changing settings:**
- `brd config` — show current config
- `brd config issues-branch <name>` — enable issues-branch for multi-agent setups"#);
    reveal_strlit(r#"## syncing issues (issues-branch mode)

this repo uses **issues-branch** — issues live on the `"#);
    reveal_strlit(r#"` branch in a shared worktree.

**how it works:**
- all local agents see issue changes instantly (shared filesystem)
- `brd start` and `brd done` write to the shared worktree automatically
- no manual commits needed for issue state changes

**remote sync:**
- run `brd sync` to push issue changes to the remote
- run `brd sync` to pull others' issue changes

**changing settings:**
- `brd config` — show current config
- `brd config issues-branch --clear` — disable issues-branch"#);
}

/// A branch name holds no `<`.
pub open spec fn no_lt(b: Seq<char>) -> bool {
    forall|i: int| 0 <= i < b.len() ==> b[i] != '<'
}

/// The text of the block between its start marker and its end marker holds no comment
/// marker, when the branch name holds no `<`.
proof fn lemma_block_middle_safe(config: Config)
    requires
        match config.issues_branch {
            Some(b) => no_lt(b@),
            None => true,
        },
    ensures
        lt_safe(block_first_line(AGENTS_BLOCK_VERSION).subrange(23, block_first_line(AGENTS_BLOCK_VERSION).len() as int)
            + seq!['\n'] + STATIC_BLOCK@ + seq!['\n', '\n'] + spec_sync_section(config) + seq!['\n']),
{
    reveal_strlit("<!-- braid:agents:start");
    assert(dec(7) == seq!['7']);
    let fl = block_first_line(AGENTS_BLOCK_VERSION);
    let tail = fl.subrange(23, fl.len() as int);
    assert(tail =~= seq![' ', 'v', '7', ' ', '-', '-', '>']);
    assert(lt_safe(tail));
    assert(lt_safe(seq!['\n']));
    assert(lt_safe(seq!['\n', '\n']));
    lemma_static_lt_safe();
    lemma_sync_sections_lt_safe();
    match config.issues_branch {
        Some(b) => {
            assert(lt_safe(b@));
            lemma_lt_safe_concat(SYNC_BRANCH_HEAD@, b@);
            lemma_lt_safe_concat(SYNC_BRANCH_HEAD@ + b@, SYNC_BRANCH_TAIL@);
        },
        None => {},
    }
    lemma_lt_safe_concat(tail, seq!['\n']);
    lemma_lt_safe_concat(tail + seq!['\n'], STATIC_BLOCK@);
    lemma_lt_safe_concat(tail + seq!['\n'] + STATIC_BLOCK@, seq!['\n', '\n']);
    lemma_lt_safe_concat(tail + seq!['\n'] + STATIC_BLOCK@ + seq!['\n', '\n'], spec_sync_section(config));
    lemma_lt_safe_concat(
        tail + seq!['\n'] + STATIC_BLOCK@ + seq!['\n', '\n'] + spec_sync_section(config),
        seq!['\n'],
    );
}

/// In `pre + block + post`, with `block` opening with the start marker, no start marker
/// begins before the block when none lies wholly inside `pre`.
proof fn lemma_no_start_before(t: Seq<char>, pre: Seq<char>, block: Seq<char>, post: Seq<char>)
    requires
        t == pre + block + post,
        block.len() >= 23,
        block.subrange(0, 23) == BLOCK_START@,
        forall|j: int| 0 <= j && j + 23 <= pre.len() ==> !occurs_at(pre, BLOCK_START@, j),
    ensures
        forall|j: int| 0 <= j < pre.len() ==> !occurs_at(t, BLOCK_START@, j),
{
    reveal_strlit("<!-- braid:agents:start");
    let bs = BLOCK_START@;
    let p = pre.len() as int;
    assert(forall|d: int| 1 <= d < 23 ==> bs[d] != '<');
    assert forall|j: int| 0 <= j < p implies !occurs_at(t, bs, j) by {
        if occurs_at(t, bs, j) {
            assert(t.subrange(j, j + 23) == bs);
            if j + 23 > p {
                let d = p - j;
                assert(t.subrange(j, j + 23)[d] == t[p]);
                assert(t[p] == block[0]);
                assert(block.subrange(0, 23)[0] == block[0]);
                assert(bs[0] == '<');
                assert(bs[d] == '<');
            } else {
                assert(pre.subrange(j, j + 23) =~= t.subrange(j, j + 23));
                assert(occurs_at(pre, bs, j));
            }
        }
    }
}

/// In `pre + block + post`, with `block` the start marker, a middle without comment
/// markers and the end marker, no end marker begins inside the block before its own.
proof fn lemma_no_end_inside(t: Seq<char>, pre: Seq<char>, mid: Seq<char>, post: Seq<char>)
    requires
        t == pre + (BLOCK_START@ + mid + BLOCK_END@) + post,
        lt_safe(mid),
    ensures
        forall|k: int| pre.len() <= k < pre.len() + 23 + mid.len() ==> !occurs_at(t, BLOCK_END@, k),
{
    reveal_strlit("<!-- braid:agents:start");
    reveal_strlit("<!-- braid:agents:end -->");
    let bs = BLOCK_START@;
    let be = BLOCK_END@;
    let block = bs + mid + be;
    let p = pre.len() as int;
    assert(forall|d: int| 1 <= d < 23 ==> bs[d] != '<');
    assert(bs[18] != be[18]);
    assert forall|k: int| p <= k < p + 23 + mid.len() implies !occurs_at(t, be, k) by {
        if occurs_at(t, be, k) {
            assert(t.subrange(k, k + 25)[0] == t[k]);
            assert(t.subrange(k, k + 25)[1] == t[k + 1]);
            let o = k - p;
            assert(t[k] == block[o]);
            assert(t[k + 1] == block[o + 1]);
            if o == 0 {
                assert(t.subrange(k, k + 25)[18] == t[k + 18]);
                assert(t[k + 18] == block[18]);
            } else if o < 23 {
                assert(block[o] == bs[o]);
            } else {
                assert(block[o] == mid[o - 23]);
                assert(block[o + 1] == mid[o - 23 + 1]);
            }
        }
    }
}

/// The text before the block after an injection holds no start marker.
proof fn lemma_pre_has_no_start(existing: Option<Seq<char>>, pre: Seq<char>)
    requires
        pre == match existing {
            None => NEW_FILE_HEADER@,
            Some(c) => match find_seq(c, BLOCK_START@) {
                Some(i) => c.subrange(0, i),
                None => (if c.len() > 0 && c.last() == '\n' { c } else { c.push('\n') }) + seq!['\n'],
            },
        },
    ensures
        forall|j: int| 0 <= j && j + 23 <= pre.len() ==> !occurs_at(pre, BLOCK_START@, j),
{
    reveal_strlit("<!-- braid:agents:start");
    reveal_strlit("# Instructions for AI agents\n\n");
    let bs = BLOCK_START@;
    assert(forall|d: int| 0 <= d < 23 ==> bs[d] != '\n');
    assert forall|j: int| 0 <= j && j + 23 <= pre.len() implies !occurs_at(pre, bs, j) by {
        if occurs_at(pre, bs, j) {
            assert(pre.subrange(j, j + 23)[0] == pre[j]);
            match existing {
                None => {
                    assert(NEW_FILE_HEADER@[j] != '<');
                },
                Some(c) => {
                    lemma_find_from(c, bs, 0);
                    if j + 23 <= c.len() {
                        assert(c.subrange(j, j + 23) =~= pre.subrange(j, j + 23));
                        assert(occurs_at(c, bs, j));
                    } else {
                        let k = c.len() - j;
                        assert(pre.subrange(j, j + 23)[k] == pre[j + k]);
                        assert(pre[j + k] == '\n');
                    }
                },
            }
        }
    }
}

/// Injecting the block a second time changes nothing: after any injection that
/// succeeded, injecting the same block again reports an update and gives back the same
/// text. Holds when the issues branch's name holds no `<` (a name holding the end marker
/// would end the block early).
pub proof fn lemma_reinject_keeps_text(existing: Option<Seq<char>>, config: Config)
    requires
        spec_inject(existing, spec_block(config)) is Some,
        match config.issues_branch {
            Some(b) => no_lt(b@),
            None => true,
        },
    ensures
        ({
            let t = (spec_inject(existing, spec_block(config))->0).1;
            spec_inject(Some(t), spec_block(config)) == Some((InjectResult::Updated, t))
        }),
{
    reveal_strlit("<!-- braid:agents:start");
    reveal_strlit("<!-- braid:agents:end -->");
    let block = spec_block(config);
    let t = (spec_inject(existing, block)->0).1;
    let bs = BLOCK_START@;
    let be = BLOCK_END@;
    assert(bs.len() == 23);
    assert(be.len() == 25);
    let fl = block_first_line(AGENTS_BLOCK_VERSION);
    let mid = fl.subrange(23, fl.len() as int) + seq!['\n'] + STATIC_BLOCK@ + seq!['\n', '\n']
        + spec_sync_section(config) + seq!['\n'];
    assert(fl.subrange(0, 23) =~= bs);
    assert(block =~= bs + mid + be);
    assert(block.subrange(0, 23) =~= bs);
    lemma_block_middle_safe(config);
    let (pre, post) = match existing {
        None => (NEW_FILE_HEADER@, seq!['\n']),
        Some(c) => match find_seq(c, bs) {
            Some(i) => {
                let e = find_from(c, be, i)->0;
                (c.subrange(0, i), c.subrange(e + be.len(), c.len() as int))
            },
            None => {
                let base = if c.len() > 0 && c.last() == '\n' { c } else { c.push('\n') };
                (base + seq!['\n'], seq!['\n'])
            },
        },
    };
    assert(t =~= pre + block + post);
    let p = pre.len() as int;
    let q = p + block.len() - 25;
    assert(occurs_at(t, bs, p)) by {
        assert(t.subrange(p, p + 23) =~= bs) by {
            assert forall|k: int| 0 <= k < 23 implies t.subrange(p, p + 23)[k] == bs[k] by {
                assert(t[p + k] == block[k]);
            }
        }
    }
    assert(occurs_at(t, be, q)) by {
        assert(t.subrange(q, q + 25) =~= be) by {
            assert forall|k: int| 0 <= k < 25 implies t.subrange(q, q + 25)[k] == be[k] by {
                assert(t[q + k] == block[block.len() - 25 + k]);
            }
        }
    }
    lemma_pre_has_no_start(existing, pre);
    lemma_no_start_before(t, pre, block, post);
    lemma_first_occurrence(t, bs, 0, p);
    lemma_no_end_inside(t, pre, mid, post);
    lemma_first_occurrence(t, be, p, q);
    assert(t.subrange(0, p) =~= pre);
    assert(t.subrange(q + 25, t.len() as int) =~= post);
    assert(t.subrange(0, p) + block + t.subrange(q + be.len(), t.len() as int) =~= t);
}

/// The block for issues kept with the code holds no local-sync header: at no position do
/// `##` and the `-` of `issues-branch` or the `l` of `local-sync` stand where a local-sync
/// header would have them.
#[verifier::rlimit(100)]
proof fn lemma_code_block_chars(config: Config)
    requires
        config.issues_branch is None,
    ensures
        forall|j: int| 0 <= j && j + 26 <= spec_block(config).len() ==> !(#[trigger] spec_block(config)[j] == '#'
            && spec_block(config)[j + 1] == '#' && (spec_block(config)[j + 25] == '-'
            || spec_block(config)[j + 19] == 'l')),
{
    reveal_strlit("<!-- braid:agents:start");
    reveal_strlit("<!-- braid:agents:end -->");
    reveal_strlit(r#"## braid workflow

this repo uses braid (`brd`) for issue tracking. issues live in `.braid/issues/` as markdown files.

basic flow:
1. `brd start` — claim the next ready issue
2. do the work, commit as usual
3. `brd done <id>` — mark the issue complete
4. ship your work:
   - in a worktree: `brd agent merge` (rebase + ff-merge to main)
   - on main: just `git push` (you're already there)

useful commands:
- `brd ls` — list all issues
- `brd ready` — show issues with no unresolved dependencies
- `brd show <id>` — view issue details (shows deps and dependents)
- `brd show <id> --context` — view issue with full content of related issues
- `brd config` — show current workflow configuration

**tip:** before starting work, use `brd show <id> --context` to see the issue plus all its dependencies and dependents in one view.

## working on main vs in a worktree

**quick check — am i in a worktree?**

```bash
cat .braid/agent.toml 2>/dev/null && echo "yes, worktree" || echo "no, main"
```

**if you're in a worktree (feature branch):**
- `brd start` handles syncing automatically
- use `brd agent merge` to ship (rebase + ff-merge to main)
- if you see schema mismatch errors, rebase onto latest main

**if you're on main:**
- `brd start` syncs and claims
- after `brd done`, just `git push` your code commits
- no `brd agent merge` needed — you're already on main

## design and meta issues

**design issues** (`type: design`) require human collaboration:
- don't close autonomously — discuss with human first
- research options, write up trade-offs in the issue body
- produce output before closing (implementation issues or a plan)
- only mark done after human approves

**meta issues** (`type: meta`) are tracking issues:
- group related work under a parent issue
- show progress as "done/total" in `brd ls`
- typically not picked up directly — work on the child issues instead"#);
    reveal_strlit(r#"## syncing issues (issues with code)

this repo stores issues **with code** — issues live in `.braid/issues/` and sync via git.

**how it works:**
- `brd start` auto-syncs: fetches, rebases, claims, commits, and pushes
- `brd done` marks complete and auto-pushes (if auto_push enabled)
- issue changes flow through your normal git workflow

**in a worktree (feature branch):**
```bash
brd done <id>        # marks done, auto-pushes issue state
brd agent merge      # ship code to main (rebase + ff-merge)
```

**on main:**
```bash
brd done <id>        # marks done, auto-pushes issue state
git push             # push your code commits
```

**changing settings:**
- `brd config` — show current config
- `brd config issues-branch <name>` — enable issues-branch for multi-agent setups"#);
    assert(dec(7) == seq!['7']);
}

/// The block for issues kept with the code reads back as git-native: it has the
/// git-native sync header and neither local-sync header, so the mode read from it is
/// git-native.
pub proof fn lemma_code_block_reads_git_native(config: Config)
    requires
        config.issues_branch is None,
    ensures
        !has_local_sync_header(spec_block(config)),
        has_git_native_header(spec_block(config)),
{
    reveal_strlit("## syncing issues (issues-branch mode)");
    reveal_strlit("## syncing issues (local-sync mode)");
    let b = spec_block(config);
    lemma_code_block_chars(config);
    lemma_code_block_has_git_native_header(Seq::empty(), config, Seq::empty());
    assert(Seq::<char>::empty() + b + Seq::<char>::empty() =~= b);
    let h1 = "## syncing issues (issues-branch mode)"@;
    let h2 = "## syncing issues (local-sync mode)"@;
    assert forall|j: int| !occurs_at(b, h1, j) by {
        if occurs_at(b, h1, j) {
            assert(b.subrange(j, j + 38)[0] == b[j]);
            assert(b.subrange(j, j + 38)[1] == b[j + 1]);
            assert(b.subrange(j, j + 38)[25] == b[j + 25]);
        }
    }
    assert forall|j: int| !occurs_at(b, h2, j) by {
        if occurs_at(b, h2, j) {
            assert(b.subrange(j, j + 35)[0] == b[j]);
            assert(b.subrange(j, j + 35)[1] == b[j + 1]);
            assert(b.subrange(j, j + 35)[19] == b[j + 19]);
        }
    }
}

/// What injecting the block did to the file.
#[derive(Debug, Clone, Copy, PartialEq, Eq, Structural)]
pub enum InjectResult {
    /// created a new file
    Created,
    /// added block to existing file
    Added,
    /// updated existing block
    Updated,
}

/// `found start marker but no end marker in <file>`.
pub open spec fn missing_end_message(file_name: Seq<char>) -> Seq<char> {
    "found start marker but no end marker in "@ + file_name
}

/// The file after injecting `block`: a new file holds a header and the block; a file
/// without a block gets it appended after a blank line; a file with a block has it,
/// from its start marker through the first end marker after it, replaced. `None` when a
/// start marker has no end marker after it.
pub open spec fn spec_inject(existing: Option<Seq<char>>, block: Seq<char>) -> Option<
    (InjectResult, Seq<char>),
> {
    match existing {
        None => Some((InjectResult::Created, NEW_FILE_HEADER@ + block + seq!['\n'])),
        Some(c) => match find_seq(c, BLOCK_START@) {
            Some(i) => match find_from(c, BLOCK_END@, i) {
                Some(e) => Some(
                    (
                        InjectResult::Updated,
                        c.subrange(0, i) + block + c.subrange(e + BLOCK_END@.len(), c.len() as int),
                    ),
                ),
                None => None,
            },
            None => {
                let base = if c.len() > 0 && c.last() == '\n' {
                    c
                } else {
                    c.push('\n')
                };
                Some((InjectResult::Added, base + seq!['\n'] + block + seq!['\n']))
            },
        },
    }
}

/// Injects or updates the agents block in an instructions file, given the file's
/// content (`None` when the file does not exist): what was done and the new content.
pub fn inject_agents_block(existing: Option<&str>, config: &Config, file_name: &str) -> (r:
    Result<(InjectResult, String), BrdError>)
    ensures
        match spec_inject(
            match existing {
                Some(c) => Some(c@),
                None => None,
            },
            spec_block(*config),
        ) {
            Some((k, t)) => r matches Ok((k2, t2)) && k2 == k && t2@ == t,
            None => r matches Err(BrdError::Other(m)) && m@ == missing_end_message(file_name@),
        },
{
    let block = generate_block(config);
    match existing {
        None => {
            let mut t = String::new();
            push_str(&mut t, NEW_FILE_HEADER);
            push_str(&mut t, block.as_str());
            push_char(&mut t, '\n');
            assert(t@ =~= NEW_FILE_HEADER@ + block@ + seq!['\n']);
            Ok((InjectResult::Created, t))
        },
        Some(content) => {
            let c = chars_of(content);
            let start = chars_of(BLOCK_START);
            let end = chars_of(BLOCK_END);
            proof {
                lemma_find_from(c@, start@, 0);
            }
            match find_chars(&c, &start, 0) {
                Some(i) => {
                    proof {
                        lemma_find_from(c@, end@, i as int);
                    }
                    match find_chars(&c, &end, i) {
                        Some(e) => {
                            let mut t = substring(&c, 0, i);
                            push_str(&mut t, block.as_str());
                            let rest = substring(&c, e + end.len(), c.len());
                            push_str(&mut t, rest.as_str());
                            assert(t@ =~= c@.subrange(0, i as int) + block@ + c@.subrange(
                                e + end.len(),
                                c.len() as int,
                            ));
                            Ok((InjectResult::Updated, t))
                        },
                        None => {
                            let mut m = String::new();
                            push_str(&mut m, "found start marker but no end marker in ");
                            push_str(&mut m, file_name);
                            proof {
                                reveal_strlit("found start marker but no end marker in ");
                            }
                            Err(BrdError::Other(m))
                        },
                    }
                },
                None => {
                    let mut t = string_of(c.as_slice());
                    if !(c.len() > 0 && c[c.len() - 1] == '\n') {
                        push_char(&mut t, '\n');
                    }
                    push_char(&mut t, '\n');
                    push_str(&mut t, block.as_str());
                    push_char(&mut t, '\n');
                    proof {
                        let base = if c@.len() > 0 && c@.last() == '\n' {
                            c@
                        } else {
                            c@.push('\n')
                        };
                        assert(t@ =~= base + seq!['\n'] + block@ + seq!['\n']);
                    }
                    Ok((InjectResult::Added, t))
                },
            }
        },
    }
}

/// The issue id in a branch name: the third `/`-separated piece of `pr/<agent>/<id>`, or
/// the second piece of the older `<agent>/<id>`.
pub open spec fn spec_issue_of_branch(branch: Seq<char>) -> Option<Seq<char>> {
    let parts = split_on(branch, '/');
    if has_prefix(branch, "pr/"@) {
        if parts.len() > 2 { Some(parts[2]) } else { None }
    } else {
        if parts.len() > 1 { Some(parts[1]) } else { None }
    }
}

/// Extracts the issue id from a feature branch name.
pub fn extract_issue_id_from_branch(branch: &str) -> (r: Option<String>)
    ensures
        match r {
            Some(s) => spec_issue_of_branch(branch@) == Some(s@),
            None => spec_issue_of_branch(branch@) is None,
        },
{
    let v = chars_of(branch);
    assert(v@.subrange(0, v.len() as int) =~= branch@);
    let parts = split_chars(&v, 0, v.len(), '/');
    let k: usize = if str_starts_with(branch, "pr/") { 2 } else { 1 };
    if parts.len() > k {
        Some(string_of(parts[k].as_slice()))
    } else {
        None
    }
}

/// A valid agent name: ASCII letters, digits, `-` and `_` only.
pub open spec fn valid_agent_name(name: Seq<char>) -> bool {
    forall|i: int|
        0 <= i < name.len() ==> {
            let c = #[trigger] name[i];
            ('a' <= c <= 'z') || ('A' <= c <= 'Z') || ('0' <= c <= '9') || c == '-' || c == '_'
        }
}

/// The message for an invalid agent name.
pub open spec fn invalid_agent_message(name: Seq<char>) -> Seq<char> {
    "invalid agent name '"@ + name + "': use only alphanumeric, hyphens, underscores"@
}

/// Checks an agent name.
pub fn validate_agent_name(name: &str) -> (r: Result<(), BrdError>)
    ensures
        valid_agent_name(name@) ==> r is Ok,
        !valid_agent_name(name@) ==> (r matches Err(BrdError::Other(m)) && m@ == invalid_agent_message(name@)),
{
    let v = chars_of(name);
    let mut i: usize = 0;
    while i < v.len()
        invariant
            i <= v.len(),
            v@ == name@,
            forall|j: int| 0 <= j < i ==> {
                let c = #[trigger] v@[j];
                ('a' <= c <= 'z') || ('A' <= c <= 'Z') || ('0' <= c <= '9') || c == '-' || c == '_'
            },
        decreases v.len() - i,
    {
        let c = v[i];
        if !(('a' <= c && c <= 'z') || ('A' <= c && c <= 'Z') || ('0' <= c && c <= '9') || c == '-' || c == '_') {
            let mut m = String::new();
            push_str(&mut m, "invalid agent name '");
            push_str(&mut m, name);
            push_str(&mut m, "': use only alphanumeric, hyphens, underscores");
            return Err(BrdError::Other(m));
        }
        i += 1;
    }
    Ok(())
}

/// The feature branch of an agent for an issue: `pr/<agent>/<issue>`.
pub fn pr_branch_name(agent_id: &str, issue_id: &str) -> (r: String)
    ensures
        r@ == "pr/"@ + agent_id@ + "/"@ + issue_id@,
{
    let mut r = String::new();
    push_str(&mut r, "pr/");
    push_str(&mut r, agent_id);
    push_str(&mut r, "/");
    push_str(&mut r, issue_id);
    r
}

/// The content of an agent worktree's `.braid/agent.toml`.
pub fn agent_toml_content(name: &str) -> (r: String)
    ensures
        r@ == "agent_id = \""@ + name@ + "\"\n"@,
{
    let mut r = String::new();
    push_str(&mut r, "agent_id = \"");
    push_str(&mut r, name);
    push_str(&mut r, "\"\n");
    r
}

/// Where an agent's worktree lives: `<home>/.braid/worktrees/<repo>/<name>`.
pub fn agent_worktree_path(home: &str, repo_name: &str, name: &str) -> (r: String)
    ensures
        r@ == join_path(join_path(join_path(join_path(home@, ".braid"@), "worktrees"@), repo_name@), name@),
{
    let a = path_join(home, ".braid");
    let b = path_join(a.as_str(), "worktrees");
    let c = path_join(b.as_str(), repo_name);
    path_join(c.as_str(), name)
}

/// The title of an issue's pull request: `feat: <title> (<id>)`.
pub fn pr_title(title: &str, id: &str) -> (r: String)
    ensures
        r@ == "feat: "@ + title@ + " ("@ + id@ + ")"@,
{
    let mut r = String::new();
    push_str(&mut r, "feat: ");
    push_str(&mut r, title);
    push_str(&mut r, " (");
    push_str(&mut r, id);
    push_str(&mut r, ")");
    r
}

/// The body of an issue's pull request: the issue's body, trimmed, then a blank line and
/// `Closes: <id>`; just the last line for an issue without a body.
pub fn pr_body(body: &str, id: &str) -> (r: String)
    ensures
        body@.len() == 0 ==> r@ == "Closes: "@ + id@,
        body@.len() > 0 ==> r@ == trim(body@) + "\n\nCloses: "@ + id@,
{
    let v = chars_of(body);
    let mut r = String::new();
    if v.len() > 0 {
        let (a, b) = trim_bounds(&v, 0, v.len());
        assert(v@.subrange(0, v.len() as int) =~= body@);
        let t = substring(&v, a, b);
        push_str(&mut r, t.as_str());
        push_str(&mut r, "\n\n");
    }
    push_str(&mut r, "Closes: ");
    push_str(&mut r, id);
    proof {
        reveal_strlit("\n\n");
        reveal_strlit("Closes: ");
        reveal_strlit("\n\nCloses: ");
        if body@.len() > 0 {
            assert(r@ =~= trim(body@) + "\n\nCloses: "@ + id@);
        }
    }
    r
}

/// What the current branch allows for a pull request: on `main` there is no feature
/// branch; otherwise the branch must name an issue.
pub fn pr_issue_of_branch(branch: &str) -> (r: Result<String, BrdError>)
    ensures
        branch@ == "main"@ ==> (r matches Err(BrdError::Other(m)) && m@
            == "PRs require a feature branch - use `brd agent init <name>` to create one"@),
        branch@ != "main"@ ==> match spec_issue_of_branch(branch@) {
            Some(id) => r matches Ok(s) && s@ == id,
            None => r matches Err(BrdError::Other(m)) && m@ == "branch '"@ + branch@
                + "' doesn't match expected format 'pr/<agent>/<issue-id>'"@,
        },
{
    if str_eq(branch, "main") {
        let mut m = String::new();
        push_str(&mut m, "PRs require a feature branch - use `brd agent init <name>` to create one");
        return Err(BrdError::Other(m));
    }
    match extract_issue_id_from_branch(branch) {
        Some(id) => Ok(id),
        None => {
            let mut m = String::new();
            push_str(&mut m, "branch '");
            push_str(&mut m, branch);
            push_str(&mut m, "' doesn't match expected format 'pr/<agent>/<issue-id>'");
            Err(BrdError::Other(m))
        },
    }
}

} // verus!
