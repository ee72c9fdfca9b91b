//! The earlier, single-mode form of the braid instructions block (version 2).

use vstd::prelude::*;

use crate::agent::{block_first_line, spec_extract_version, BLOCK_END, BLOCK_START};
use crate::text::{push_str, push_u64};

verus! {

/// Version of this form of the block.
pub const AGENTS_BLOCK_VERSION: u32 = 2;

/// The body of this form of the block, between its first line and its end marker.
pub const LEGACY_BODY: &'static str = r#"## braid workflow

this repo uses braid (`brd`) for issue tracking. issues live in `.braid/issues/` as markdown files.

basic flow:
1. `brd start` — claim the next ready issue (or `brd start <id>` for a specific one)
2. do the work, commit as usual
3. `brd done <id>` — mark the issue complete

useful commands:
- `brd ls` — list all issues
- `brd ready` — show issues with no unresolved dependencies
- `brd show <id>` — view issue details

## working in agent worktrees

**quick check — am i in a worktree?**

```bash
cat .braid/agent.toml 2>/dev/null && echo "yes, worktree" || echo "no, main"
```

if you're in a worktree:
- each worktree has its own `.braid/` directory — sync via git pull/push
- use `brd agent ship` to merge your work to main (rebase + fast-forward push)
- if you see schema mismatch errors, rebase onto latest main

## design and meta issues

**design issues** (`type: design`) require human collaboration:
- don't close autonomously — discuss with human first
- research options, write up trade-offs in the issue body
- produce output before closing (implementation issues or a plan)
- only mark done after human approves

**meta issues** (`type: meta`) are tracking issues:
- group related work under a parent issue
- show progress as "done/total" in `brd ls`
- typically not picked up directly — work on the child issues instead
"#;

/// The whole block of this form.
pub open spec fn spec_block() -> Seq<char> {
    block_first_line(AGENTS_BLOCK_VERSION) + seq!['\n'] + LEGACY_BODY@ + BLOCK_END@
}

/// The agents block of this form.
pub fn generate_block() -> (r: String)
    ensures
        r@ == spec_block(),
{
    let mut r = String::new();
    push_str(&mut r, BLOCK_START);
    push_str(&mut r, " v");
    push_u64(&mut r, AGENTS_BLOCK_VERSION as u64);
    push_str(&mut r, " -->\n");
    push_str(&mut r, LEGACY_BODY);
    push_str(&mut r, BLOCK_END);
    proof {
        reveal_strlit(" v");
        reveal_strlit(" -->\n");
        assert(r@ =~= spec_block());
    }
    r
}

/// The version of the braid block in `content`, if it has one (the markers are shared
/// by both forms of the block).
pub fn extract_version(content: &str) -> (r: Option<u32>)
    ensures
        r == spec_extract_version(content@),
{
    crate::agent::extract_version(content)
}

} // verus!
