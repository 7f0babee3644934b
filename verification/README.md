# space

A workspace manager for multi-repo git worktrees: a named space groups
several repositories, each checked out as a git worktree on the same branch,
under `<workspaces dir>/<space>/<repo>`.

## Layout

- `src/` is the library, verified with Verus. It holds every decision the
  tool makes, each with a contract:
  - `pull`, `ops`, `sync`, `create`: the git operations as step functions
    from what has been found so far to the next git command or the final
    report (pull, rebase, push, commit, branch sync, worktree creation and
    branch switching);
  - `removal`: what each directory of a space is, which are handed back to
    git and which are kept, and the report of a kept space;
  - `worktree`, `names`, `paths`: the argument lists given to git, the rules
    for space and branch names, and paths as std reads them;
  - `status`, `spaces`, `repos`, `cli`, `mcp`, `completion`, `config`,
    `reltime`: listings, the repo cache, name resolution, shell completion
    lines, configuration and relative times.
  The public `lemma_*` proof functions state the properties the library
  keeps across calls (a write to the repo cache reads back, a failed merge
  or rebase is never left in progress, a dash never reaches git's branch
  slot, and so on).
- `tests/` runs the library on concrete inputs.
- `app/` is the program around it: argument parsing, the terminal prompts,
  reading the disk, running git, and the MCP server. It gathers what the
  library asks for and performs what it decides.
