# clash_sandbox

Sandbox policies for sandboxed commands, with their decisions verified in
Verus: which capabilities a path has under a policy, why a path is denied,
how environment edits are rendered, and what the Linux backend (Landlock and
seccomp) is asked to enforce.

## Layout

- `src/` — the verified library.
  - `caps.rs` — filesystem capabilities (`Cap`) and system capabilities
    (`SystemCap`) as bit sets, their names, parsing and display.
  - `policy.rs` — rules, policies, network policies; `effective_caps` and
    `explain_denial` (deepest matching rule decides, allow wins at equal
    depth); worktree rule expansion.
  - `paths.rs` — `$PWD`/`$HOME`/`$TMPDIR` expansion, path depth, and the
    symlink-resolution walk (`SymlinkWalk`), which asks its caller to read
    each link and to report components that do not exist.
  - `env_policy.rs` — environment policies: `$NAME` expansion, the
    `/usr/bin/env` arguments and the edits for a command.
  - `env_effect.rs` — what those two renderings do to an environment, and
    the proof that they agree.
  - `names.rs` — sorted name sets and name-to-value maps.
  - `gitdir.rs` — reading `.git` pointer and `commondir` files, git path
    normalization.
  - `linux.rs` — seccomp filter choices, Landlock rights and path rules, the
    order of the sandboxing steps, and the Landlock support probe.
  - `env.rs` — the environment capabilities handed to hook handlers.
  - `laws.rs` — properties that relate several functions.
  - `text.rs` — character-level string helpers.
- `tests/` — tests of the library.
- `app/` — the unverified edge: reading the process environment and the
  filesystem, serde forms of the policy types, worktree detection on disk,
  and installing seccomp and Landlock before `exec`.
