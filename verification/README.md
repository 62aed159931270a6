# dev-tools

Three terminal tools and the verified library they are built on:

| Tool | What it does |
|------|--------------|
| `aws-switch` | Pick an AWS SSO account and role from a fuzzy list and write them into the `default` profile of `~/.aws/config`; renews the SSO token (silently, else through `aws sso login`) when it has expired. |
| `feature` | Pick a Jira issue (or create one) from a fuzzy two-pane list with a Markdown preview, then branch from it or give it its own worktree. |
| `wt-gc` | Garbage-collect stale git worktrees: trash the safe ones, ask about the others, purge the trash after a grace period. |

## Layout

- `src/` is the library, verified with Verus: every public function states
  what it returns in its `ensures`, and the laws that span several functions
  are public proof functions.
  - `text`, `path`, `json`: strings as character sequences, paths, and a JSON
    value model.
  - `common`: the fuzzy picker's state machine and ranking, the cache's
    freshness rule and file names, config and XDG paths, styled text, the
    theme, the spinner frames and the background-refresh bookkeeping.
  - `aws`: the `~/.aws/config` editor (`update_ini`), the SSO session and token
    cache readers, the token refresh plan, RFC 3339 time formatting and its
    fixed-width order (`stamp`), and the
    decisions of `aws-switch` (account filtering, role choice, login retry).
  - `feature`: the issue filter and type aliases, the Atlassian document and
    Markdown renderers, the `jira` CLI's arguments and answers, and the
    picker (`ui::App`) as a function from state and key to state and work to
    start, with what its panes show (`panes`), and the branch names of
    issues (`branch`).
  - `wt_gc`: worktree classification, `git` output parsing, the trash
    manifest's purge and the report lines.
- `tests/` runs the library on concrete values.
- `app/` is the executable around it: argument parsing, files, HTTP,
  processes, threads and the terminal. It gathers what the library needs
  (file texts, command output, server replies, whether a directory exists),
  hands it over, and carries out what comes back.

Outside crates the library calls stand behind small trusted wrappers whose
contracts say what the crate's source shows: `nucleo-matcher` (fuzzy
scores), `pulldown-cmark` (Markdown events), `ratatui` (display width),
`serde_json` (reading and writing JSON text), `dirs` (home directory) and the
standard `BTreeMap`.
