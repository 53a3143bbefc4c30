# skrvm

Skrvm watches an issue tracker (Linear, Jira, GitHub Issues, or a built-in demo
tracker), claims the issues assigned to it, prepares a workspace directory per
issue and runs a coding agent there over JSON-RPC on stdio. Its behaviour is set
by a `WORKFLOW.md` file: YAML front matter for the configuration and a MiniJinja
prompt template after it.

## Layout

- `src/` is the library, verified with Verus. It holds the scheduler's decisions
  and the texts the program builds:
  - `config.rs`: settings, their defaults, `$NAME` and `~` resolution, validation.
  - `workflow.rs`: splitting `WORKFLOW.md`, completing a workflow, deciding when
    the file must be read again.
  - `tracker.rs`: normalizing Linear, Jira and GitHub issues, the demo tracker,
    Jira queries and URLs, ordering refreshed issues.
  - `orchestrator.rs`: the scheduler state — eligibility, per-state caps,
    claims, worker start and finish, retries with exponential backoff,
    reconciliation, dispatch order.
  - `agent_runner.rs`: rendering the prompt (with the issue written as JSON for
    its context), the turn loop's decisions (how each
    agent message, silence and the end of output end or continue a turn), token
    usage, the GitLab tool's requests.
  - `path_safety.rs`: workspace keys, the workspace directory of an issue
    (refused before the filesystem is touched when it would be the root or its
    parent), and the check that a workspace lies inside the workspace root.
  - `commands.rs`: the dashboard's checks and helpers (git remotes, setup paths,
    session histories, the seeded workflow, prompt template checks).
  - `slug.rs`, `text.rs`, `strings.rs`, `keyed.rs`: text, slug and keyed-vector
    building blocks.
  - `laws.rs`: properties that span several functions, proved as lemmas.
- `tests/` exercises the library on concrete values.
- `app/` is the program around the library: reading files and the environment,
  HTTP requests to the trackers (with their pagination and early returns),
  running hooks and agent processes, and the scheduler loop.
