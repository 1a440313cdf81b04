# codex_remote

Verified addressing, path and command logic behind a Codex CLI session viewer
that reads rollouts from a local directory or from a host reached over SSH.

`src/` is the library, written and proved with Verus:

- `remote` — `ssh://host/path` sources: parsing and building them, host
  checks, shell quoting of remote paths, rollout paths and their plain and
  compressed variants, containment below a sessions directory, and where
  `session_index.jsonl` lives.
- `commands` — every remote operation as one `SshRequest` (host and shell
  command), the `ssh` arguments, and the texts made from `ssh` output.
- `discovery`, `lines`, `titles` — picker entries from discovery output,
  newest first; titles from `session_index.jsonl`.
- `session`, `download` — loading and deleting a rollout, local or remote,
  and fetching one remote rollout.
- `unix_path`, `text` — a model of Unix path components and the character
  helpers the rest is built on.
- `laws` — properties that span several operations.

`app/` carries the decisions out: it runs `ssh`, keeps the title cache and
touches the local disk.
