# agent-orchestrator

A daemon with pluggable event sources (triggers) that starts multi-step agent
workflows. Its decisions are a library verified with [Verus](https://github.com/verus-lang/verus);
a thin program around the library does the input and output.

## Layout

- `src/` is the verified library. It decides and computes; it opens no file,
  sends no request and starts no process.
  - `trigger`, `github`: which questions are asked, page by page, how rate
    limits are waited for, and which events the answers hold.
  - `poller`: when workflow files are loaded again, and the order of a round of
    polls. The last valid workflows stay in use until others take their place.
  - `dispatcher`: which events are started, and when. Each one is started at
    most once, and only so many run at a time. After a restart, an event that was
    completed before is not started again; one that failed is.
  - `runner`, `hooks`, `harness`, `hermes`, `hermes_api`, `template`: where a
    run takes place, the order of its operations, and what its steps hand to
    an agent.
  - `git`: what follows each operation on a clone or a worktree. A worktree with
    uncommitted changes is never removed, and tokens are masked in logs.
  - `config`, `daemon`, `askpass`, `logs`: configuration files, the command
    line, startup, credential prompts, and log lines.
  - `text`, `utf8`, `paths`, `json`, `http`, `process`, `keys`, `clock`: what
    the others build on.
- `app/` is the program: it carries out the operations that the library asks
  for, and reports their outcomes.
- `tests/` runs the library.

Functions whose names begin with `law_` state what holds of several functions
together. Functions marked `external_body` call other crates; their contracts
are what the proofs take for granted.
