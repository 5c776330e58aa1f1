# bodega

Bodega runs coding agents over a plan of dependent tasks. Each task is tried in
a git worktree of its own, checked, and merged into the branch of its run, one
task at a time. Everything that happens is an event in a log, and the state of a
run is what its log adds up to.

`src/` holds the rules of all this as functions with contracts, proved by Verus:

| Module | What it decides |
| --- | --- |
| `ids`, `money`, `text`, `json`, `order` | ids, amounts, texts, JSON values and ordered collections |
| `model`, `events` | what is recorded, and what agents do |
| `budget`, `spending` | limits, and shares that keep parallel attempts within them |
| `graph` | dependencies, cycles and orders of work |
| `state`, `store` | folding a log into states, and appending to it |
| `config` | plans, settings and the permission policy |
| `schedule`, `engine`, `drive`, `progress`, `course` | what runs next, how a run goes on step by step, and why it ends |
| `attempt`, `checks`, `prompts` | one attempt: prompts, permissions, checks and fix rounds |
| `agent`, `protocol`, `mock` | the command line agent, its messages, and an agent for trials |
| `git` | the commands for git and the reading of its answers |
| `server`, `cli`, `doctor`, `ui` | requests over HTTP, the command line and the terminal |

A file states what its functions do in their `ensures`; what holds of several of
them together stands in public proof functions, such as
`state::replay_resumes`, `store::retries_write_nothing`,
`course::kept_checks_decide` or `drive::merges_queue_up`.

`app/` does what has to be done outside: processes, git, SQLite, HTTP and the
terminal. `tests/` runs the library on examples.
