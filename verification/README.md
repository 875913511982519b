# alder

A durable work-and-attempt log for autonomous engineering workflows.

Events are appended to a shared log in a ref of a Git remote. Independent writers
coordinate by comparing and appending: a writer that has read one head and finds
another one appends nothing and is told so. The current state is a fold of the
events, and a local SQLite database is filled from it and can be rebuilt at any time.

The model: work items with dependencies and acceptance checks, attempts at that work,
questions that park work on a human decision, observations of the world outside, and
standing instructions to whatever drives the loop. Human-readable output is the
default; every command also takes `--json`.

## Layout

- `src/` is the library. All of it is verified with Verus.
  - `text`, `catalog`, `json`, `views`, `sorting`, `selection`, `instant`, `ids`: the
    ground that the rest stands on.
  - `work`, `attempt`, `question`, `observation`, `event`, `project`: the records.
  - `rules` says what an event does to a project; `fold`, `state`, `downstream` and
    `graph` do it.
  - `store`, `change`, `log` and `ledger`: statements, and how they reach a log.
  - `wire`, `codec`, `picture`: records as documents, and back.
  - `laws`, `record_laws`, `log_laws`, `sessions`, `change_laws`, `invariants`: what
    holds of every project, every log, and every row of calls.
  - `cli`, `input`, `documents`, `status`, `commands`, `refresh`, `observer`, `config`,
    `debug`, `git`, `projection`: what the commands decide and answer.
- `app/` is the `alder` command around it: arguments, files, processes, the database.
- `tests/` runs the library.

## What is proved

Every executable function of the library states its result exactly, over mathematical
models of the records; where chance, the clock or the store has a say, it states what
holds whatever they said. Beyond that, `laws` proves what holds of every project that a
log folds into: everything is kept under its own ID, at most one attempt runs at a work
item, a handle belongs to one running attempt, the dependency graph has no cycle, only
blocked work has a reason and a deadline, and open work has no unanswered question.
`record_laws` adds what holds of each item and each attempt: requirements and checks
ascend, a running attempt has exactly the checks of its work, and nothing is dated before
it could have happened. `log_laws` proves what holds of appends: of two writers at one
head one wins, the other is told that nothing was appended, and what was appended is read
back. `sessions` proves what holds over many calls: the hook of a log hears once of each
confirmed append and of nothing else, and with one writer an observation made again
changes nothing. `change_laws` proves that a prepared change follows its document and is
one that the project takes.

Records are read back as they were written, as long as the deadlines in them are moments
of chrono's calendar, which ends with the year 262142; a moment beyond it has no text.

The library trusts a few functions of chrono, ulid, serde_json and the standard library.
Each of them is called in one small function that says what is believed of it.
