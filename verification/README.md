# pueue-agent

A supervisor for experiments that run as tasks of a Pueue queue. It watches the
tasks of each project, turns what it sees into events, and starts agents that
decide what to run next, inside the limits that an operator has set.

- `src/` is the library, verified with Verus: records and their states, the
  launch protocol and its codec, the execution policy, signatures and
  timestamps of tasks, reconciliation, health and diagnosis, promotion,
  prompts, and the order in which an agent is dispatched. Public proof
  functions named `lemma_…` state what holds of several functions together.
- `app/` is the program around it: the command line, files, sockets, processes
  and the database. It does what the library asks for and hands back what came
  of it.
- `tests/` runs the library on concrete values.

Calls into other crates stand behind small wrappers in `src/digest.rs`,
`src/error.rs`, `src/json.rs`, `src/logs.rs`, `src/models.rs`, `src/pueue.rs`
and `src/text.rs`; the comment on each says what is taken for granted of the
function it calls.
