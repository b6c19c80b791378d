# systemg

The supervision rules of a process supervisor, verified with Verus.

- `src/` decides: which service starts, restarts or stops and when, what is recorded of it, how
  logs are captured, cut, rotated and shown, what is remembered of resource use, and what is said
  over the control channel. It holds no I/O. Where a decision depends on what the system says, the
  caller looks and hands the answer in as a plain value.
- `app/` does: it reads and writes files, sockets and processes, and runs what `src/` decides.
- `tests/` runs `src/` on concrete values.

Work that alternates with the outside (a start, a stop, a restart, a deployment, a health check, a
wait for an answer) is a value with a pending action. Whoever runs it performs the action and
reports how it went through the method that belongs to it. What holds in every state of such a run
is its `sound` predicate, and public proof functions named `law_..` state what follows for the
whole.
