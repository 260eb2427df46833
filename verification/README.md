# karvon

Supervision of development processes: projects are made of processes that are started, watched,
stopped and restarted together, on this machine or on others.

The library holds the decisions: what a command line means, in which order processes
start, what a request changes, what the end of a process means, when it is started again, which log
entries are kept and sent. Each function states in its contract what it returns and changes, and the
proof functions named `law_…` state what holds of several of them together.

What has to be done outside is queued as an effect: sending events, storing entries, signalling
process groups. The system is asked through commands; the library builds the command lines and reads
what the commands print.

- `src/runtime.rs` is the state and its effects; `start`, `stop`, `schedule`, `memory`, `recovery`,
  `external`, `launchd`, `logs` and `requests` are what happens to it.
- `src/platform/` is what differs between systems; `src/windows_paths.rs` reads their other kind of path.
- `src/invariants.rs` and `src/guarantees.rs` are what every operation keeps.
- `app/` runs commands, waits, and carries out the effects.
