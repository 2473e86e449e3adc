# coreshift_engine

The decisions of an engine that follows the foreground application of an
Android-like system: which application is in front, who is behind its UID, when
the package cache is out of date, what is to be watched, and what happens because
of an event.

`src/` is the library. It is written in Verus: every function states what it
returns or changes, and the statements are proved. Functions take what was read
from the system as plain values and hand back what is to be done, so nothing in
`src/` reads a file, starts a process or waits.

- `text`, `path`, `package_name`, `ordered`: characters, paths by components,
  package names, and maps and sets in key order.
- `config`, `error`, `events`, `dispatch`, `state`: settings and their validation,
  errors, events, the actions they call for, and the state they lead to.
- `exec`: processes to run, and how they ended.
- `services`: identities, the invalidation of the identity cache, sockets, and the
  step-based bridge from readiness to events (`watch`, with its laws in
  `watch_laws`).
- `services::foreground`: the package cache, the cpuset and control group sources,
  the source that asks them in turn, the activity manager, and the manager that
  passes on only what is new.
- `runtime`, `game`, `preload`: the runtime, game lists and state, preload plans.

Public proof functions named `law_..` state what holds across functions. What is
taken on trust is marked `external_body` or `assume_specification`, each with a
comment that names the outside function.

`app/` puts the library on a live system with `coreshift-core`: files, processes,
sockets, file watches and the reactor. `tests/` runs the library on concrete
values.
