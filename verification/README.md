# pith

The engine of a zero-byte operating system: the filesystem is the computer,
and every piece of information lives in names, paths, existence and
modification times. This crate is the engine's logic as a verified library,
with the program around it.

- `src/` — the library, verified with Verus: the alphabet of logic doors and
  the classification of path segments, the in-memory trie, identities and
  permission resolution, sessions, the dispatcher, the subsystems of each
  scope (their reactions to events are exact functions of the event, a time
  stamp and the trie), the decisions of the socket API, and passwords.
- `tests/` — tests of the library.
- `app/` — the `pith` command: the filesystem walk, the watcher, carrying out
  effects, the socket server, boot and shutdown.
