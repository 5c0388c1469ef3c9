# bitdemon_services

Verified services of a BitDemon (Demonware) backend for Call of Duty: Black Ops II
on Wii U: authentication, the entrance to the lobby, matchmaking, messaging, groups
and publisher files.

- `src/` is the library, verified with Verus. Every service is a function from
  plain values and explicit state to an answer and the next state; sockets, files and
  the environment are outside. Only authentication and the entrance to the lobby read
  the time of day themselves, each beside a function that takes it as an argument.
  - `wire`, `octets`, `text`, `peer`, `session`, `sequences`: messages, bytes, text,
    addresses and sessions.
  - `auth`: message kinds, service tokens, tickets, and the Wii U handler.
  - `lobby`: the entrance (`lsg`), matchmaking, messaging, statistics, friends, and
    the place of a client (`dml`).
  - `server`: groups, publisher files, and the routing of messages.
  - `clock` and `digest` hold the two functions that are taken on trust: the time of
    day from `chrono`, and the Tiger hash from `tiger`.
- `tests/` runs the library.
- `app/` is the program around it: configuration, files, shared state and the
  content HTTP server.

What holds of a service as a whole stands in the `law_` functions beside it.
