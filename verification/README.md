# octoterm

A terminal-session daemon's logic as a verified Verus library: the wire protocol,
the replay buffer, how attached clients decide a session's size, how a screen is
repainted for a client that attaches late, and how a connection streams and
resyncs it; the launcher menu (built-in shells, the user's
own entries, iTerm2 and Windows Terminal profiles with their fragments and
command lines); the agent integration (hook admission, the session and
pending-request store, planning and applying hook edits to an agent's
configuration, transcript normalisation; the registered agent is Codex, whose
hooks run this server's binary, and an adapter for agents that take `http` hooks
is there with its identity passed in); and the desktop shell's settings flow and
window, tray status line, login item, tray retries and HTTP-layer restarts.

Layout:

- `src/` — the library, verified by Verus: the functions carry contracts that
  state what they return, except a few whose result is a list of trait objects or
  rests on the machine (their doc comments say what is left open).
  Calls into `serde_json`, `plist`, `uuid`, `directories` and `std` that the
  logic needs sit behind small trusted wrappers whose contracts name their results.
- `tests/` — the library's tests, run against the real outside crates.
- `app/` — the I/O around the library: configuration files, environment, file
  system work, the hook client's socket.
