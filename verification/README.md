# CodexGauge

A floating Codex quota widget. It reads the quota of the Codex CLI through
`codex app-server --stdio` (newline-delimited JSON-RPC) and shows it in a small
overlay that is always on top: one row per rate-limit window, a countdown to the
next reset, and a tray icon with a menu.

- `src/` is the library: the quota model, the messages, the machine that drives a
  fetch, the picture that is drawn, and the main loop's decisions. Every function
  has a contract that Verus proves; the calls into `serde_json` stand behind a few
  declared items in `src/json.rs`, and one into the standard library behind one
  in `src/text.rs`.
- `app/` is the program around it: windows, GDI, the tray, timers, processes and
  pipes.
- `tests/` runs the library.
