# package_run

The core of Package Run, a menu-bar manager for local frontend dev
servers, written in Verus: every decision the app makes about projects,
scripts, ports and updates is a function with a contract that Verus proves.

## Layout

- `src/text.rs` — characters and strings: trimming, searching, lines and
  words, number parsing and formatting, string order and sorting, and
  maps held as pairs in key order.
- `src/update.rs` — lenient semantic versions, the "newer than" order and
  its laws, and whether a GitHub release is an update.
- `src/runner.rs` — cleaning script output (ANSI escapes, dev-server URLs),
  dotenv files, the PATH and environment a script starts with, its
  arguments, task keys, log file names and log lines; the steps of
  stopping a process tree and of watching a task for its exit.
- `src/projects.rs` — launch configurations, the stored project list and
  its edits (pin, order, autostart, package manager, launch settings, add,
  remove) with their laws, and how a project is read from its folder and
  its parsed `package.json`.
- `src/json.rs` — JSON values, parsed by `serde_json`.
- `src/ports.rs` — who listens on a port, from `lsof`, `netstat` and
  `tasklist` output.
- `src/desktop.rs` — tray texts, menu actions, window toggling, and the
  editors and terminals a project opens in, tried in order.
- `app/` — the Tauri application around the library: windows, tray,
  commands, files, child processes and the network.
- `tests/` — tests of the library on concrete values.
