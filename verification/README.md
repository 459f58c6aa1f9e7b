# signalpane

A local notification hub for GitHub notifications and Slack mentions: a
foreground daemon polls the APIs into SQLite, and the CLI and a terminal UI
read it over a Unix socket. The macOS user LaunchAgent keeps the daemon
running.

The library in `src/` holds the logic, verified with Verus:

- `collectors/`: which GitHub threads and Slack messages become events, the
  drafts made of them, where the cursors move, and what the HTTP statuses mean.
- `store`: cursor metadata and how polls rewrite it, the health it reports,
  and the per-cursor source statuses.
- `daemon`: which collectors run, failure backoff, error compaction, socket
  preparation.
- `logging`: secret redaction, log tails, capping the daemon log.
- `launch_agent`, `agent_run`: the plist, the status report, `launchctl`
  output, and the order of work in install, uninstall and restart.
- `doctor`: the diagnosis and its `key=value` rendering.
- `cli`: the command grammar and the text the commands print.
- `tui`: selection, filters and key handling of the terminal UI.
- `ipc`, `model`, `config`, `time`, `text`: the shared types and helpers.

`app/` is the program around it: the command dispatch, files, SQLite, HTTP,
the socket server, signals, and the ratatui screen.
