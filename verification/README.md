# apple-battery-guard

A battery charge-threshold manager for Intel MacBooks running Linux: a daemon
keeps `charge_control_end_threshold` in sysfs at the configured value (100% on
an optional weekly full-charge day), serves its state on a Unix socket, and
talks to systemd; a CLI and a terminal dashboard read that state.

- `src/` is the library, verified with Verus. The decisions are made there:
  battery detection and status parsing from what sysfs gave (`battery`), the
  configuration and its validation (`config`), the daemon's flow, one polling round, the
  threshold in force and the socket protocol (`daemon`), what the CLI reads
  from a status report and prints (`cli`), which datagram goes to systemd (`systemd`) and
  what the dashboard shows and when it refreshes (`tui`). `text` holds the string functions they
  share, specified over `Seq<char>`.
- `app/` is the program around it: argument parsing, file, socket and terminal
  I/O, the TOML file, signals and threads. It hands the library what it read
  and does what the library decides.
- `tests/` runs the library on concrete values.
