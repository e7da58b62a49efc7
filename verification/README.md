# monitor

A terminal monitor for PBS jobs and cluster load. The decisions and text of
the monitor live in a library whose functions carry `requires`/`ensures`
contracts proved with Verus; a thin program around it talks to the
scheduler, the file system and the terminal.

## Layout

- `src/` — the verified library (`monitor`):
  - `text.rs` — the character-level model of `str` used by every parser and
    renderer: lines, words, trimming, decimal numbers, padding, ordering.
  - `pbs.rs` — the `qstat` job table, job ids, the `Output_Path` attribute,
    shell quoting and the vanished-job notice.
  - `qlload.rs` — `qstat -ft` and `pbsnodes -av` records, vnode merging, the
    per-user load table and the ANSI node graph.
  - `qarray.rs` — array-job bases, subjob tallies and progress lines.
  - `logs.rs` — sanitizing log text for the terminal, locating a job's log,
    and what the log watcher sends.
  - `app.rs` — the UI state: job selection, tabs, scrolling, section
    toggles and the fuzzy username switch.
  - `ui.rs`, `keys.rs` — job rows, walltimes, layout, the status line and
    the key bindings.
  - `poller.rs`, `details.rs`, `ssh.rs` — the polling schedule and what each
    query result becomes; the SSH multiplexing block.
  - `arith.rs` — saturating `i64` arithmetic.
- `tests/` — tests of the library on concrete inputs.
- `app/` — the `monitor` program: command line, PBS commands over SSH, file
  watching, worker threads and drawing with ratatui.

Laws that relate several operations (tab cycling, undoing a job switch,
palette stability, sanitizer idempotence, the polling schedule and others)
are public proof functions named `law_*` next to the functions they concern.
