# mutop

A terminal process monitor: a table of processes that can be sorted by CPU
usage, memory, pid or name, searched case-insensitively, navigated with the
arrow keys, and from which a process can be killed.

- `src/` is the library, verified with Verus: the sort order and a stable
  insertion sort proved against it, the search filter, the state machine that
  key presses and timer ticks drive, and every text of the screen except CPU
  percentages (which are floats).
- `app/` is the terminal program around it: it reads the process table with
  `sysinfo`, draws with `ratatui` over `crossterm`, kills processes with the
  `kill` command, and performs the actions that the library returns.
- `tests/` exercises the library on concrete values, and compares byte-count
  formatting with `f64` formatting from the standard library.
