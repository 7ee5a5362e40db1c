# sysman

A terminal system monitor with an interactive dashboard and one-shot commands
(`summary`, `system`, `memory`, `disks`, `processes`, `services`, `service`).

## Layout

- `src/` is the library, verified with Verus. It holds what the monitor decides and
  computes: the parsers of the tools' output (`ss`, `ip`, `systemctl`, `journalctl`, `du`,
  `find`, `smartctl`, `docker`, `nvidia-smi`, `/proc` files), the formatting of sizes and
  durations, the dashboard's state machine (key handling, scrolling, filters, log search,
  error-spike detection and its explanation, the disk-scan protocol), the process views
  (filter, sorts, grouped orders, process tree, the table's group separators), the order of
  interfaces, disks and GPU processes, the memory-leak watch, the panels' text, and the
  actions on processes, services and connections. Commands run through the `CommandProvider` trait:
  `RealProvider` runs them with a runner the program supplies, `MockProvider` answers from
  a script. Each provider keeps a ghost record of the command lines it ran, so the
  contracts say which commands a call runs, and in what order, as well as what it returns
  for each answer.
- `src/laws.rs` states properties that hold across calls, proved by Verus.
- `tests/` exercises the library on concrete inputs, with scripted providers.
- `app/` is the program around the library: command-line parsing, the terminal loop and
  drawing, running processes, reading files and the measurements taken with `sysinfo`
  (CPU loads and percentages are floating point and stay there).
