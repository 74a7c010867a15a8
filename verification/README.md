# herbie

The verified core of H.E.R.B.I.E, a personal assistant for to-dos, a
journal and automatic time tracking on Windows.

`src/` is a library verified with Verus.  It holds every table of the
assistant in memory (`store::Store`, with the keys and references the
database keeps as its well-formedness) and every rule that reads or
changes them:

- `labels` — the `#tag` grammar of to-do details and journal bodies,
  proved against a specification of the scan (web addresses excluded,
  1 to 60 characters, each label once);
- `todos`, `journal`, `labels_store`, `settings`, `migrations` — the
  operations on the tables, each with a contract over the tables before
  and after; every to-do and entry carries exactly the labels of its text;
- `segment`, `tracker`, `system` — activity segments, the window-event
  state machine, idle / power / off-work handling; at most one segment
  stays open;
- `time` — instants, local days and the slicing of segments at midnight;
- `export`, `shell`, `spike_power`, `win_*`, `db` — the checks and
  mappings of the shell (day and file-name checks, link schemes, window
  and power messages, repeated-event filter).

Calls into chrono, regex and uuid stand behind small trusted wrappers.
Their contracts state only what the crates' sources show; where an answer
rests on the clock, chance or the machine's time zone, they state what
holds of every answer.

`app/` is the Tauri program around the library: SQLite persistence,
commands, windows, tray, shortcut, and the Win32 hooks.  `tests/` runs the
library on concrete cases.
