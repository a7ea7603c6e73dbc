# dailycheck

A daily checklist for the terminal. Tasks have a status that cycles
`[ ]` → `[-]` → `[x]`; each day's list is kept in `~/.dailycheck/YYYY-MM-DD.txt`,
one task per line, and earlier days can be reopened from a history.

- `src/` is the verified library (Verus):
  - `text.rs`: Unicode whitespace, trimming, splitting on a separator;
  - `task.rs`: statuses, tasks and their line format, with the round trip
    from a task to its line and back;
  - `storage.rs`: the text of a day file (reading and writing a whole list,
    with the save/load round trip), the data directory, and the path of a
    day file named by its date as chrono writes it;
  - `history.rs`: which files are day files, their order (newest first) and
    the `DD-MM-YYYY` label of each;
  - `session.rs`: what every key does on the screen, as a state machine
    whose invariants are proved;
  - `view.rs`: the rows the screen shows and their tones.
- `app/` is the terminal program: it reads keys, files and the clock,
  draws with
  crossterm, and hands everything else to the library.
- `tests/` runs the library on concrete values.
