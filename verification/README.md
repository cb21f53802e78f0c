# deadline

A tiny command-line deadline tracker. Tasks have a title, a due date and an
optional autostrike flag; events of the macOS calendar can be merged into the
same listing; every item has a six-digit hexadecimal id that can be typed as
any unique prefix.

The library under `src/` holds the rules and is verified with Verus:

- `date`: dates as day numbers; the clock, `YYYY-MM-DD` parsing and day
  arithmetic come from `chrono`.
- `input`: reading a deadline (`YYYY-MM-DD`, `Nd`, or a weekday name).
- `task`, `calendar`: tasks and events, their ids, striking off, autostrike,
  and the struck-events file contents.
- `numerals`, `lookup`: id labels and lookup by unique prefix.
- `order`, `view`, `display`: what a listing keeps, its stable order, the
  line limit, and what each line shows.
- `config`: the settings and the rules for changing them.

`app/main.rs` is the command line itself: arguments, files, the calendar
helper process, colours and printing.
