# dndgamerolls

The core of a D&D dice roller, written in Verus: the functions in `src/`
carry contracts that Verus proves, except a few small wrappers around
outside calls (random rolls, UUIDs, base64, Unicode case mapping and
character classes, `String::push`), whose contracts are trusted and say
so in their doc comments.

## Layout

- `src/dice.rs` – dice types, `NdM` notation, roll configuration.
- `src/text.rs` – whitespace, trimming, tokenising, decimal numbers.
- `src/keyed.rs` – a small string-keyed map with distinct keys.
- `src/sheet.rs`, `src/character.rs` – the character sheet, ability
  modifiers, skill / saving-throw / ability lookup, new characters and the
  re-keying of sheets by id.
- `src/store.rs` – the character store, kept in memory only (nothing is
  written to disk): ids, load / update / delete, the name-sorted list,
  settings documents and command history, with laws relating the
  operations.
- `src/command.rs` – typed dice commands, the command history, quick rolls
  and the command-line roll request.
- `src/fits.rs` – run-time checks that a command, a quick roll or a
  command-line request stays within `i32`, and the calls that make them
  before reading the command.
- `src/panel.rs` – the buttons of the quick-roll panel, with skills in
  key order, and the character and modifier lines of the results panel.
- `src/settings.rs`, `src/color.rs` – roll effects per face value, the die
  settings, the recent theme colors, hex colors and color names.
- `src/icons.rs` – the 32×32 RGBA interface icons, drawn with proved
  rectangles, circles, rings and Bresenham lines.
- `src/legacy.rs`, `src/designer.rs`, `src/contributors.rs` – data paths and
  legacy SQLite rows, dice texture choices, the contributors list.
- `tests/` – tests run against the compiled library.
- `app/` – the command-line program: argument parsing, files, JSON / RON /
  SQLite reading, and the parts that work with floating point.
