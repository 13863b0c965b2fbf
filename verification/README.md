# bloom

The core of Bloom, a system-wide text expander for Windows: you
define a short trigger (`answer short`, `;code`, `/pr`, `!!clarify`) and
typing it followed by whitespace replaces it with the long text, in any
application.

`src/` is the library, with its contracts and proofs:

- `text` — character helpers: whitespace, ASCII case folding, trimming,
  collapsing whitespace runs, decimal and quoted text.
- `model` — rules, theme, configuration, and the error types with their
  messages.
- `store` — the rules-file format's checks (`validate`), lookups, loading.
- `commands` — the rules window's operations: add, update, delete, save
  settings, import, merge an import, About data, export target.
- `clock` — the system clock, and a time as RFC 3339 text.
- `ids` — sortable rule ids: a millisecond timestamp and random bytes in
  Crockford base 32.
- `hook` — the keyboard side: key codes to characters, the typed-text
  buffer, trigger matching, the focused application's filter, and what
  to erase and paste.
- `tray` — the tray icon's pixels.
- `paths` — the path operations used (joining a file name, parent, file
  name).
- `laws` — properties of the library as a whole, proved.

`app/` is the Tauri program around it: window commands, reading and
writing `%APPDATA%\bloom\rules.json`, the Win32 keyboard hook and clipboard
paste, the tray. `tests/` exercise the library.
