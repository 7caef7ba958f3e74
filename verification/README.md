# xdg_tui

A terminal interface for inspecting and managing XDG settings: the XDG Base
Directory variables, the default applications of `mimeapps.list`, and the
installed desktop applications.

- `src/` is the verified library (Verus):
  - `text.rs` — character-level helpers: Unicode whitespace, trimming,
    splitting, substring search, code-point order, decimal digits.
  - `xdg_base.rs` — resolving the seven base-directory variables.
  - `mime.rs` — reading `mimeapps.list` text into associations ordered by
    MIME type; where the file lives.
  - `desktop_entries.rs` — application records from desktop files, sorted
    stably by lowercase name, repeated ids dropped.
  - `app.rs` — tabs, selections, filters and the status line.
  - `input.rs` — what each key does, and the outside work it asks for.
  - `ui.rs` — the text of rows, titles, the help line and detail panels.
- `app/` is the program around it: the terminal, the environment, files on
  disk, running `xdg-mime`, and drawing with `ratatui`.
- `tests/` exercises the library on concrete inputs.
