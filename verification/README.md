# riff

A terminal picker that searches a workspace with ripgrep (`rg`), shows the
matching files with a preview around the matched line, and copies a file path
or a `path:line:column` location to the clipboard.

- `src/` is the verified library (Verus): the ignore rules and the globs built
  from them (`config`), the ripgrep arguments and the reading of its JSON output
  (`search`), the picker's state and how every key press and every finished
  piece of outside work changes it (`app`, `keys`, `query`, `preview`, and `run` in `lib.rs`),
  and what the panes show (`ui`). Character and ordering helpers are in `text` and
  `order`.
- `app/` is the program around it: argument handling, reading the
  configuration files, the terminal, running `rg` and `pbcopy`, reading preview
  files and drawing with ratatui and syntect.
- `tests/` exercises the library.
