# pifile

The logic of Pifile, a keyboard-first file manager, written in Verus and
proved against its contracts.

- `src/text.rs` — whitespace, trimming, splitting and searching over characters.
- `src/theme/` — hex colors (parsing `#rgb`/`#rrggbb`, formatting, blending,
  darkness), the palette read from Omarchy `colors.toml` / `theme.conf`
  files with derived panel colors, and the theme file lookup order.
- `src/fs/` — paths, directory entries and size labels, the stable
  directories-first listing order, the places sidebar, and the checks and
  plans behind new folders, renames and copies.
- `src/browser.rs` — the browser window's state machine: what each key or
  click decides and what the status line and title then say.
- `src/icons.rs` — sidebar icons and the bundled asset paths.
- `app/` — the GPUI Kit window, the file system and process calls, and the
  theme watcher, all delegating their decisions to the library.
- `tests/` — scenario tests, and comparisons of the integer color and size
  arithmetic with the floating-point computations it stands for.
