# hdu

A disk usage visualizer for the terminal: an interactive view of a directory's
contents sorted by size, name or item count, with search, themes and a gauge of
the disk the directory lies on, plus one-shot `scan` and `tree` listings.

The logic is a Verus library whose behaviour is stated in contracts and proved:

- `src/scanner.rs`: the scanned tree (`Entry`), directory totals, the stable
  sort by size, name or count, the case-insensitive filter, and lookups by name
  and path. The laws of the sort (a permutation, ordered, stable), the
  filter's narrowing under a longer query, and the totals at every node of a
  built tree are proved.
- `src/system.rs`: mount points from a mount table, and disk usage from block
  counts.
- `src/ui.rs` and `src/ui/`: the state of the interactive view and what every
  key, click and scan result does to it (`handle_key`, `handle_mouse`,
  `finish_scan`, ...), the texts it shows, the themes, byte sizes as text, the
  scan and tree listings, and laws over several steps (`src/ui/laws.rs`).
- `src/text.rs`: character-level string helpers and the lexicographic order.
- `src/config.rs`, `src/action.rs`, `src/backend.rs`: settings, the command
  line, and the platform.

`app/` is the program around it: argument parsing, the configuration file,
reading the file system and the mount table, the terminal loop and drawing.
The view's methods return an action (`UiAction`) that the loop carries out:
scan a directory, find a parent directory, or save the theme.
