# webp_tray

A verified library with the logic of a Windows tray tool that watches the
Downloads folder and converts new `.webp` files to PNG (transparent or small
images) or JPEG (large opaque ones), sending the original to the Recycle Bin.

- `src/` — the library, verified with Verus. Each public function states in
  its contract what it returns; the properties the tool relies on (stems
  without reserved characters, DOS device names or leading and trailing dots
  and spaces; never reusing a taken name; the 40-poll budget for files still
  being written; autostart values settling) are proved there.
  - `sanitize` — file-stem sanitizing and left-ellipsizing, by grapheme cluster.
  - `convert` — output format rule, transparency count, output and temp names.
  - `pool` — worker counts, the settle probe for files being written, one-line
    error texts.
  - `watcher`, `logging`, `autostart`, `config`, `tray`, `notify` — the
    remaining decisions and texts.
  - `unicode` — the trusted boundary to `unicode-general-category`,
    `unicode-segmentation`, and the White_Space property.
  - `text` — verified conversions between `&str`, `String` and `Vec<char>`.
- `app/` — the program: file system, registry, image codecs, notifications,
  tray menu and threads, calling the library for every decision.
- `tests/` — tests of the library.
