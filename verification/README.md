# livefetch

A fastfetch-style system information tool that draws an image (PNG, JPEG,
GIF or WebP, animated or not) beside a block of system facts, optionally
refreshing them live.

## Layout

- `src/` — the library, verified with Verus:
  - `cli`, `config`: command-line values, the JSON configuration model, and
    how the two are merged.
  - `image`: decoding (GIF compositing with disposal, WebP timing, still
    images) and chroma keying of a background colour.
  - `info`: the info modules and how each reading becomes lines; `platform`
    turns the raw output of system tools (`xrandr`, `lspci`, `ip`, `pmset`,
    PowerShell, ...) into values for Linux, macOS and Windows.
  - `layout`: placing the info block beside the image and frame timing.
  - `terminal`: graphics-protocol detection, cell-size replies, and the
    ANSI half-block, Kitty and iTerm2 renderers.
  - `logo`: the built-in logo catalogue and name lookup.
  - `text`: string helpers shared by the above, with their specifications.
- `app/` — the program around the library: argument parsing, file and
  process I/O, terminal raw mode, the live loop, and the floating-point
  formatting of percentages, rates and sizes.
- `tests/` — tests of the library on concrete values.

Calls into `image`, `gif`, `webp-animation` and `base64` stand in the library
behind small trusted wrappers: the base64 text is stated in full, and what
the image crates compute is named.
