# md_tui

The core of `md`, a terminal reader for markdown, written in Verus: executable
Rust whose behaviour is stated in contracts and proved.

`src/` is the verified library. It parses and lays out markdown, keeps the state
of the reader and of the directory browser, and decides what every key and every
mouse event does. It performs no input or output: an action that needs the outside
world hands back an `Effect`, and where something comes of it the caller reports that
back: what was read, what was found, whether a write succeeded.

- `text`, `bytes`, `numbers`, `double`, `order`, `textmap`, `views`: text, byte offsets,
  numbers, rounding, stable sorting, maps keyed by text, views of lists
- `style`, `palette`, `theme`, `config`: colors, themes and settings
- `parse`, `wrap`, `table`, `markdown`, `syntax`, `raw`: from source to display lines
- `links`, `paths`, `vault`, `browser`, `search`, `diff`, `jsonl`, `read_state`:
  link targets, paths, listings, searches, diffs, JSON lines, unread files
- `editor`, `reader`, `app`, `actions`, `scroll`, `selection`, `pointer`, `keys`:
  the state of the program and what changes it
- `paint`, `frame`, `statusline`, `panels`, `clipboard`: what is drawn and copied
- `laws_*`: properties that span several functions

A few calls leave the verified world: pulldown-cmark's parser, syntect's
highlighter, the widths of unicode-width, base64's encoder and some functions of
the standard library. Each stands behind a small item whose comment says what is
relied on.

`app/` is the terminal program around the library: arguments, files, the terminal
and drawing. `tests/` runs the library on concrete values.
