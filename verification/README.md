# herdr-copy-search

Incremental regex search, copycat-style pattern search, extrakto-style
token extraction and a vi-style copy mode over herdr pane scrollback.

The logic is a Verus library (`src/`): every function there carries a
`requires`/`ensures` contract over spec functions and views, and the
properties that span several functions are stated as `law_*` proof
functions next to the code they speak of.

- `text`, `ansi`, `buffer` - chars, SGR parsing, the row buffer and its
  soft-wrap groups (including aligning the two herdr pane reads).
- `motion`, `lineedit`, `keys` - vi motions, the readline-style query
  editor, and input events as plain values.
- `regex_engine`, `search` - matches per logical line and seeking
  through them.
- `config`, `patterns` - the flat `config.toml` reader, the theme and
  the copycat pattern set.
- `click`, `app` - the copy/search view as a state machine over keys
  and mouse events.
- `extract` - tokenizing, fuzzy ranking and the picker.
- `ui`, `screen` - what each terminal row shows, as values.
- `osc52`, `nested`, `herdr`, `cli` - clipboard payloads, overlay
  markers, source pane resolution and argument parsing.

Calls into `regex`, `unicode-width` and `base64` go through small
trusted wrappers whose contracts state what those crates document.

`app/` is the program around it: reading the pane through the herdr
CLI, the overlay registry on disk, the terminal (crossterm) and the
OSC 52 write. It turns terminal events into the library's key and
mouse values and writes out the rows the library composes.
