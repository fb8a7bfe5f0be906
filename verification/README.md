# git-ui

A split-pane git diff viewer for the terminal: deletions on the left,
additions on the right, unchanged lines aligned on the same row, intra-line
change markers, syntax highlighting, and a live-reloading watch mode.

The library under `src/` is written in Verus and proved against its
contracts:

- `text` — UTF-8 widths, line splitting and line-terminator trimming.
- `inline` — intra-line changed byte ranges from a character-level diff.
- `diff` — aligned rows from a line-level diff; each pane lists every line of
  its file once, in order, and unchanged lines share a row.
- `style`, `ui` — colors, styled runs of a visible line, and the spans of one
  pane cell.
- `highlight` — per-line syntax segments (syntect) and color lookup.
- `git` — modes, name-status parsing, and the protocol that collects file
  diffs from the answers to `git` and file-system queries.
- `app` — the viewer's navigation state and its invariant.
- `screen` — the body, tab strip and status bar of a frame.
- `cli` — command-line arguments, key bindings, the headless-frame settings
  and one turn of the event loop (event in, next step out).

`app/main.rs` is the front end: it runs `git`, reads files, draws with
ratatui, and hands terminal events to the library's loop step, carrying out
the step it returns.
