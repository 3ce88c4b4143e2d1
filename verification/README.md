# tmux overview

A full-screen overview of the tmux sessions and windows of a server, run in a
popup: sessions form a tree by their `/`-separated names, windows sit below
their session with the labels of their panes and their CPU and memory use,
saved layouts of sessions that are gone can be restored, and a preview shows
the selected window's panes.

- `src/` is the library, verified with Verus: text measurement and ANSI
  filtering (`text`), the cache and state file formats (`state`, `saved`),
  the rows of the list (`rows`), keys on the list and in modals (`overview`,
  `actions`), restoring a saved layout step by step (`restore`), the preview
  (`preview`) and the screen (`render`).
- `app/` is the program around it: it runs tmux, `ps`, `stty` and `date`,
  reads and writes the files, reads keys, gathers process statistics in the
  background and prints what the library draws.
- `tests/` runs the library on concrete values.
