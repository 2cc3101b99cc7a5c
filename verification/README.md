# chronox-tui

A terminal browser for the timeline of file changes an agent made in a
worktree: a list of touched files (newest first, each with its edits nested
under it) beside a diff pane that shows the selected change as a block diff
or side by side.

## Layout

- `src/` — the verified library, written in Verus.
  - `app.rs`: the browser state and every state transition (focus, view,
    selection, scrolling, split resizing, re-pinning the selection when the
    timeline refreshes), with the laws they keep.
  - `input.rs`: keyboard and mouse events mapped to actions.
  - `editor.rs`: the editor command line for opening a change at its line.
  - `timeline.rs`: grouping the changes by file, the rows the list shows,
    and the session totals.
  - `selection.rs`: where the list cursor lands after a move or a refresh,
    and which file is expanded.
  - `render.rs`: styled rows (headers, edit rows, diff lines, gauges, the
    status strip and footer) as plain values, and the windows of them a
    pane shows.
  - `paths.rs`: path shortening for narrow rows.
  - `cache.rs`: the per-selection row cache of the diff pane.
- `tests/` — tests of the library.
- `app/` — the program around it: terminal setup, the event loop, reading
  the session logs, and drawing the library's rows with ratatui.
