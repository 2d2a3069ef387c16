# ttd

A terminal manager for a `todo.txt.d` directory: task files in todo.txt
syntax, smart lists that filter, sort and group them, and an interactive
session with a sidebar, a task pane and an editor.

The library in `src/` is written in Verus; each function carries a
contract that Verus proves.

- `parser`, `task`, `store`: the todo.txt line format, tasks and their tags,
  and the task store (which file a task lives in, what marking done or
  restoring writes).
- `smartlist`: the smart-list file format, condition evaluation, sorting
  (stable) and grouping.
- `refresh`: the index of task files and the actions a change on disk calls
  for.
- `config`, `cli`, `bootstrap`: settings, arguments and how the program
  starts.
- `tui`: the application state machine (keys, modes, editor, pickers,
  viewer), the session that ties it to the tasks, and the layout of what is
  drawn.

`app/` holds what the library does not: reading and writing files, the
terminal, and drawing with ratatui. It hands the library plain values and
carries out the requests the session returns.
