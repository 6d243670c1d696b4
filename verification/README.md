# taskbook

A small to-do list kept in a YAML file in the user's data directory
(`<data dir>/todo/todo.yml`): tasks, and folders that group tasks by index.

The library in `src/` holds the logic, verified with Verus:

- `task`: tasks and folders, and how they are shown.
- `taskfile`: the task file and every change a command makes to it; each
  change keeps every folder referring only to existing tasks, each at most
  once.
- `argid`: how a selection (name parts, indices, or everything) picks tasks
  and folders, and the errors when it cannot.
- `refs` and `removal`: how folder references follow the task list when
  tasks are removed, and how several removals by indices taken before any
  removal are carried out one after the other.
- `commands`: each command, from a selection to the change it makes.
- `listing`: the lines the listing commands print.
- `dir`: where the task file lives.
- `text`: substring search and decimal notation on strings.
- `args`: the parsed command line.

`app/` is the `todo` program around it: parsing the command line, reading
and writing the YAML file, and printing.
