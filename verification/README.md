# to

Project-scoped TODO lists kept in a `.todo` file, with the logic verified by
Verus.

- `src/` is the verified library:
  - `todo.rs`: tasks, priorities, labels, the `.todo` line format, and the
    list operations (add, add a subtask, mark, remove, move, subtree, next
    task).
  - `format.rs`: reading back what was written gives the same list.
  - `cli.rs`: the commands and how command-line arguments denote them.
  - `commands.rs`: what each command does to the list and what it prints,
    returned as a `Plan` for the program to carry out.
  - `scan.rs`, `git.rs`: `TODO:` comments in file contents, and what git's
    answers mean.
  - `project.rs`: the section `to init` keeps in the agent doc, and which
    directory's `.todo` file is used.
  - `laws.rs`: what holds across commands (uncheck undoes done, a second
    scan adds nothing, where subtasks go).
  - `text.rs`, `error.rs`: characters, lines, numbers, and the errors.
- `app/main.rs` is the `to` program: it finds the `.todo` file, reads and
  writes files, runs git and `opencode`, and prints what the library says.
- `tests/` runs the library on concrete inputs.
