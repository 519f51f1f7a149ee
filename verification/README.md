# pytest_rs_core

The core of a test runner for Python that works like pytest. The library holds
the decisions of the runner: which files are read and in which order, which
fixtures a test sees, how parametrized tests are expanded, selected and
ordered, which hooks are called, what is printed and with which code a session
ends. Every function states what it returns, and Verus proves it.

## Layout

- `src/` is the library. It works on plain values; a Python object is a
  `Handle`. A procedure that talks to Python, to files or to the terminal is a
  function from a state and an event to the next action, or a list of steps.
  - `markexpr`, `fixture`, `parametrize`, `introspect`, `selection`: tests and
    what they need.
  - `collect`: the phases of collection.
  - `hooks`: which hooks are called, and the tree of collectors.
  - `session`: the course of a session and its exit code.
  - `terminal`: the sections of the report.
  - `ipc`, `looponfail`, `pastebin`, `plugins`: workers, watching, the copy of
    the output, and plugins.
  - `text`, `lists`, `sorting`, `paths`, `numbers`, `nodeid`: what the rest is
    built on.
- `app/` performs the actions and steps: it calls Python, reads files and
  prints. What the embedding program brings along is the trait `Runtime`.
- `tests/` runs the library on concrete values.
