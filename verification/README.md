# tnk

Sandboxes for projects: one machine or container for each project, which sees the project and
nothing else of the host, and which is told where inference runs.

- `src/` is the library. It holds the rules: how projects are mapped to sandboxes, which checks
  come first, how commands are put together, which step follows which answer, how files are
  fetched, what is read from the tools and what is printed. It is verified with Verus, except for
  what it takes from outside on trust: reading and printing JSON, splitting shell words, the clock,
  the classes and the case of letters, the notation of paths, and adding a character to a text. The
  doc comments of these few items say what is claimed of each.
- `app/` is the program around it: arguments, files, processes, the network and the terminal. It
  performs what the library asks for and hands the answers back. Sizes with a fraction are read
  there, since they are floating-point numbers.
- `tests/` runs the library on concrete values.

Commands that take several steps are plans (`src/plan.rs`): lists of stages, each with a task and
with what every outcome of the task leads to. What a plan achieves is proved for every sequence of
outcomes.
