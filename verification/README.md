# rustforge

Command line tool for developing engine mods: it checks out the engine that a
mod project is pinned to, builds it, builds and packages the mod, and runs the
engine with the mod in it, reloading the mod whenever the project changes.

- `src/` is the library, verified with Verus: how configuration, lockfile and
  paths are read, what is built, packaged and installed and where, what follows
  each outcome of a command or a step, and the logic of the demo mod
  (`engine_mod`).
- `app/` is the tool itself: arguments, files, processes. It performs the
  actions that the library asks for and hands back what came of them.
  `app/engine_mod.rs` is the demo mod as the engine loads it; it is built as a
  library of its own, against `enginelib`, and is no module of the tool.
- `tests/` holds the tests of the library.

Paths are read as the host reads them. On Unix, slashes separate segments; on
Windows, backslashes do so too, and a path may begin with a prefix such as a
drive (`host`, `path`).
