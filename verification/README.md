# shellie

The logic of an application shell, verified with Verus: a spacing scale and
control-surface recipes, chords and keybind overrides, command dispatch
decisions, a split-tree dock layout with its persistence, settings tabs and
tree-view expansion state.

- `src/` — the verified library. Every public function carries a contract
  over mathematical views (`Seq`, `Map`, `Set`), and the laws the library
  promises are public proof functions beside the code they are about.
- `tests/` — executable scenarios run against the compiled library.
- `app/` — the engine side: keyboard and file I/O, the engine's systems,
  and the floating-point colour and resize maths.
