# snowfall

The game-logic library of Snowfall, a retro-style fantasy role-playing game,
written in Verus: every function in `src/` carries a contract that Verus
proves.

- `src/cvars.rs` – console variables: a registry of named float, integer and
  string values whose kind never changes.
- `src/console.rs` – the in-game console: line editing, command history, the
  log and Tab completion of variable names.
- `src/ui_style.rs` – the tailwind-like style shorthand of the UI.
- `src/world_map.rs` – the collision grid, walls and items of a level, and its
  text-grid file form.
- `src/geometry/` – triangle and line meshes, vertex selections and the
  mesh library, generic over the position type.
- `src/shader.rs` – splitting shader mixin files into named sections.
- `src/entity_database.rs`, `src/engine.rs` – entities by kind, the frame
  counter and the scheduling of per-frame tasks.
- `src/game.rs`, `src/window_state.rs` – menu transitions, the toolbar, the
  editor's item choice, and the remembered window placement.
- `src/panic_report.rs` – the frame list that the development panic hook prints.
- `src/text.rs` – character-level text helpers shared by the modules above.

Laws that relate several operations are stated as public proof functions
named `law_*` next to the operations they are about.

`app/` is the program around the library: command-line arguments, files,
YAML, random numbers, floating-point geometry and the template engine.
`tests/` exercises the library on concrete values.
