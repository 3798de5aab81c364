# revom

The verified core of RevomApp, a map editor for rounded, shaded paths on a
horizontally wrapping canvas.

- `src/text.rs`: decimal and boolean spellings, reading them back, and
  splitting text at a separator, with the lemmas that reading undoes writing.
- `src/map_format.rs`: the map file format (records separated by `;`, fields by
  `,`), writing and reading a map, and the proof that a written map reads back.
- `src/selection.rs`: which path a click selects, and the order in which paths
  are painted (by layer, then by position).
- `src/editor.rs`: the editor's state and its per-frame decisions: keys,
  pointer presses and handles, the grid button, and the invariant that there is
  always a path and the selection is valid.
- `app/main.rs`: the eframe program: drawing, floating-point geometry, file
  dialogs and file I/O.
