# roboview_core

The core of a 3D viewer for robotics data: file parsers for point clouds
(PLY), meshes (OBJ) and polylines (XYZ/CSV), the display types, the scene
registry, and the renderer's integer bookkeeping. Every function in `src/`
carries a Verus contract and is verified.

## Layout

- `src/io/` — the loaded-data model and the parsers.
  - `text.rs`: physical lines, tokens, the number grammars, message text.
  - `obj.rs`, `path_xyz.rs`: the OBJ and XYZ/CSV parsers, each stated as a
    fold over the file's lines.
  - `ply/`: the PLY header (`header.rs`), the vertex layout derived from it
    (`plan.rs`), and the ASCII and little-endian binary bodies (`body.rs`).
  - Numbers are kept as the file states them (`ScalarValue`): an integer
    field as its value, a floating-point field as its text or bit pattern.
- `src/displays/` — display kinds and the file-backed display types.
- `src/scene/` — the scene registry: stable ids, visibility, add order.
- `src/render/` — the render handle ledger, colors and appearance flags,
  strip and face layout of line and mesh geometry.
- `tests/` — the test suite, run against the compiled library.
- `app/` — the host side, not verified: file reading, floating-point
  geometry (bounds, camera, grid, picking) and the wgpu pipelines.

## Checking

The public proof functions named `law_*` state the properties that hold
across calls (ids are never reused, a removal keeps the other objects in
order, a toggle twice restores visibility, an upload/drop round balances
the ledger, a parse yields one point per declared vertex, ...).
