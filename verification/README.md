# iron_voxel

The verified core of a voxel world editor, written in Verus.

The library (`src/`) holds the editor's integer and text logic, each public
function with a contract that Verus proves:

- `scan`, `lod`: the chunk keys each level of detail loads around a centre
  key, as ordered scans of integer cubes;
- `shapes`, `ray`, `chunks`: the voxels a cube or sphere edit writes, grid
  snapping, the cells a preview copies, which chunks are loaded from storage
  or generated, and which drawn meshes a new mesh replaces;
- `payload`, `save`, `messages`: hexadecimal payloads, the terrain section of
  save files, and the key requests and event names exchanged with workers;
- `edit`, `editor`: edit modes, the preview's size levels, screen changes on
  key presses, menu actions, the hotbar and its color picker;
- `tags`, `ui`, `screens`: tagged layout trees, the order in which they are
  spawned, and the editor's screens.

Laws that relate several functions (round trips of payloads, save files and
key requests; disjoint levels of detail; buttons that select exactly their
own slot or color) are public proof functions next to the functions they
speak of.

`tests/` runs the library on concrete values.  `app/` is the program around
it: the engine's systems, styling, floating-point geometry, file dialogs and
worker plumbing.
